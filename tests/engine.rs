use graph_infer::codegen::{CodeGenerator, GeneratedCode, ProgrammingLanguage};
use graph_infer::executor::{CodeExecutor, ExecutionEnvironment};

fn snippet(language: ProgrammingLanguage, code: &str) -> GeneratedCode {
    GeneratedCode {
        code_id: "test".to_string(),
        language,
        code: code.to_string(),
        description: "test".to_string(),
        dependencies: vec![],
        test_cases: vec![],
        safety_score: 50,
    }
}

#[test]
fn test_safe_execution() {
    let executor = CodeExecutor::new(ExecutionEnvironment::default());
    let generator = CodeGenerator::new();
    let code = generator.generate("implement binary search").ok().unwrap();
    let result = executor.execute(&code).ok().unwrap();
    assert!(result.success);
    assert!(result.safety_violations.is_empty());
}

#[test]
fn test_unsafe_detection() {
    let executor = CodeExecutor::new(ExecutionEnvironment::default());
    let unsafe_code = snippet(ProgrammingLanguage::Rust, "unsafe { }");
    let result = executor.execute(&unsafe_code).ok().unwrap();
    assert!(!result.safety_violations.is_empty());
}

#[test]
fn rust_system_calls_need_io() {
    let code = snippet(ProgrammingLanguage::Rust, "std::fs::read(p)");
    let strict = CodeExecutor::new(ExecutionEnvironment::default());
    let r = strict.execute(&code).ok().unwrap();
    assert_eq!(r.safety_violations, vec!["System call not allowed"]);
    assert_eq!(r.error.as_deref(), Some("Validation failed"));
    assert_eq!(r.memory_used_kb, 1024);
    let lax = CodeExecutor::new(ExecutionEnvironment { allow_io: true, ..ExecutionEnvironment::default() });
    assert!(lax.execute(&code).ok().unwrap().success);
}

#[test]
fn rhai_checks() {
    let ex = CodeExecutor::new(ExecutionEnvironment::default());
    let r = ex.execute(&snippet(ProgrammingLanguage::Rhai, "import \"file\"")).ok().unwrap();
    assert_eq!(r.safety_violations, vec!["Unsafe operation detected: import/eval", "IO/Network operation not allowed"]);
    assert_eq!(r.output, "Execution blocked due to safety violations");
    let ok = ex.execute(&snippet(ProgrammingLanguage::Rhai, "1 + 2")).ok().unwrap();
    assert_eq!(ok.output, "Code executed successfully (simulated)");
    assert_eq!(ok.memory_used_kb, 512);
}

#[test]
fn python_and_js_checks() {
    let ex = CodeExecutor::new(ExecutionEnvironment::default());
    let py = ex.execute(&snippet(ProgrammingLanguage::Python, "exec(x)")).ok().unwrap();
    assert_eq!(py.safety_violations, vec!["Dangerous Python operation detected"]);
    assert_eq!(py.memory_used_kb, 2048);
    let js = ex.execute(&snippet(ProgrammingLanguage::JavaScript, "new Function(s)")).ok().unwrap();
    assert_eq!(js.safety_violations, vec!["Dangerous JavaScript operation detected"]);
    let clean = ex.execute(&snippet(ProgrammingLanguage::JavaScript, "let a = 1;")).ok().unwrap();
    assert!(clean.success && clean.error.is_none());
}

#[test]
fn batch_and_timeout() {
    let ex = CodeExecutor::new(ExecutionEnvironment::default());
    let codes = vec![snippet(ProgrammingLanguage::Rust, "fn a() {}"), snippet(ProgrammingLanguage::Python, "eval(1)")];
    let results = ex.execute_batch(&codes).ok().unwrap();
    assert_eq!(results.len(), 2);
    assert!(results[0].success);
    assert!(!results[1].success);
    assert!(ex.execute_with_timeout(&codes[0], 10).ok().unwrap().success);
}

#[test]
fn default_environment() {
    let env = ExecutionEnvironment::default();
    assert_eq!(env.timeout_ms, 5000);
    assert_eq!(env.max_memory_kb, 10240);
    assert!(!env.allow_io && !env.allow_network);
}
