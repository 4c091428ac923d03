//! Pattern-based validation of generated code. Nothing is compiled or run:
//! each language has a list of forbidden patterns, and a snippet passes when
//! none applies.
use vstd::prelude::*;
use vstd::string::StringExecFns;
use crate::clock::current_time_ms;
use crate::codegen::{GeneratedCode, ProgrammingLanguage};
use crate::text::{contains_text, occurs_in};

verus! {

#[derive(Clone, Debug)]
pub struct ExecutionResult {
    pub success: bool,
    pub output: String,
    pub error: Option<String>,
    pub execution_time_ms: u64,
    pub memory_used_kb: usize,
    pub safety_violations: Vec<String>,
}

/// The limits and permissions of an execution.
#[derive(Clone, Copy, Debug)]
pub struct ExecutionEnvironment {
    pub timeout_ms: u64,
    pub max_memory_kb: usize,
    pub allow_io: bool,
    pub allow_network: bool,
}

impl Default for ExecutionEnvironment {
    fn default() -> (r: Self)
        ensures
            r.timeout_ms == 5000,
            r.max_memory_kb == 10240,
            !r.allow_io,
            !r.allow_network,
    {
        ExecutionEnvironment { timeout_ms: 5000, max_memory_kb: 10240, allow_io: false, allow_network: false }
    }
}

/// Why an execution could not be attempted. Validation itself never fails.
#[derive(Clone, Debug)]
pub enum ExecutionError {
    Unsupported,
}

pub struct CodeExecutor {
    environment: ExecutionEnvironment,
}

pub open spec fn when(c: bool, msg: Seq<char>) -> Seq<Seq<char>> {
    if c {
        seq![msg]
    } else {
        Seq::empty()
    }
}

/// The safety violations found in `code` written in `lang` under `env`.
pub open spec fn violations_of(lang: ProgrammingLanguage, code: Seq<char>, env: ExecutionEnvironment) -> Seq<Seq<char>> {
    match lang {
        ProgrammingLanguage::Rhai => when(
            occurs_in(code, "import"@) || occurs_in(code, "eval"@),
            "Unsafe operation detected: import/eval"@,
        ) + when(
            (occurs_in(code, "file"@) || occurs_in(code, "network"@)) && !env.allow_io && !env.allow_network,
            "IO/Network operation not allowed"@,
        ),
        ProgrammingLanguage::Rust => when(occurs_in(code, "unsafe {"@), "Unsafe block detected"@) + when(
            (occurs_in(code, "std::process"@) || occurs_in(code, "std::fs"@)) && !env.allow_io,
            "System call not allowed"@,
        ),
        ProgrammingLanguage::Python => when(
            occurs_in(code, "__import__"@) || occurs_in(code, "exec("@) || occurs_in(code, "eval("@),
            "Dangerous Python operation detected"@,
        ),
        ProgrammingLanguage::JavaScript => when(
            occurs_in(code, "eval("@) || occurs_in(code, "Function("@),
            "Dangerous JavaScript operation detected"@,
        ),
    }
}

/// The memory that an execution in `lang` is reported to use, in KiB.
pub open spec fn memory_of(lang: ProgrammingLanguage) -> usize {
    match lang {
        ProgrammingLanguage::Rhai => 512,
        ProgrammingLanguage::Rust => 1024,
        ProgrammingLanguage::Python => 2048,
        ProgrammingLanguage::JavaScript => 1536,
    }
}

pub open spec fn strings_view(s: Seq<String>) -> Seq<Seq<char>> {
    s.map_values(|x: String| x@)
}

/// The output text of a validation in `lang`.
pub open spec fn output_of(lang: ProgrammingLanguage, success: bool) -> Seq<char> {
    match lang {
        ProgrammingLanguage::Rhai => if success {
            "Code executed successfully (simulated)"@
        } else {
            "Execution blocked due to safety violations"@
        },
        ProgrammingLanguage::Rust => "Rust code validated (simulated)"@,
        ProgrammingLanguage::Python => "Python code validated (simulated)"@,
        ProgrammingLanguage::JavaScript => "JavaScript code validated (simulated)"@,
    }
}

/// Whether `r` reports the validation of `code` in `lang` under `env`.
pub open spec fn reports(r: ExecutionResult, lang: ProgrammingLanguage, code: Seq<char>, env: ExecutionEnvironment) -> bool {
    &&& strings_view(r.safety_violations@) == violations_of(lang, code, env)
    &&& r.success == (violations_of(lang, code, env).len() == 0)
    &&& r.error is None == r.success
    &&& r.memory_used_kb == memory_of(lang)
    &&& r.output@ == output_of(lang, r.success)
}

fn push_if(v: &mut Vec<String>, c: bool, msg: &str)
    ensures
        strings_view(final(v)@) == strings_view(old(v)@) + when(c, msg@),
{
    let ghost before = strings_view(v@);
    if c {
        v.push(String::from_str(msg));
        proof {
            assert(strings_view(v@) =~= before + when(c, msg@));
        }
    } else {
        proof {
            assert(strings_view(v@) =~= before + when(c, msg@));
        }
    }
}

fn elapsed_since(start: u64) -> (r: u64) {
    let end = current_time_ms();
    if end < start {
        0
    } else {
        end - start
    }
}

fn finish(violations: Vec<String>, ok_output: &str, bad_output: &str, failure: &str, start: u64, memory_used_kb: usize) -> (r: ExecutionResult)
    ensures
        r.safety_violations@ == violations@,
        r.success == (violations@.len() == 0),
        r.error is None == r.success,
        r.memory_used_kb == memory_used_kb,
        r.output@ == if r.success { ok_output@ } else { bad_output@ },
{
    let success = violations.len() == 0;
    let output = if success { String::from_str(ok_output) } else { String::from_str(bad_output) };
    let error = if success { None } else { Some(String::from_str(failure)) };
    ExecutionResult {
        success,
        output,
        error,
        execution_time_ms: elapsed_since(start),
        memory_used_kb,
        safety_violations: violations,
    }
}

impl CodeExecutor {
    pub closed spec fn env(&self) -> ExecutionEnvironment {
        self.environment
    }

    pub fn new(environment: ExecutionEnvironment) -> (r: Self)
        ensures
            r.env() == environment,
    {
        CodeExecutor { environment }
    }

    fn execute_rhai(&self, code: &str) -> (r: ExecutionResult)
        ensures
            reports(r, ProgrammingLanguage::Rhai, code@, self.env()),
    {
        let start = current_time_ms();
        let mut v: Vec<String> = Vec::new();
        push_if(&mut v, contains_text(code, "import") || contains_text(code, "eval"), "Unsafe operation detected: import/eval");
        push_if(
            &mut v,
            (contains_text(code, "file") || contains_text(code, "network")) && !self.environment.allow_io
                && !self.environment.allow_network,
            "IO/Network operation not allowed",
        );
        proof {
            assert(strings_view(Seq::<String>::empty()) =~= Seq::<Seq<char>>::empty());
        }
        finish(
            v,
            "Code executed successfully (simulated)",
            "Execution blocked due to safety violations",
            "Safety violations detected",
            start,
            512,
        )
    }

    fn execute_rust_simulation(&self, code: &str) -> (r: ExecutionResult)
        ensures
            reports(r, ProgrammingLanguage::Rust, code@, self.env()),
    {
        let start = current_time_ms();
        let mut v: Vec<String> = Vec::new();
        push_if(&mut v, contains_text(code, "unsafe {"), "Unsafe block detected");
        push_if(
            &mut v,
            (contains_text(code, "std::process") || contains_text(code, "std::fs")) && !self.environment.allow_io,
            "System call not allowed",
        );
        proof {
            assert(strings_view(Seq::<String>::empty()) =~= Seq::<Seq<char>>::empty());
        }
        finish(v, "Rust code validated (simulated)", "Rust code validated (simulated)", "Validation failed", start, 1024)
    }

    fn execute_python_simulation(&self, code: &str) -> (r: ExecutionResult)
        ensures
            reports(r, ProgrammingLanguage::Python, code@, self.env()),
    {
        let start = current_time_ms();
        let mut v: Vec<String> = Vec::new();
        push_if(
            &mut v,
            contains_text(code, "__import__") || contains_text(code, "exec(") || contains_text(code, "eval("),
            "Dangerous Python operation detected",
        );
        proof {
            assert(strings_view(Seq::<String>::empty()) =~= Seq::<Seq<char>>::empty());
            assert(strings_view(v@) =~= Seq::<Seq<char>>::empty() + strings_view(v@));
        }
        finish(v, "Python code validated (simulated)", "Python code validated (simulated)", "Validation failed", start, 2048)
    }

    fn execute_js_simulation(&self, code: &str) -> (r: ExecutionResult)
        ensures
            reports(r, ProgrammingLanguage::JavaScript, code@, self.env()),
    {
        let start = current_time_ms();
        let mut v: Vec<String> = Vec::new();
        push_if(
            &mut v,
            contains_text(code, "eval(") || contains_text(code, "Function("),
            "Dangerous JavaScript operation detected",
        );
        proof {
            assert(strings_view(Seq::<String>::empty()) =~= Seq::<Seq<char>>::empty());
        }
        finish(
            v,
            "JavaScript code validated (simulated)",
            "JavaScript code validated (simulated)",
            "Validation failed",
            start,
            1536,
        )
    }

    /// Validates `code` by the rules of its language.
    pub fn execute(&self, code: &GeneratedCode) -> (r: Result<ExecutionResult, ExecutionError>)
        ensures
            r is Ok,
            reports(r->Ok_0, code.language, code.code@, self.env()),
    {
        let s = code.code.as_str();
        match code.language {
            ProgrammingLanguage::Rhai => Ok(self.execute_rhai(s)),
            ProgrammingLanguage::Rust => Ok(self.execute_rust_simulation(s)),
            ProgrammingLanguage::Python => Ok(self.execute_python_simulation(s)),
            ProgrammingLanguage::JavaScript => Ok(self.execute_js_simulation(s)),
        }
    }

    /// Validates `code` in this environment with its timeout set to
    /// `timeout_ms`.
    pub fn execute_with_timeout(&self, code: &GeneratedCode, timeout_ms: u64) -> (r: Result<ExecutionResult, ExecutionError>)
        ensures
            r is Ok,
            reports(
                r->Ok_0,
                code.language,
                code.code@,
                ExecutionEnvironment { timeout_ms, ..self.env() },
            ),
    {
        let mut env = self.environment;
        env.timeout_ms = timeout_ms;
        let executor = CodeExecutor::new(env);
        executor.execute(code)
    }

    /// Validates each snippet in turn.
    pub fn execute_batch(&self, codes: &[GeneratedCode]) -> (r: Result<Vec<ExecutionResult>, ExecutionError>)
        ensures
            r is Ok,
            r->Ok_0@.len() == codes@.len(),
            forall|i: int|
                0 <= i < codes@.len() ==> reports(#[trigger] r->Ok_0@[i], codes@[i].language, codes@[i].code@, self.env()),
    {
        let mut out: Vec<ExecutionResult> = Vec::new();
        let mut i: usize = 0;
        while i < codes.len()
            invariant
                i <= codes@.len(),
                out@.len() == i,
                forall|j: int|
                    0 <= j < i ==> reports(#[trigger] out@[j], codes@[j].language, codes@[j].code@, self.env()),
            decreases codes@.len() - i,
        {
            match self.execute(&codes[i]) {
                Ok(res) => out.push(res),
                Err(e) => return Err(e),
            }
            i = i + 1;
        }
        Ok(out)
    }
}

} // verus!
