use graph_infer::codegen::{CodeGenerator, CodeTemplate, ProgrammingLanguage};
use graph_infer::reasoning::{GLMReasoning, QueryType};

#[test]
fn test_generate_binary_search() {
    let generator = CodeGenerator::new();
    let code = generator.generate("implement binary search").ok().unwrap();
    assert_eq!(code.language, ProgrammingLanguage::Rust);
    assert!(code.code.contains("binary_search"));
    assert!(!code.test_cases.is_empty());
}

#[test]
fn test_safety_score() {
    let generator = CodeGenerator::new();
    let safe_code = "fn safe() -> Result<(), Error> { Ok(()) }";
    let unsafe_code = "fn unsafe_fn() { unsafe { } }";
    // scores are in percent
    assert!(generator.calculate_safety_score(safe_code) > 90);
    assert!(generator.calculate_safety_score(unsafe_code) < 80);
}

#[test]
fn test_reasoning_chain() {
    let reasoning = GLMReasoning::new(10);
    let chain = reasoning.reason("Test query", QueryType::Reasoning).ok().unwrap();
    assert!(!chain.steps.is_empty());
    assert!(chain.total_confidence_bp > 0);
}

#[test]
fn reasoning_wraps_the_query() {
    let reasoning = GLMReasoning::new(10);
    let chain = reasoning.reason("q", QueryType::Factual).ok().unwrap();
    assert_eq!(
        chain.final_answer,
        "Verified: Aggregated result: Inferred answer from: Retrieved context for: q"
    );
    assert_eq!(chain.steps.len(), 4);
    assert_eq!(chain.total_confidence_bp, 8625);
    assert_eq!(chain.steps[0].graph_nodes_accessed, vec!["node_0", "node_1"]);
    assert_eq!(chain.steps[1].graph_nodes_accessed, vec!["inference_node_1"]);
    assert_eq!(chain.chain_id.len(), 36);
    let other = reasoning.reason("q", QueryType::Factual).ok().unwrap();
    assert_ne!(chain.chain_id, other.chain_id);
}

#[test]
fn reasoning_stats() {
    let reasoning = GLMReasoning::new(10);
    let chains = reasoning
        .reason_parallel(vec![("a".to_string(), QueryType::Factual), ("b".to_string(), QueryType::Creative)])
        .ok()
        .unwrap();
    assert_eq!(chains.len(), 2);
    assert_eq!(chains[1].query, "b");
    let stats = reasoning.get_stats(&chains);
    assert_eq!(stats.total_chains, 2);
    assert_eq!(stats.total_steps, 8);
    assert_eq!((stats.avg_confidence_bp.num, stats.avg_confidence_bp.den), (17250, 2));
    let empty = reasoning.get_stats(&[]);
    assert_eq!((empty.avg_time_ms.num, empty.avg_time_ms.den), (0, 1));
}

#[test]
fn generate_picks_templates() {
    let g = CodeGenerator::new();
    let bfs = g.generate("graph traversal with bfs").ok().unwrap();
    assert!(bfs.code.contains("fn bfs"));
    assert_eq!(bfs.dependencies, vec!["std::collections"]);
    let calc = g.generate("a rhai calculator").ok().unwrap();
    assert_eq!(calc.language, ProgrammingLanguage::Rhai);
    assert_eq!(calc.test_cases.len(), 1);
    assert_eq!(calc.test_cases[0].expected_output, "8");
    let other = g.generate("sort a list").ok().unwrap();
    assert_eq!(
        other.code,
        "// Generated code for: sort a list\nfn main() {\n    println!(\"Implementation needed\");\n}"
    );
    assert!(other.test_cases.is_empty());
    assert_eq!(other.code_id.len(), 36);
}

#[test]
fn safety_score_bounds() {
    let g = CodeGenerator::new();
    assert_eq!(g.calculate_safety_score("x.unwrap(); panic!(); unsafe {}"), 40);
    assert_eq!(g.calculate_safety_score("Result<Option<u8>, E>"), 100);
    assert_eq!(g.calculate_safety_score(""), 100);
    assert_eq!(g.calculate_safety_score("unsafe Option<"), 75);
}

#[test]
fn templates_can_be_added_and_replaced() {
    let mut g = CodeGenerator::new();
    assert_eq!(g.get_template("graph_bfs").unwrap().name, "Graph BFS");
    assert!(g.get_template("quick_sort").is_none());
    g.add_template(CodeTemplate {
        template_id: "quick_sort".to_string(),
        name: "Quick Sort".to_string(),
        language: ProgrammingLanguage::Python,
        template_code: "def qs(a): pass".to_string(),
        placeholders: vec![],
    });
    assert_eq!(g.get_template("quick_sort").unwrap().language, ProgrammingLanguage::Python);
    g.add_template(CodeTemplate {
        template_id: "binary_search".to_string(),
        name: "Replaced".to_string(),
        language: ProgrammingLanguage::Rust,
        template_code: "fn binary_search_v2() {}".to_string(),
        placeholders: vec![],
    });
    let code = g.generate("binary search please").ok().unwrap();
    assert_eq!(code.code, "fn binary_search_v2() {}");
}

#[test]
fn generate_with_language_sets_the_tag() {
    let g = CodeGenerator::new();
    let code = g.generate_with_language("binary search", ProgrammingLanguage::Python).ok().unwrap();
    assert_eq!(code.language, ProgrammingLanguage::Python);
    assert_eq!(code.description, "binary search");
}

#[test]
fn built_in_templates() {
    let g = CodeGenerator::new();
    let calc = g.get_template("rhai_calculator").unwrap();
    assert_eq!(calc.language, ProgrammingLanguage::Rhai);
    assert_eq!(calc.placeholders, vec!["operation", "a", "b"]);
    assert_eq!(g.get_template("binary_search").unwrap().template_code, graph_infer::codegen::BINARY_SEARCH_SOURCE);
}
