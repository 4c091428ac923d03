//! Template-based generation of code snippets from a description, with a
//! pattern-based safety score.
use vstd::prelude::*;
use vstd::string::StringExecFns;
use crate::reasoning::new_uuid;
use crate::text::{contains_text, occurs_in};

verus! {

#[derive(Clone, Copy, Debug, PartialEq, Eq)]
pub enum ProgrammingLanguage {
    Rust,
    Python,
    JavaScript,
    Rhai,
}

#[derive(Clone, Debug)]
pub struct TestCase {
    pub input: String,
    pub expected_output: String,
    pub description: String,
}

#[derive(Clone, Debug)]
pub struct CodeTemplate {
    pub template_id: String,
    pub name: String,
    pub language: ProgrammingLanguage,
    pub template_code: String,
    pub placeholders: Vec<String>,
}

#[derive(Clone, Debug)]
pub struct GeneratedCode {
    pub code_id: String,
    pub language: ProgrammingLanguage,
    pub code: String,
    pub description: String,
    pub dependencies: Vec<String>,
    pub test_cases: Vec<TestCase>,
    /// Safety score in percent, from 0 to 100.
    pub safety_score: u64,
}

/// Why generation failed: a template that a rule names is missing.
#[derive(Clone, Debug)]
pub enum CodeGenError {
    MissingTemplate,
}

/// The built-in binary-search template.
pub const BINARY_SEARCH_SOURCE: &'static str = "
fn binary_search<T: Ord>(arr: &[T], target: &T) -> Option<usize> {
    let mut left = 0;
    let mut right = arr.len();

    while left < right {
        let mid = left + (right - left) / 2;
        match arr[mid].cmp(target) {
            std::cmp::Ordering::Equal => return Some(mid),
            std::cmp::Ordering::Less => left = mid + 1,
            std::cmp::Ordering::Greater => right = mid,
        }
    }
    None
}
";

/// The built-in breadth-first-search template.
pub const GRAPH_BFS_SOURCE: &'static str = "
use std::collections::{VecDeque, HashSet};

fn bfs(graph: &HashMap<usize, Vec<usize>>, start: usize) -> Vec<usize> {
    let mut visited = HashSet::new();
    let mut queue = VecDeque::new();
    let mut result = Vec::new();

    queue.push_back(start);
    visited.insert(start);

    while let Some(node) = queue.pop_front() {
        result.push(node);

        if let Some(neighbors) = graph.get(&node) {
            for &neighbor in neighbors {
                if !visited.contains(&neighbor) {
                    visited.insert(neighbor);
                    queue.push_back(neighbor);
                }
            }
        }
    }

    result
}
";

/// The built-in calculator script.
pub const RHAI_CALCULATOR_SOURCE: &'static str = "
fn calculate(operation, a, b) {
    if operation == \"add\" {
        a + b
    } else if operation == \"subtract\" {
        a - b
    } else if operation == \"multiply\" {
        a * b
    } else if operation == \"divide\" {
        if b != 0 {
            a / b
        } else {
            print(\"Error: Division by zero\");
            0
        }
    } else {
        print(\"Unknown operation\");
        0
    }
}
";

pub struct CodeGenerator {
    templates: Vec<CodeTemplate>,
    safety_checks_enabled: bool,
}

pub open spec fn string_list(s: Seq<String>) -> Seq<Seq<char>> {
    s.map_values(|x: String| x@)
}

pub open spec fn template_ids(ts: Seq<CodeTemplate>) -> Seq<Seq<char>> {
    ts.map_values(|t: CodeTemplate| t.template_id@)
}

pub open spec fn has_template(ts: Seq<CodeTemplate>, id: Seq<char>) -> bool {
    exists|i: int| 0 <= i < ts.len() && (#[trigger] ts[i]).template_id@ == id
}

pub open spec fn ids_distinct(ts: Seq<CodeTemplate>) -> bool {
    forall|i: int, j: int|
        0 <= i < ts.len() && 0 <= j < ts.len() && (#[trigger] ts[i]).template_id@ == (#[trigger] ts[j]).template_id@
            ==> i == j
}

/// The safety score of `code` in percent: 100, less 30 for `unsafe`, 10 for
/// `unwrap()`, 20 for `panic!`, plus 10 for `Result<` and 5 for `Option<`,
/// kept within 0..=100.
pub open spec fn safety_score_of(code: Seq<char>) -> u64 {
    let s = 100 - (if occurs_in(code, "unsafe"@) { 30int } else { 0 }) - (if occurs_in(code, "unwrap()"@) {
        10int
    } else {
        0
    }) - (if occurs_in(code, "panic!"@) { 20int } else { 0 }) + (if occurs_in(code, "Result<"@) {
        10int
    } else {
        0
    }) + (if occurs_in(code, "Option<"@) { 5int } else { 0 });
    if s < 0 {
        0
    } else if s > 100 {
        100
    } else {
        s as u64
    }
}

/// Which template a description selects: 0 for binary search, 1 for graph
/// BFS, 2 for the calculator, 3 for none.
pub open spec fn rule_of(d: Seq<char>) -> int {
    if occurs_in(d, "binary search"@) {
        0
    } else if occurs_in(d, "graph"@) && occurs_in(d, "bfs"@) {
        1
    } else if occurs_in(d, "calculator"@) || occurs_in(d, "rhai"@) {
        2
    } else {
        3
    }
}

/// The (input, expected output, description) of the test cases that a
/// description gets.
pub open spec fn tests_of(d: Seq<char>) -> Seq<(Seq<char>, Seq<char>, Seq<char>)> {
    if occurs_in(d, "binary search"@) {
        seq![
            ("arr=[1,2,3,4,5], target=3"@, "Some(2)"@, "Find existing element"@),
            ("arr=[1,2,3,4,5], target=6"@, "None"@, "Element not found"@),
        ]
    } else if occurs_in(d, "calculator"@) {
        seq![("operation='add', a=5, b=3"@, "8"@, "Addition test"@)]
    } else {
        Seq::empty()
    }
}

pub open spec fn test_count_of(d: Seq<char>) -> int {
    tests_of(d).len() as int
}

pub open spec fn cases_view(cs: Seq<TestCase>) -> Seq<(Seq<char>, Seq<char>, Seq<char>)> {
    cs.map_values(|c: TestCase| (c.input@, c.expected_output@, c.description@))
}

/// The dependencies that generated code lists.
pub open spec fn dependencies_of(d: Seq<char>) -> Seq<Seq<char>> {
    if rule_of(d) == 0 {
        seq!["std"@]
    } else if rule_of(d) == 1 {
        seq!["std::collections"@]
    } else {
        Seq::empty()
    }
}

fn text(s: &str) -> (r: String)
    ensures
        r@ == s@,
{
    String::from_str(s)
}

fn test_case(input: &str, expected: &str, description: &str) -> (r: TestCase)
    ensures
        r.input@ == input@,
        r.expected_output@ == expected@,
        r.description@ == description@,
{
    TestCase { input: text(input), expected_output: text(expected), description: text(description) }
}

impl CodeGenerator {
    /// The templates, in insertion order.
    pub closed spec fn templates(&self) -> Seq<CodeTemplate> {
        self.templates@
    }

    /// Whether generated code gets safety checks.
    pub closed spec fn checks_enabled(&self) -> bool {
        self.safety_checks_enabled
    }

    /// Template ids are distinct, and the three built-in ids are present.
    pub closed spec fn wf(&self) -> bool {
        &&& ids_distinct(self.templates@)
        &&& has_template(self.templates@, "binary_search"@)
        &&& has_template(self.templates@, "graph_bfs"@)
        &&& has_template(self.templates@, "rhai_calculator"@)
    }

    /// A generator holding the three built-in templates.
    pub fn new() -> (r: Self)
        ensures
            r.wf(),
            ids_distinct(r.templates()),
            r.checks_enabled(),
            template_ids(r.templates()) =~= seq!["binary_search"@, "graph_bfs"@, "rhai_calculator"@],
            r.templates()[0].name@ == "Binary Search"@,
            r.templates()[0].language == ProgrammingLanguage::Rust,
            r.templates()[0].template_code@ == BINARY_SEARCH_SOURCE@,
            r.templates()[0].placeholders@.len() == 0,
            r.templates()[1].name@ == "Graph BFS"@,
            r.templates()[1].language == ProgrammingLanguage::Rust,
            r.templates()[1].template_code@ == GRAPH_BFS_SOURCE@,
            r.templates()[1].placeholders@.len() == 0,
            r.templates()[2].name@ == "Rhai Calculator"@,
            r.templates()[2].language == ProgrammingLanguage::Rhai,
            r.templates()[2].template_code@ == RHAI_CALCULATOR_SOURCE@,
            string_list(r.templates()[2].placeholders@) == seq!["operation"@, "a"@, "b"@],
    {
        let mut g = CodeGenerator { templates: Vec::new(), safety_checks_enabled: true };
        g.load_default_templates();
        g
    }

    fn load_default_templates(&mut self)
        requires
            old(self).templates@.len() == 0,
            old(self).safety_checks_enabled,
        ensures
            final(self).wf(),
            ids_distinct(final(self).templates()),
            final(self).checks_enabled(),
            template_ids(final(self).templates()) =~= seq!["binary_search"@, "graph_bfs"@, "rhai_calculator"@],
            final(self).templates()[0].name@ == "Binary Search"@,
            final(self).templates()[0].language == ProgrammingLanguage::Rust,
            final(self).templates()[0].template_code@ == BINARY_SEARCH_SOURCE@,
            final(self).templates()[0].placeholders@.len() == 0,
            final(self).templates()[1].name@ == "Graph BFS"@,
            final(self).templates()[1].language == ProgrammingLanguage::Rust,
            final(self).templates()[1].template_code@ == GRAPH_BFS_SOURCE@,
            final(self).templates()[1].placeholders@.len() == 0,
            final(self).templates()[2].name@ == "Rhai Calculator"@,
            final(self).templates()[2].language == ProgrammingLanguage::Rhai,
            final(self).templates()[2].template_code@ == RHAI_CALCULATOR_SOURCE@,
            string_list(final(self).templates()[2].placeholders@) == seq!["operation"@, "a"@, "b"@],
    {
        proof {
            reveal_strlit("binary_search");
            reveal_strlit("graph_bfs");
            reveal_strlit("rhai_calculator");
        }
        self.templates.push(
            CodeTemplate {
                template_id: text("binary_search"),
                name: text("Binary Search"),
                language: ProgrammingLanguage::Rust,
                template_code: text(BINARY_SEARCH_SOURCE),
                placeholders: Vec::new(),
            },
        );
        self.templates.push(
            CodeTemplate {
                template_id: text("graph_bfs"),
                name: text("Graph BFS"),
                language: ProgrammingLanguage::Rust,
                template_code: text(GRAPH_BFS_SOURCE),
                placeholders: Vec::new(),
            },
        );
        let mut placeholders: Vec<String> = Vec::new();
        placeholders.push(text("operation"));
        placeholders.push(text("a"));
        placeholders.push(text("b"));
        self.templates.push(
            CodeTemplate {
                template_id: text("rhai_calculator"),
                name: text("Rhai Calculator"),
                language: ProgrammingLanguage::Rhai,
                template_code: text(RHAI_CALCULATOR_SOURCE),
                placeholders,
            },
        );
        proof {
            let ts = self.templates@;
            assert(ts[0].template_id@ == "binary_search"@);
            assert(ts[1].template_id@ == "graph_bfs"@);
            assert(ts[2].template_id@ == "rhai_calculator"@);
            reveal_strlit("operation");
            reveal_strlit("a");
            reveal_strlit("b");
            assert(string_list(ts[2].placeholders@) =~= seq!["operation"@, "a"@, "b"@]);

            assert(template_ids(ts) =~= seq!["binary_search"@, "graph_bfs"@, "rhai_calculator"@]);
        }
    }

    fn find_template(&self, template_id: &String) -> (r: Option<usize>)
        ensures
            match r {
                Some(i) => i < self.templates@.len() && self.templates@[i as int].template_id@ == template_id@,
                None => !has_template(self.templates@, template_id@),
            },
    {
        let mut i: usize = 0;
        while i < self.templates.len()
            invariant
                i <= self.templates@.len(),
                forall|j: int| 0 <= j < i ==> (#[trigger] self.templates@[j]).template_id@ != template_id@,
            decreases self.templates@.len() - i,
        {
            if self.templates[i].template_id == *template_id {
                return Some(i);
            }
            i = i + 1;
        }
        None
    }

    /// Stores `template` under its id, replacing a template with the same id
    /// in place, or appending it.
    pub fn add_template(&mut self, template: CodeTemplate)
        requires
            old(self).wf(),
        ensures
            final(self).wf(),
            ({
                let ts = old(self).templates();
                if has_template(ts, template.template_id@) {
                    exists|i: int|
                        0 <= i < ts.len() && ts[i].template_id@ == template.template_id@ && final(self).templates()
                            == #[trigger] ts.update(i, template)
                } else {
                    final(self).templates() == ts.push(template)
                }
            }),
            ids_distinct(final(self).templates()),
            has_template(final(self).templates(), template.template_id@),
            forall|i: int|
                0 <= i < final(self).templates().len() && (#[trigger] final(self).templates()[i]).template_id@
                    == template.template_id@ ==> final(self).templates()[i] == template,
    {
        let ghost ts = self.templates@;
        let ghost t = template;
        match self.find_template(&template.template_id) {
            Some(i) => {
                self.templates.remove(i);
                self.templates.insert(i, template);
                proof {
                    let n = self.templates@;
                    assert(n =~= ts.update(i as int, t));
                    assert(n[i as int] == t);
                    assert forall|a: int, b: int|
                        0 <= a < n.len() && 0 <= b < n.len() && (#[trigger] n[a]).template_id@
                            == (#[trigger] n[b]).template_id@ implies a == b by {
                        assert(n[a].template_id@ == ts[a].template_id@);
                        assert(n[b].template_id@ == ts[b].template_id@);
                    }
                    let w0 = choose|j: int| 0 <= j < ts.len() && (#[trigger] ts[j]).template_id@ == "binary_search"@;
                    assert(n[w0].template_id@ == ts[w0].template_id@);
                    let w1 = choose|j: int| 0 <= j < ts.len() && (#[trigger] ts[j]).template_id@ == "graph_bfs"@;
                    assert(n[w1].template_id@ == ts[w1].template_id@);
                    let w2 = choose|j: int| 0 <= j < ts.len() && (#[trigger] ts[j]).template_id@ == "rhai_calculator"@;
                    assert(n[w2].template_id@ == ts[w2].template_id@);
                }
            },
            None => {
                self.templates.push(template);
                proof {
                    let n = self.templates@;
                    assert(n == ts.push(t));
                    assert(n[ts.len() as int] == t);
                    assert forall|a: int, b: int|
                        0 <= a < n.len() && 0 <= b < n.len() && (#[trigger] n[a]).template_id@
                            == (#[trigger] n[b]).template_id@ implies a == b by {
                        if a < ts.len() && b == ts.len() {
                            assert(ts[a].template_id@ == t.template_id@);
                        }
                        if b < ts.len() && a == ts.len() {
                            assert(ts[b].template_id@ == t.template_id@);
                        }
                    }
                    let w0 = choose|j: int| 0 <= j < ts.len() && (#[trigger] ts[j]).template_id@ == "binary_search"@;
                    assert(n[w0] == ts[w0]);
                    let w1 = choose|j: int| 0 <= j < ts.len() && (#[trigger] ts[j]).template_id@ == "graph_bfs"@;
                    assert(n[w1] == ts[w1]);
                    let w2 = choose|j: int| 0 <= j < ts.len() && (#[trigger] ts[j]).template_id@ == "rhai_calculator"@;
                    assert(n[w2] == ts[w2]);
                }
            },
        }
    }

    /// The template stored under `template_id`, if any.
    pub fn get_template(&self, template_id: &str) -> (r: Option<&CodeTemplate>)
        requires
            self.wf(),
        ensures
            match r {
                Some(t) => has_template(self.templates(), template_id@) && t.template_id@ == template_id@ && forall|i: int|
                    0 <= i < self.templates().len() && (#[trigger] self.templates()[i]).template_id@ == template_id@
                        ==> self.templates()[i] == *t,
                None => !has_template(self.templates(), template_id@),
            },
    {
        let id = String::from_str(template_id);
        match self.find_template(&id) {
            Some(i) => {
                let t = &self.templates[i];
                proof {
                    assert(*t == self.templates()[i as int]);
                    assert forall|j: int|
                        0 <= j < self.templates().len() && (#[trigger] self.templates()[j]).template_id@ == template_id@
                            implies self.templates()[j] == *t by {
                        assert(self.templates@[j].template_id@ == self.templates@[i as int].template_id@);
                    }
                }
                Some(t)
            },
            None => None,
        }
    }

    /// The code of the template stored under `template_id`.
    fn template_code(&self, template_id: &str) -> (r: Result<String, CodeGenError>)
        requires
            self.wf(),
        ensures
            has_template(self.templates(), template_id@) <==> r is Ok,
            r is Ok ==> exists|i: int|
                0 <= i < self.templates().len() && (#[trigger] self.templates()[i]).template_id@ == template_id@
                    && r->Ok_0@ == self.templates()[i].template_code@,
    {
        match self.get_template(template_id) {
            Some(t) => {
                proof {
                    let i = choose|i: int|
                        0 <= i < self.templates().len() && (#[trigger] self.templates()[i]).template_id@ == template_id@;
                    assert(self.templates()[i] == *t);
                }
                Ok(t.template_code.clone())
            },
            None => Err(CodeGenError::MissingTemplate),
        }
    }

    /// The test cases that a description calls for.
    pub fn generate_test_cases(&self, description: &str, language: &ProgrammingLanguage) -> (r: Vec<TestCase>)
        ensures
            cases_view(r@) == tests_of(description@),
    {
        let mut cases: Vec<TestCase> = Vec::new();
        if contains_text(description, "binary search") {
            cases.push(test_case("arr=[1,2,3,4,5], target=3", "Some(2)", "Find existing element"));
            cases.push(test_case("arr=[1,2,3,4,5], target=6", "None", "Element not found"));
        } else if contains_text(description, "calculator") {
            cases.push(test_case("operation='add', a=5, b=3", "8", "Addition test"));
        }
        proof {
            assert(cases_view(cases@) =~= tests_of(description@));
        }
        cases
    }

    /// The safety score of `code`, in percent.
    pub fn calculate_safety_score(&self, code: &str) -> (r: u64)
        ensures
            r == safety_score_of(code@),
    {
        let mut score: i64 = 100;
        if contains_text(code, "unsafe") {
            score = score - 30;
        }
        if contains_text(code, "unwrap()") {
            score = score - 10;
        }
        if contains_text(code, "panic!") {
            score = score - 20;
        }
        if contains_text(code, "Result<") {
            score = score + 10;
        }
        if contains_text(code, "Option<") {
            score = score + 5;
        }
        if score < 0 {
            0
        } else if score > 100 {
            100
        } else {
            score as u64
        }
    }

    /// Generates code for `description`: the binary-search, BFS or
    /// calculator template when the description names one, else a stub.
    pub fn generate(&self, description: &str) -> (r: Result<GeneratedCode, CodeGenError>)
        requires
            self.wf(),
        ensures
            r is Ok,
            r->Ok_0.description@ == description@,
            r->Ok_0.code_id@.len() == 36,
            r->Ok_0.language == if rule_of(description@) == 2 {
                ProgrammingLanguage::Rhai
            } else {
                ProgrammingLanguage::Rust
            },
            rule_of(description@) < 3 ==> exists|i: int|
                0 <= i < self.templates().len() && (#[trigger] self.templates()[i]).template_id@ == (if rule_of(
                    description@,
                ) == 0 {
                    "binary_search"@
                } else if rule_of(description@) == 1 {
                    "graph_bfs"@
                } else {
                    "rhai_calculator"@
                }) && r->Ok_0.code@ == self.templates()[i].template_code@,
            rule_of(description@) == 3 ==> r->Ok_0.code@ == stub_code(description@),
            cases_view(r->Ok_0.test_cases@) == tests_of(description@),
            string_list(r->Ok_0.dependencies@) == dependencies_of(description@),
            r->Ok_0.safety_score == safety_score_of(r->Ok_0.code@),
    {
        let code_id = new_uuid();
        let mut dependencies: Vec<String> = Vec::new();
        let code;
        let language;
        if contains_text(description, "binary search") {
            code = self.template_code("binary_search")?;
            language = ProgrammingLanguage::Rust;
            dependencies.push(text("std"));
        } else if contains_text(description, "graph") && contains_text(description, "bfs") {
            code = self.template_code("graph_bfs")?;
            language = ProgrammingLanguage::Rust;
            dependencies.push(text("std::collections"));
        } else if contains_text(description, "calculator") || contains_text(description, "rhai") {
            code = self.template_code("rhai_calculator")?;
            language = ProgrammingLanguage::Rhai;
        } else {
            code = stub(description);
            language = ProgrammingLanguage::Rust;
        }
        proof {
            assert(string_list(dependencies@) =~= dependencies_of(description@));
        }
        let test_cases = self.generate_test_cases(description, &language);
        let safety_score = self.calculate_safety_score(code.as_str());
        Ok(
            GeneratedCode {
                code_id,
                language,
                code,
                description: text(description),
                dependencies,
                test_cases,
                safety_score,
            },
        )
    }

    /// Generates code for `description` as `generate` does, tagged with
    /// `language`.
    pub fn generate_with_language(&self, description: &str, language: ProgrammingLanguage) -> (r: Result<
        GeneratedCode,
        CodeGenError,
    >)
        requires
            self.wf(),
        ensures
            r is Ok,
            r->Ok_0.language == language,
            r->Ok_0.description@ == description@,
            r->Ok_0.test_cases@.len() == test_count_of(description@),
            r->Ok_0.safety_score == safety_score_of(r->Ok_0.code@),
    {
        let mut code = self.generate(description)?;
        code.language = language;
        Ok(code)
    }
}

/// The stub written for a description that no template matches.
pub open spec fn stub_code(d: Seq<char>) -> Seq<char> {
    "// Generated code for: "@ + d + "\nfn main() {\n    println!(\"Implementation needed\");\n}"@
}

fn stub(description: &str) -> (r: String)
    ensures
        r@ == stub_code(description@),
{
    let mut s = text("// Generated code for: ");
    s.append(description);
    s.append("\nfn main() {\n    println!(\"Implementation needed\");\n}");
    s
}

} // verus!
