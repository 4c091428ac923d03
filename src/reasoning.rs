//! A fixed multi-step reasoner: retrieval, inference, aggregation and an
//! optional verification step, each wrapping the previous step's output.
use vstd::prelude::*;
use vstd::string::StringExecFns;
use vstd::string::StrSliceExecFns;
use crate::cache::Ratio;
use crate::clock::current_time_ms;
use crate::text::{decimal, to_decimal};

verus! {

/// Relies on `uuid::Uuid::new_v4` for a random id and on its `Display`, which
/// writes the hyphenated form of 36 characters.
#[verifier::external_body]
pub(crate) fn new_uuid() -> (r: String)
    ensures
        r@.len() == 36,
{
    uuid::Uuid::new_v4().to_string()
}

/// What kind of answer a query asks for.
#[derive(Clone, Copy, Debug, PartialEq, Eq)]
pub enum QueryType {
    Factual,
    Reasoning,
    Computational,
    Creative,
}

#[derive(Clone, Copy, Debug, PartialEq, Eq)]
pub enum StepType {
    Retrieval,
    Inference,
    Aggregation,
    Verification,
}

#[derive(Clone, Debug)]
pub struct ReasoningStep {
    pub step_id: usize,
    pub step_type: StepType,
    pub input: String,
    pub output: String,
    /// Confidence in basis points (1/10000).
    pub confidence_bp: u64,
    pub graph_nodes_accessed: Vec<String>,
    pub cache_hits: usize,
}

#[derive(Clone, Debug)]
pub struct ReasoningChain {
    pub chain_id: String,
    pub query: String,
    pub query_type: QueryType,
    pub steps: Vec<ReasoningStep>,
    pub final_answer: String,
    /// The mean of the steps' confidences, in basis points.
    pub total_confidence_bp: u64,
    pub execution_time_ms: u64,
}

/// Why reasoning failed. The built-in steps never fail.
#[derive(Clone, Debug)]
pub enum ReasoningError {
    StepFailed,
}

pub struct GLMReasoning {
    max_steps: usize,
    confidence_threshold_bp: u64,
    enable_verification: bool,
}

/// Totals over several chains.
#[derive(Clone, Debug)]
pub struct ReasoningStats {
    pub total_chains: usize,
    pub total_steps: usize,
    /// Mean chain confidence in basis points; 0 / 1 for no chain.
    pub avg_confidence_bp: Ratio,
    /// Mean execution time in milliseconds; 0 / 1 for no chain.
    pub avg_time_ms: Ratio,
}

pub open spec fn retrieved(s: Seq<char>) -> Seq<char> {
    "Retrieved context for: "@ + s
}

pub open spec fn inferred(s: Seq<char>) -> Seq<char> {
    "Inferred answer from: "@ + s
}

pub open spec fn aggregated(s: Seq<char>) -> Seq<char> {
    "Aggregated result: "@ + s
}

pub open spec fn verified(s: Seq<char>) -> Seq<char> {
    "Verified: "@ + s
}

/// The final answer for `query`: the steps' prefixes wrapped around it.
pub open spec fn answer_for(query: Seq<char>, verify: bool) -> Seq<char> {
    let a = aggregated(inferred(retrieved(query)));
    if verify {
        verified(a)
    } else {
        a
    }
}

/// `prefix` followed by the decimal form of `n`.
fn labelled(prefix: &str, n: usize) -> (r: String)
    ensures
        r@ == prefix@ + decimal(n as nat),
{
    let mut r = String::from_str(prefix);
    let d = to_decimal(n);
    r.append(d.as_str());
    r
}

fn prefixed(prefix: &str, s: &str) -> (r: String)
    ensures
        r@ == prefix@ + s@,
{
    let mut r = String::from_str(prefix);
    r.append(s);
    r
}

fn step(step_id: usize, step_type: StepType, input: &str, output: String, confidence_bp: u64, nodes: Vec<String>, cache_hits: usize) -> (r: ReasoningStep)
    ensures
        r.step_id == step_id,
        r.step_type == step_type,
        r.input@ == input@,
        r.output@ == output@,
        r.confidence_bp == confidence_bp,
        r.graph_nodes_accessed@ == nodes@,
        r.cache_hits == cache_hits,
{
    ReasoningStep {
        step_id,
        step_type,
        input: String::from_str(input),
        output,
        confidence_bp,
        graph_nodes_accessed: nodes,
        cache_hits,
    }
}

impl GLMReasoning {
    pub closed spec fn verifies(&self) -> bool {
        self.enable_verification
    }

    /// A reasoner with verification on and a 0.7 confidence threshold.
    pub fn new(max_steps: usize) -> (r: Self)
        ensures
            r.verifies(),
    {
        GLMReasoning { max_steps, confidence_threshold_bp: 7000, enable_verification: true }
    }

    /// Looks up graph context for `input`, touching nodes `node_<id>` and
    /// `node_<id + 1>`.
    fn retrieval_step(&self, input: &str, step_id: usize) -> (r: ReasoningStep)
        requires
            step_id < 4,
        ensures
            r.step_id == step_id,
            r.output@ == retrieved(input@),
            r.confidence_bp == 8500,
    {
        let mut nodes: Vec<String> = Vec::new();
        nodes.push(labelled("node_", step_id));
        nodes.push(labelled("node_", step_id + 1));
        let out = prefixed("Retrieved context for: ", input);
        step(step_id, StepType::Retrieval, input, out, 8500, nodes, 2)
    }

    fn inference_step(&self, input: &str, step_id: usize) -> (r: ReasoningStep)
        ensures
            r.step_id == step_id,
            r.output@ == inferred(input@),
            r.confidence_bp == 8200,
    {
        let mut nodes: Vec<String> = Vec::new();
        nodes.push(labelled("inference_node_", step_id));
        let out = prefixed("Inferred answer from: ", input);
        step(step_id, StepType::Inference, input, out, 8200, nodes, 1)
    }

    fn aggregation_step(&self, input: &str, step_id: usize) -> (r: ReasoningStep)
        ensures
            r.step_id == step_id,
            r.output@ == aggregated(input@),
            r.confidence_bp == 8800,
    {
        let out = prefixed("Aggregated result: ", input);
        step(step_id, StepType::Aggregation, input, out, 8800, Vec::new(), 0)
    }

    /// Confidence 0.90 for an input longer than 10 characters, else 0.75.
    fn verification_step(&self, input: &str, step_id: usize) -> (r: ReasoningStep)
        ensures
            r.step_id == step_id,
            r.output@ == verified(input@),
            r.confidence_bp == if input@.len() > 10 { 9000u64 } else { 7500u64 },
    {
        let confidence: u64 = if input.unicode_len() > 10 { 9000 } else { 7500 };
        let out = prefixed("Verified: ", input);
        step(step_id, StepType::Verification, input, out, confidence, Vec::new(), 0)
    }

    /// Runs the steps on `query`. The answer is the query wrapped by each
    /// step in turn; the chain's confidence is the steps' mean.
    pub fn reason(&self, query: &str, query_type: QueryType) -> (r: Result<ReasoningChain, ReasoningError>)
        ensures
            r is Ok,
            r->Ok_0.final_answer@ == answer_for(query@, self.verifies()),
            r->Ok_0.query@ == query@,
            r->Ok_0.query_type == query_type,
            r->Ok_0.chain_id@.len() == 36,
            r->Ok_0.steps@.len() == if self.verifies() { 4int } else { 3int },
            forall|i: int| 0 <= i < r->Ok_0.steps@.len() ==> (#[trigger] r->Ok_0.steps@[i]).step_id == i,
            r->Ok_0.total_confidence_bp == if self.verifies() { 8625u64 } else { 8500u64 },
    {
        let start = current_time_ms();
        let chain_id = new_uuid();
        let mut steps: Vec<ReasoningStep> = Vec::new();
        let s0 = self.retrieval_step(query, 0);
        let mut current = s0.output.clone();
        steps.push(s0);
        let s1 = self.inference_step(current.as_str(), 1);
        current = s1.output.clone();
        steps.push(s1);
        let s2 = self.aggregation_step(current.as_str(), 2);
        current = s2.output.clone();
        steps.push(s2);
        let mut sum: u64 = 8500 + 8200 + 8800;
        if self.enable_verification {
            proof {
                reveal_strlit("Aggregated result: ");
                assert(current@.len() > 10);
            }
            let s3 = self.verification_step(current.as_str(), 3);
            current = s3.output.clone();
            sum = sum + s3.confidence_bp;
            assert(sum == 34500);
            steps.push(s3);
        }
        let count = steps.len() as u64;
        proof {
            assert(count == 4 ==> sum == 34500);
            assert(count == 3 ==> sum == 25500);
        }
        let total = if count == 4 { sum / 4 } else { sum / 3 };
        let end = current_time_ms();
        Ok(
            ReasoningChain {
                chain_id,
                query: String::from_str(query),
                query_type,
                steps,
                final_answer: current,
                total_confidence_bp: total,
                execution_time_ms: if end < start { 0 } else { end - start },
            },
        )
    }

    /// Runs `reason` on each query in turn.
    pub fn reason_parallel(&self, queries: Vec<(String, QueryType)>) -> (r: Result<Vec<ReasoningChain>, ReasoningError>)
        ensures
            r is Ok,
            r->Ok_0@.len() == queries@.len(),
            forall|i: int|
                0 <= i < queries@.len() ==> {
                    &&& (#[trigger] r->Ok_0@[i]).final_answer@ == answer_for(queries@[i].0@, self.verifies())
                    &&& r->Ok_0@[i].query_type == queries@[i].1
                },
    {
        let mut chains: Vec<ReasoningChain> = Vec::new();
        let mut i: usize = 0;
        while i < queries.len()
            invariant
                i <= queries@.len(),
                chains@.len() == i,
                forall|j: int|
                    0 <= j < i ==> {
                        &&& (#[trigger] chains@[j]).final_answer@ == answer_for(queries@[j].0@, self.verifies())
                        &&& chains@[j].query_type == queries@[j].1
                    },
            decreases queries@.len() - i,
        {
            let c = self.reason(queries[i].0.as_str(), queries[i].1);
            match c {
                Ok(chain) => chains.push(chain),
                Err(e) => return Err(e),
            }
            i = i + 1;
        }
        Ok(chains)
    }

    /// Totals and means over `chains`.
    pub fn get_stats(&self, chains: &[ReasoningChain]) -> (r: ReasoningStats)
        ensures
            r.total_chains == chains@.len(),
            r.total_steps == capped_total(step_counts(chains@)),
            r.avg_confidence_bp.num == sum_of(confidences(chains@)),
            r.avg_time_ms.num == sum_of(times(chains@)),
            r.avg_confidence_bp.den == if chains@.len() == 0 { 1 } else { chains@.len() },
            r.avg_time_ms.den == if chains@.len() == 0 { 1 } else { chains@.len() },
    {
        let ghost cs = chains@;
        let mut steps: usize = 0;
        let mut conf: u128 = 0;
        let mut time: u128 = 0;
        let mut i: usize = 0;
        while i < chains.len()
            invariant
                cs == chains@,
                i <= cs.len(),
                steps == capped_total(step_counts(cs.subrange(0, i as int))),
                conf == sum_of(confidences(cs.subrange(0, i as int))),
                time == sum_of(times(cs.subrange(0, i as int))),
                conf <= i * (u64::MAX as int),
                time <= i * (u64::MAX as int),
            decreases cs.len() - i,
        {
            proof {
                let p = cs.subrange(0, i + 1);
                assert(step_counts(p).drop_last() =~= step_counts(cs.subrange(0, i as int)));
                assert(confidences(p).drop_last() =~= confidences(cs.subrange(0, i as int)));
                assert(times(p).drop_last() =~= times(cs.subrange(0, i as int)));
                lemma_capped_step(step_counts(p));
                assert((i + 1) * (u64::MAX as int) == i * (u64::MAX as int) + u64::MAX) by (nonlinear_arith);
                assert((i + 1) * (u64::MAX as int) <= (usize::MAX as int) * (u64::MAX as int)) by (nonlinear_arith)
                    requires
                        i < usize::MAX,
                ;
                assert(usize::MAX as int <= u64::MAX as int);
                assert((usize::MAX as int) * (u64::MAX as int) <= (u64::MAX as int) * (u64::MAX as int)) by (nonlinear_arith)
                    requires
                        0 <= usize::MAX as int <= u64::MAX as int,
                ;
                assert((u64::MAX as int) * (u64::MAX as int) < u128::MAX as int);
            }
            steps = steps.saturating_add(chains[i].steps.len());
            conf = conf + chains[i].total_confidence_bp as u128;
            time = time + chains[i].execution_time_ms as u128;
            i = i + 1;
        }
        proof {
            assert(cs.subrange(0, cs.len() as int) =~= cs);
        }
        let n = chains.len() as u128;
        ReasoningStats {
            total_chains: chains.len(),
            total_steps: steps,
            avg_confidence_bp: Ratio { num: conf, den: if n == 0 { 1 } else { n } },
            avg_time_ms: Ratio { num: time, den: if n == 0 { 1 } else { n } },
        }
    }
}

pub open spec fn step_counts(cs: Seq<ReasoningChain>) -> Seq<int> {
    cs.map_values(|c: ReasoningChain| c.steps@.len() as int)
}

pub open spec fn confidences(cs: Seq<ReasoningChain>) -> Seq<int> {
    cs.map_values(|c: ReasoningChain| c.total_confidence_bp as int)
}

pub open spec fn times(cs: Seq<ReasoningChain>) -> Seq<int> {
    cs.map_values(|c: ReasoningChain| c.execution_time_ms as int)
}

pub open spec fn sum_of(s: Seq<int>) -> int
    decreases s.len(),
{
    if s.len() == 0 {
        0
    } else {
        sum_of(s.drop_last()) + s.last()
    }
}

/// A running total of `s` that stops at `usize::MAX`.
pub open spec fn capped_total(s: Seq<int>) -> int
    decreases s.len(),
{
    if s.len() == 0 {
        0
    } else {
        let t = capped_total(s.drop_last()) + s.last();
        if t < usize::MAX {
            t
        } else {
            usize::MAX as int
        }
    }
}

proof fn lemma_capped_step(s: Seq<int>)
    requires
        s.len() > 0,
    ensures
        capped_total(s) == {
            let t = capped_total(s.drop_last()) + s.last();
            if t < usize::MAX {
                t
            } else {
                usize::MAX as int
            }
        },
{
}

} // verus!
