//! Vertex-centric caching of graph computations and chunked streaming of
//! inference results, with the agents that produce and check those results.

pub mod cache;
mod clock;
pub mod codegen;
pub mod executor;
pub mod reasoning;
pub mod stream;
pub mod text;
