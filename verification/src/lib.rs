//! Semantic text compression: rule-based cleaning, in-sentence compression and
//! TextRank selection, with the decisions around an optional model pass
//! (Ollama or an OpenAI-compatible service), streamed-answer handling, prompts,
//! error codes and scoring.
use vstd::prelude::*;

pub mod text;
pub mod ext;
pub mod errors;
pub mod model;
pub mod prompt;
pub mod algo;
pub mod scoring;
pub mod pipeline;
pub mod server;

verus! {

} // verus!
