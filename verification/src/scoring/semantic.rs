//! The parts of the semantic-similarity score that are not arithmetic on
//! embeddings: whether it is asked for, and where the embeddings come from.
use vstd::prelude::*;

use crate::model::openai_compat::{opt_str, strip_slashes, strip_slashes_exec};
use crate::text::{concat2, from_chars, to_chars};

verus! {

/// The semantic score is computed only when both an embedding model and an
/// Ollama base address are given and neither is empty.
pub open spec fn requested_spec(model: Option<Seq<char>>, base: Option<Seq<char>>) -> bool {
    &&& model is Some && model->0.len() > 0
    &&& base is Some && base->0.len() > 0
}

/// Whether the semantic score is to be computed (see `requested_spec`).
pub fn requested(model: Option<&str>, base: Option<&str>) -> (b: bool)
    ensures
        b == requested_spec(opt_str(model), opt_str(base)),
{
    match (model, base) {
        (Some(m), Some(b)) => to_chars(m).len() > 0 && to_chars(b).len() > 0,
        _ => false,
    }
}

/// The embeddings endpoint of an Ollama base address: trailing slashes
/// dropped, then `/api/embeddings`.
pub fn embeddings_url(base: &str) -> (u: String)
    ensures
        u@ == strip_slashes(base@) + "/api/embeddings"@,
{
    let v = strip_slashes_exec(&to_chars(base));
    from_chars(&concat2(&v, &to_chars("/api/embeddings")))
}

} // verus!
