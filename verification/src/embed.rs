//! The embedding contract: what the core checks around every call to the
//! remote embedding service.
//!
//! An embedding is a fixed-length vector. The remote service works in
//! floating point; the core keeps each component as a fixed-point integer
//! (the caller scales), because all the core ever decides on is the length
//! of the vector and, in the index model, exact integer scores. Two guards
//! surround the remote call: input must be non-empty after whitespace
//! normalization, and the returned vector must have exactly the configured
//! dimension: a mismatch is an error, never a silent truncation.

use vstd::prelude::*;
use crate::text::normalize_ws_spec;

verus! {

/// Why a text could not be embedded.
#[derive(Debug)]
pub enum EmbeddingError {
    /// The input was empty after normalization; nothing was sent remotely.
    EmptyInput,
    /// The remote service returned a vector of the wrong length.
    DimensionMismatch,
    /// The remote service could not be reached or answered malformed data;
    /// the cause is carried for the report.
    Transient(String),
}

impl Clone for EmbeddingError {
    fn clone(&self) -> (r: Self)
        ensures
            r is EmptyInput <==> self is EmptyInput,
            r is DimensionMismatch <==> self is DimensionMismatch,
            r is Transient <==> self is Transient,
    {
        match self {
            EmbeddingError::EmptyInput => EmbeddingError::EmptyInput,
            EmbeddingError::DimensionMismatch => EmbeddingError::DimensionMismatch,
            EmbeddingError::Transient(cause) => EmbeddingError::Transient(cause.clone()),
        }
    }
}

/// A fixed-length embedding vector with fixed-point integer components.
pub struct Embedding {
    components: Vec<i32>,
}

impl View for Embedding {
    type V = Seq<i32>;

    closed spec fn view(&self) -> Seq<i32> {
        self.components@
    }
}

impl Clone for Embedding {
    fn clone(&self) -> (r: Self)
        ensures
            r@ == self@,
    {
        Embedding { components: self.components.clone() }
    }
}

impl Embedding {
    /// An embedding holding exactly these components.
    pub fn new(components: Vec<i32>) -> (r: Embedding)
        ensures
            r@ == components@,
    {
        Embedding { components }
    }

    /// The dimension of the vector.
    pub fn len(&self) -> (r: usize)
        ensures
            r == self@.len(),
    {
        self.components.len()
    }

    /// One component of the vector.
    pub fn component(&self, i: usize) -> (r: i32)
        requires
            i < self@.len(),
        ensures
            r == self@[i as int],
    {
        self.components[i]
    }
}

/// The guard in front of the remote embedding call: normalizes the text and
/// hands it on exactly when something is left; empty input is the caller's
/// error and is never sent to the service.
pub fn prepare_embed_input(text: &str) -> (r: Result<String, EmbeddingError>)
    ensures
        match r {
            Ok(s) => s@ == normalize_ws_spec(text@) && s@.len() > 0,
            Err(e) => e is EmptyInput && normalize_ws_spec(text@).len() == 0,
        },
{
    let cleaned = crate::text::normalize_text(text);
    if cleaned.as_str().is_empty() {
        Err(EmbeddingError::EmptyInput)
    } else {
        Ok(cleaned)
    }
}

/// The guard behind the remote embedding call: accepts the returned vector
/// exactly when its length equals the configured dimension, and rejects a
/// mismatch rather than padding or truncating.
pub fn accept_embedding(raw: Vec<i32>, dim: usize) -> (r: Result<Embedding, EmbeddingError>)
    ensures
        match r {
            Ok(e) => raw@.len() == dim && e@ == raw@,
            Err(e) => e is DimensionMismatch && raw@.len() != dim,
        },
{
    if raw.len() == dim {
        Ok(Embedding::new(raw))
    } else {
        Err(EmbeddingError::DimensionMismatch)
    }
}

} // verus!
