//! Encodes a parsed natural-language discourse into a fixed-format
//! content fingerprint.
//!
//! Sentences arrive already broken into subject-predicate-object
//! triplets with morphological annotations.  The encoder resolves and
//! deduplicates each sentence's triplets, classifies them as real or
//! virtual by verb mood, folds coreferenced mentions into
//! discourse-scoped entities, appends one event node per triplet on an
//! append-only timeline threaded with virtual branch/rejoin intervals,
//! aggregates per-entity salience vectors, and serializes the ranked
//! entity geometry as a fixed-width delimited fingerprint.
//!
//! Meaning-grid positions are carried as scaled integer coordinates,
//! so vector sums, orientation tests and squared radii are exact; the
//! transcendental steps (polar angles, the law-of-cosines token
//! preformat) belong to the caller, which hands their rounded results
//! back as plain values.

use vstd::prelude::*;

pub mod encode;
pub mod entities;
pub mod events;
pub mod excitation;
pub mod geometry;
pub mod hashing;
pub mod hull;
pub mod records;
pub mod resolver;
pub mod senses;
pub mod virtuality;
pub mod wordnet;

verus! {

/// The failures that the encoding pipeline can report.
#[derive(Debug, Clone, Copy, PartialEq, Eq, Structural)]
pub enum EncodeError {
    /// The caller did not affirm the usage policy; nothing is computed.
    ConsentDenied,
    /// A record-store read or write failed; the whole encode is abandoned.
    CollaboratorFailure,
    /// A triplet had no resolvable subject, predicate or object word.
    UnresolvableTriplet,
    /// A zero-length vector would have forced a division by zero.
    DegenerateGeometry,
}

impl EncodeError {
    /// A fixed, user-facing description of the failure.
    pub fn message(&self) -> (r: &'static str)
        ensures
            *self == EncodeError::ConsentDenied ==> r@ == "You must agree to The Creed to continue"@,
    {
        match self {
            EncodeError::ConsentDenied => "You must agree to The Creed to continue",
            EncodeError::CollaboratorFailure => "record store access failed",
            EncodeError::UnresolvableTriplet => "triplet has no resolvable focus word",
            EncodeError::DegenerateGeometry => "degenerate geometry",
        }
    }
}

/// Fixed build identifier.
pub fn version() -> (r: &'static str)
    ensures
        r@ == "19.07.23 (Codename Ama)"@,
{
    "19.07.23 (Codename Ama)"
}

} // verus!
