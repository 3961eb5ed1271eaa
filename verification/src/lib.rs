//! A proof-carrying relational expression and query-plan evaluator.
//!
//! A prover evaluates a typed query plan over committed columnar data and
//! produces both the plaintext result table and a succinct argument; a
//! verifier, holding only column commitments, replays the transcript and
//! the algebraic checks to accept or reject the claimed result.

pub mod column;
pub mod expr;
pub mod plan;
pub mod protocol;
pub mod scaling;
pub mod field;
pub mod hash;
pub mod slice_ops;

use vstd::prelude::*;

verus! {

} // verus!
