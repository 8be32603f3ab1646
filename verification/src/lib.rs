//! A Groth16 proving pipeline over a small FFT-friendly scalar field.
//!
//! The crate turns a satisfied rank-1 constraint system witness into a
//! succinct proof: circuit synthesis fills a `ProvingAssignment`, the
//! polynomial engine derives the quotient polynomial H on a coset, the
//! multi-scalar-multiplication engine folds bases and scalars into group
//! sums, and the proof assembler combines those sums with verifying-key
//! constants and the blinding randomizers.

pub mod density;
pub mod domain;
pub mod field;
pub mod group;
pub mod lc;
pub mod multiexp;
pub mod prover;
pub mod source;
pub mod worker;

use vstd::prelude::*;
use crate::group::{Curve, G1, G2};

verus! {

/// Every way a proving call can fail. A call yields exactly a valid
/// proof or one of these; nothing partial is ever observable.
#[derive(Clone, Copy, PartialEq, Eq, Structural, Debug)]
pub enum SynthesisError {
    /// A witness-value callback failed during synthesis.
    AssignmentError,
    /// The constraint count exceeds the largest supported domain.
    EvaluationDomainSizeError,
    /// The parameter source could not satisfy a requested length.
    SourceExhausted,
    /// The verifying-key delta is the group identity: a compromised
    /// trusted setup, refused before any multiexp work is spent.
    UnexpectedIdentity,
    /// An internal length mismatch between bases, scalars and density.
    IndexOutOfBounds,
    /// A field inversion failed.
    DivisionByZero,
}

/// The succinct proof: two elements of the first pairing group and one
/// of the second.
#[derive(Clone, Copy, PartialEq, Eq, Structural, Debug)]
pub struct Proof {
    pub a: G1,
    pub b: G2,
    pub c: G1,
}

impl Proof {
    pub open spec fn wf(&self) -> bool {
        self.a.wf() && self.b.wf() && self.c.wf()
    }
}

} // verus!
