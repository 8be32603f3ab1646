//! The two pairing source groups the proof lives in.
//!
//! Group arithmetic itself is an assumed capability of the proof system,
//! not part of what this crate sets out to show; the pipeline only needs
//! a cyclic group of the scalar field's order in additive notation. Each
//! group element is therefore carried as its reduced discrete exponent,
//! and the group law is addition modulo the field order. Everything the
//! prover does with the groups — multi-scalar multiplication, blinding,
//! assembly — is stated and proved over that model.

use vstd::prelude::*;
use crate::field::{modulus, Fr, MODULUS};
use vstd::arithmetic::div_mod::lemma_mod_bound;

verus! {

/// What the proving pipeline needs of a pairing source group.
pub trait Curve: Sized + Copy {
    /// The discrete exponent the element stands for.
    spec fn pt(&self) -> int;

    /// The exponent is kept reduced modulo the group order.
    spec fn wf(&self) -> bool;

    /// A well-formed element's exponent is a reduced residue.
    proof fn wf_facts(&self)
        requires
            self.wf(),
        ensures
            0 <= self.pt() < modulus(),
    ;

    /// The group identity.
    fn zero() -> (r: Self)
        ensures
            r.wf(),
            r.pt() == 0,
    ;

    /// The group law.
    fn add(self, other: Self) -> (r: Self)
        requires
            self.wf(),
            other.wf(),
        ensures
            r.wf(),
            r.pt() == (self.pt() + other.pt()) % modulus(),
    ;

    fn double(self) -> (r: Self)
        requires
            self.wf(),
        ensures
            r.wf(),
            r.pt() == (2 * self.pt()) % modulus(),
    ;

    /// Scalar multiplication by a full-width machine scalar.
    fn mul_u64(self, s: u64) -> (r: Self)
        requires
            self.wf(),
        ensures
            r.wf(),
            r.pt() == (s as int * self.pt()) % modulus(),
    ;

    /// Scalar multiplication by a field element.
    fn mul_fr(self, s: Fr) -> (r: Self)
        requires
            self.wf(),
            s.wf(),
        ensures
            r.wf(),
            r.pt() == (s.v() * self.pt()) % modulus(),
    ;

    /// Whether this is the group identity.
    fn is_zero(&self) -> (r: bool)
        requires
            self.wf(),
        ensures
            r == (self.pt() == 0),
    ;
}

/// An element of the first pairing source group.
#[derive(Clone, Copy, PartialEq, Eq, Structural, Debug)]
pub struct G1 {
    pub e: u64,
}

/// An element of the second pairing source group.
#[derive(Clone, Copy, PartialEq, Eq, Structural, Debug)]
pub struct G2 {
    pub e: u64,
}

impl G1 {
    /// The generator the trusted setup fixes for this group.
    pub fn generator() -> (r: G1)
        ensures
            r.wf(),
            r.pt() == 1,
    {
        G1 { e: 1 }
    }
}

impl G2 {
    /// The generator the trusted setup fixes for this group.
    pub fn generator() -> (r: G2)
        ensures
            r.wf(),
            r.pt() == 1,
    {
        G2 { e: 1 }
    }
}

fn exp_mul_u64(e: u64, s: u64) -> (r: u64)
    requires
        e < MODULUS,
    ensures
        r == (s as int * e as int) % modulus(),
{
    proof {
        vstd::arithmetic::mul::lemma_mul_upper_bound(
            s as int,
            u64::MAX as int,
            e as int,
            (MODULUS - 1) as int,
        );
    }
    let wide = (s as u128) * (e as u128);
    proof {
        lemma_mod_bound(s as int * e as int, modulus());
    }
    (wide % (MODULUS as u128)) as u64
}

impl Curve for G1 {
    open spec fn pt(&self) -> int {
        self.e as int
    }

    open spec fn wf(&self) -> bool {
        self.e < MODULUS
    }

    proof fn wf_facts(&self) {
    }

    fn zero() -> (r: Self) {
        G1 { e: 0 }
    }

    fn add(self, other: Self) -> (r: Self) {
        let f = Fr { repr: self.e }.add(Fr { repr: other.e });
        G1 { e: f.repr }
    }

    fn double(self) -> (r: Self) {
        self.add(self)
    }

    fn mul_u64(self, s: u64) -> (r: Self) {
        G1 { e: exp_mul_u64(self.e, s) }
    }

    fn mul_fr(self, s: Fr) -> (r: Self) {
        self.mul_u64(s.repr)
    }

    fn is_zero(&self) -> (r: bool) {
        self.e == 0
    }
}

impl Curve for G2 {
    open spec fn pt(&self) -> int {
        self.e as int
    }

    open spec fn wf(&self) -> bool {
        self.e < MODULUS
    }

    proof fn wf_facts(&self) {
    }

    fn zero() -> (r: Self) {
        G2 { e: 0 }
    }

    fn add(self, other: Self) -> (r: Self) {
        let f = Fr { repr: self.e }.add(Fr { repr: other.e });
        G2 { e: f.repr }
    }

    fn double(self) -> (r: Self) {
        self.add(self)
    }

    fn mul_u64(self, s: u64) -> (r: Self) {
        G2 { e: exp_mul_u64(self.e, s) }
    }

    fn mul_fr(self, s: Fr) -> (r: Self) {
        self.mul_u64(s.repr)
    }

    fn is_zero(&self) -> (r: bool) {
        self.e == 0
    }
}

} // verus!
