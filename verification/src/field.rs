//! The prime scalar field that every component computes in.
//!
//! The modulus is 15 * 2^27 + 1, so the multiplicative group contains a
//! subgroup of order 2^k for every k up to 27; that is what lets the
//! polynomial engine evaluate and interpolate on power-of-two domains.

use vstd::prelude::*;
use vstd::calc;
use vstd::arithmetic::div_mod::{
    lemma_fundamental_div_mod_converse_mod, lemma_mod_add_multiples_vanish, lemma_mod_bound,
};
use vstd::arithmetic::mul::lemma_mul_strict_upper_bound;
use vstd::arithmetic::power::{lemma_pow_adds, lemma_pow_multiplies, lemma_pow_mod_noop, pow};

verus! {

/// The field modulus: 15 * 2^27 + 1, a prime.
pub const MODULUS: u64 = 2013265921;

/// log2 of the largest power-of-two subgroup of the multiplicative group.
pub const TWO_ADICITY: u32 = 27;

/// A generator of the whole multiplicative group of the field.
pub const GENERATOR: u64 = 31;

/// The modulus as a spec-level integer.
pub open spec fn modulus() -> int {
    MODULUS as int
}

/// A field element, kept reduced: the canonical representative in [0, MODULUS).
#[derive(Clone, Copy, PartialEq, Eq, Structural, Debug)]
pub struct Fr {
    pub repr: u64,
}

/// b^e mod MODULUS, the reference meaning of exponentiation in the field.
pub open spec fn pow_mod(b: int, e: nat) -> int {
    pow(b, e) % modulus()
}

/// The multiplicative inverse candidate given by Fermat's little theorem.
pub open spec fn field_inv(x: int) -> int {
    pow_mod(x, (MODULUS - 2) as nat)
}

impl Fr {
    /// A field element is well-formed when its representative is reduced.
    pub open spec fn wf(&self) -> bool {
        self.repr < MODULUS
    }

    /// The value of the element as a mathematical integer.
    pub open spec fn v(&self) -> int {
        self.repr as int
    }

    pub fn zero() -> (r: Fr)
        ensures
            r.wf(),
            r.v() == 0,
    {
        Fr { repr: 0 }
    }

    pub fn one() -> (r: Fr)
        ensures
            r.wf(),
            r.v() == 1,
    {
        Fr { repr: 1 }
    }

    /// Reduce an arbitrary machine integer into the field.
    pub fn from_u64(x: u64) -> (r: Fr)
        ensures
            r.wf(),
            r.v() == x as int % modulus(),
    {
        Fr { repr: x % MODULUS }
    }

    pub fn is_zero(&self) -> (r: bool)
        ensures
            r == (self.v() == 0),
    {
        self.repr == 0
    }

    pub fn add(self, other: Fr) -> (r: Fr)
        requires
            self.wf(),
            other.wf(),
        ensures
            r.wf(),
            r.v() == (self.v() + other.v()) % modulus(),
    {
        let s = self.repr + other.repr;
        let out = if s >= MODULUS {
            s - MODULUS
        } else {
            s
        };
        proof {
            if s >= MODULUS {
                lemma_fundamental_div_mod_converse_mod(s as int, modulus(), 1, s - MODULUS);
            } else {
                lemma_fundamental_div_mod_converse_mod(s as int, modulus(), 0, s as int);
            }
        }
        Fr { repr: out }
    }

    pub fn sub(self, other: Fr) -> (r: Fr)
        requires
            self.wf(),
            other.wf(),
        ensures
            r.wf(),
            r.v() == (self.v() - other.v()) % modulus(),
    {
        let s = self.repr + MODULUS - other.repr;
        let out = if s >= MODULUS {
            s - MODULUS
        } else {
            s
        };
        proof {
            lemma_mod_add_multiples_vanish(self.v() - other.v(), modulus());
            if s >= MODULUS {
                lemma_fundamental_div_mod_converse_mod(s as int, modulus(), 1, s - MODULUS);
            } else {
                lemma_fundamental_div_mod_converse_mod(s as int, modulus(), 0, s as int);
            }
        }
        Fr { repr: out }
    }

    pub fn neg(self) -> (r: Fr)
        requires
            self.wf(),
        ensures
            r.wf(),
            r.v() == (0 - self.v()) % modulus(),
    {
        Fr::zero().sub(self)
    }

    pub fn mul(self, other: Fr) -> (r: Fr)
        requires
            self.wf(),
            other.wf(),
        ensures
            r.wf(),
            r.v() == (self.v() * other.v()) % modulus(),
    {
        proof {
            assert(self.v() * other.v() < modulus() * modulus()) by (nonlinear_arith)
                requires
                    0 <= self.v() < modulus(),
                    0 <= other.v() < modulus(),
            ;
        }
        let p = self.repr * other.repr;
        Fr { repr: p % MODULUS }
    }

    /// Exponentiation by square-and-multiply over the 64 bits of `e`.
    pub fn pow(self, e: u64) -> (r: Fr)
        requires
            self.wf(),
        ensures
            r.wf(),
            r.v() == pow_mod(self.v(), e as nat),
    {
        let mut result = Fr::one();
        let mut base = self;
        let mut exp = e;
        proof {
            lemma_mod_bound(pow(self.v(), e as nat), modulus());
            vstd::arithmetic::div_mod::lemma_small_mod(
                pow_mod(self.v(), e as nat) as nat,
                MODULUS as nat,
            );
        }
        while exp > 0
            invariant
                result.wf(),
                base.wf(),
                (result.v() * pow_mod(base.v(), exp as nat)) % modulus() == pow_mod(
                    self.v(),
                    e as nat,
                ),
            decreases exp,
        {
            let odd = exp & 1 == 1;
            proof {
                assert((exp & 1 == 1) == (exp % 2 == 1)) by (bit_vector);
            }
            if odd {
                proof {
                    lemma_pow_mod_step_odd(result.v(), base.v(), exp as nat);
                }
                result = result.mul(base);
                exp = exp - 1;
            }
            proof {
                vstd::arithmetic::div_mod::lemma_fundamental_div_mod(exp as int, 2);
            }
            if exp > 0 {
                proof {
                    lemma_pow_mod_step_even(result.v(), base.v(), exp as nat);
                }
                base = base.mul(base);
                exp = exp / 2;
            }
        }
        proof {
            vstd::arithmetic::power::lemma_pow0(base.v());
            vstd::arithmetic::div_mod::lemma_small_mod(1nat, MODULUS as nat);
            assert(pow_mod(base.v(), 0) == 1);
            assert((result.v() * pow_mod(base.v(), 0)) % modulus() == result.v() % modulus());
            vstd::arithmetic::div_mod::lemma_small_mod(result.v() as nat, MODULUS as nat);
            assert(result.v() % modulus() == result.v());
        }
        result
    }

    /// The multiplicative inverse, when the Fermat candidate checks out.
    ///
    /// For every nonzero element of this prime field the candidate does
    /// invert it; the run-time check turns that number-theoretic fact into
    /// a proved postcondition.
    pub fn inverse(self) -> (r: Option<Fr>)
        requires
            self.wf(),
        ensures
            r == if (field_inv(self.v()) * self.v()) % modulus() == 1 {
                Some(Fr { repr: field_inv(self.v()) as u64 })
            } else {
                None::<Fr>
            },
            r matches Some(i) ==> i.wf() && (i.v() * self.v()) % modulus() == 1,
    {
        let cand = self.pow(MODULUS - 2);
        proof {
            lemma_mod_bound(pow(self.v(), (MODULUS - 2) as nat), modulus());
        }
        let check = cand.mul(self);
        if check.repr == 1 {
            Some(cand)
        } else {
            None
        }
    }
}

/// Peeling one factor off an odd exponent under the modulus.
proof fn lemma_pow_mod_step_odd(r: int, b: int, e: nat)
    requires
        0 <= r < modulus(),
        0 <= b < modulus(),
        e >= 1,
    ensures
        ((r * b) % modulus() * pow_mod(b, (e - 1) as nat)) % modulus() == (r * pow_mod(b, e))
            % modulus(),
{
    let m = modulus();
    lemma_pow_adds(b, 1nat, (e - 1) as nat);
    vstd::arithmetic::power::lemma_pow1(b);
    assert(pow(b, e) == b * pow(b, (e - 1) as nat));
    let pe1 = pow(b, (e - 1) as nat);
    calc! {
        (==)
        ((r * b) % m * pow_mod(b, (e - 1) as nat)) % m; {
            vstd::arithmetic::div_mod::lemma_mul_mod_noop_general(r * b, pe1, m);
        }
        (r * b * pe1) % m; {
            vstd::arithmetic::mul::lemma_mul_is_associative(r, b, pe1);
        }
        (r * (b * pe1)) % m; {
            vstd::arithmetic::div_mod::lemma_mul_mod_noop_right(r, b * pe1, m);
        }
        (r * ((b * pe1) % m)) % m; {}
        (r * pow_mod(b, e)) % m;
    }
}

/// Squaring the base halves an even exponent under the modulus.
proof fn lemma_pow_mod_step_even(r: int, b: int, e: nat)
    requires
        0 <= r < modulus(),
        0 <= b < modulus(),
        e % 2 == 0,
    ensures
        (r * pow_mod((b * b) % modulus(), (e / 2) as nat)) % modulus() == (r * pow_mod(b, e))
            % modulus(),
{
    let m = modulus();
    lemma_pow_multiplies(b, 2nat, (e / 2) as nat);
    vstd::arithmetic::power::lemma_square_is_pow2(b);
    assert(pow(b, e) == pow(b * b, (e / 2) as nat));
    lemma_pow_mod_noop(b * b, (e / 2) as nat, m);
    let x = pow(b * b, (e / 2) as nat);
    vstd::arithmetic::div_mod::lemma_mul_mod_noop_right(r, x, m);
    assert((r * pow_mod((b * b) % m, (e / 2) as nat)) % m == (r * (x % m)) % m);
    assert((r * (x % m)) % m == (r * x) % m);
}

} // verus!
