//! The polynomial engine: evaluation domains and coset transforms.
//!
//! An `EvaluationDomain` holds a power-of-two-sized vector of field
//! elements, together with the domain's primitive root of unity and the
//! inverses the transforms need. The transforms are specified — and the
//! code proved — against a direct discrete-Fourier-style reference:
//! position `i` of a transform is the polynomial evaluated at the `i`-th
//! power of the root. The quotient-polynomial derivation composes these
//! transforms on a multiplicative coset, where the vanishing polynomial
//! is a single nonzero constant.

use vstd::prelude::*;
use vstd::arithmetic::div_mod::{lemma_add_mod_noop_right, lemma_mod_bound, lemma_mul_mod_noop_right, lemma_small_mod};
use vstd::arithmetic::power::pow;
use vstd::arithmetic::power2::{lemma2_to64, lemma_pow2_adds, lemma_pow2_pos, lemma_pow2_strictly_increases, pow2};
use crate::field::{field_inv, modulus, pow_mod, Fr, GENERATOR, MODULUS};
use crate::worker::Worker;
use crate::SynthesisError;

verus! {

/// A per-constraint evaluation carried through the engine.
#[derive(Clone, Copy, PartialEq, Eq, Structural, Debug)]
pub struct Scalar(pub Fr);

/// The integer values of a sequence of scalars.
pub open spec fn vals(s: Seq<Scalar>) -> Seq<int> {
    s.map_values(|sc: Scalar| sc.0.v())
}

pub open spec fn all_scalars_wf(s: Seq<Scalar>) -> bool {
    forall|k: int| 0 <= k < s.len() ==> (#[trigger] s[k]).0.wf()
}

/// Horner evaluation of a coefficient vector at a point, reduced at
/// every step.
pub open spec fn poly_eval(v: Seq<int>, x: int) -> int
    decreases v.len(),
{
    if v.len() == 0 {
        0
    } else {
        (v[0] + x * poly_eval(v.subrange(1, v.len() as int), x)) % modulus()
    }
}

/// The reference transform: evaluate the coefficients at every power of
/// the root `w`.
pub open spec fn dft_spec(v: Seq<int>, w: int) -> Seq<int> {
    Seq::new(v.len(), |i: int| poly_eval(v, pow_mod(w, i as nat)))
}

/// Pointwise scaling by a constant.
pub open spec fn scale_spec(v: Seq<int>, c: int) -> Seq<int> {
    Seq::new(v.len(), |i: int| (c * v[i]) % modulus())
}

/// Multiply position `i` by the `i`-th power of `g`: moves a polynomial
/// onto (or back from) the coset `g`·H.
pub open spec fn distribute_spec(v: Seq<int>, g: int) -> Seq<int> {
    Seq::new(v.len(), |i: int| (v[i] * pow_mod(g, i as nat)) % modulus())
}

/// The inverse transform: forward transform at the inverse root, scaled
/// by the inverse of the domain size.
pub open spec fn idft_spec(v: Seq<int>, winv: int, minv: int) -> Seq<int> {
    scale_spec(dft_spec(v, winv), minv)
}

/// The smallest exponent e with 2^e >= target.
pub open spec fn domain_exp(target: nat) -> nat
    decreases target,
{
    if target <= 1 {
        0
    } else {
        1 + domain_exp(((target + 1) / 2) as nat)
    }
}

/// `domain_exp` names the least sufficient power of two.
pub proof fn lemma_domain_exp(target: nat)
    ensures
        pow2(domain_exp(target)) >= target,
        domain_exp(target) == 0 || pow2((domain_exp(target) - 1) as nat) < target,
    decreases target,
{
    lemma2_to64();
    if target > 1 {
        let c = ((target + 1) / 2) as nat;
        lemma_domain_exp(c);
        let e = domain_exp(c);
        lemma_pow2_adds(e, 1);
        lemma2_to64();
        assert(pow2(e + 1) == pow2(e) * 2);
        assert(pow2(e) * 2 >= c * 2);
        assert(c * 2 >= target);
        if e > 0 {
            lemma_pow2_adds((e - 1) as nat, 1);
            assert(pow2(e) == pow2((e - 1) as nat) * 2);
            assert(pow2((e - 1) as nat) <= c - 1);
            assert(pow2(e) <= c * 2 - 2);
            assert(c * 2 <= target + 1);
        }
    }
}

/// Any exponent that is both sufficient and minimal is `domain_exp`.
pub proof fn lemma_domain_exp_unique(target: nat, e: nat)
    requires
        pow2(e) >= target,
        e == 0 || pow2((e - 1) as nat) < target,
    ensures
        e == domain_exp(target),
{
    lemma_domain_exp(target);
    let d = domain_exp(target);
    if e < d {
        lemma_pow2_increases_helper(e, (d - 1) as nat);
    }
    if d < e {
        lemma_pow2_increases_helper(d, (e - 1) as nat);
    }
}

proof fn lemma_pow2_increases_helper(a: nat, b: nat)
    requires
        a <= b,
    ensures
        pow2(a) <= pow2(b),
{
    if a < b {
        lemma_pow2_strictly_increases(a, b);
    }
}

/// The vanishing polynomial of the domain, evaluated on the coset: a
/// single constant, `g^m - 1`.
pub open spec fn z_on_coset(exp: nat) -> int {
    (pow_mod(GENERATOR as int, pow2(exp)) - 1) % modulus()
}

/// The root of unity the domain of size 2^exp uses.
pub open spec fn domain_omega(exp: nat) -> int {
    pow_mod(GENERATOR as int, ((MODULUS - 1) as nat / pow2(exp)) as nat)
}

/// Whether every constant the transforms divide by has a Fermat inverse.
/// For this prime field that is a fact of number theory; the code checks
/// it at run time, which is what these products express.
pub open spec fn domain_invertible(exp: nat) -> bool {
    &&& (field_inv(domain_omega(exp)) * domain_omega(exp)) % modulus() == 1
    &&& (field_inv(pow2(exp) as int) * (pow2(exp) as int)) % modulus() == 1
    &&& (field_inv(GENERATOR as int) * (GENERATOR as int)) % modulus() == 1
}

/// A power-of-two-sized vector of field elements tagged with the domain
/// constants the transforms need.
pub struct EvaluationDomain {
    pub coeffs: Vec<Scalar>,
    pub exp: u32,
    pub omega: Fr,
    pub omegainv: Fr,
    pub minv: Fr,
    pub geninv: Fr,
}

impl EvaluationDomain {
    pub open spec fn wf(&self) -> bool {
        &&& self.exp <= 27
        &&& self.coeffs@.len() == pow2(self.exp as nat)
        &&& all_scalars_wf(self.coeffs@)
        &&& self.omega.wf() && self.omegainv.wf() && self.minv.wf() && self.geninv.wf()
        &&& self.omega.v() == domain_omega(self.exp as nat)
        &&& self.omegainv.v() == field_inv(self.omega.v())
        &&& self.minv.v() == field_inv(pow2(self.exp as nat) as int)
        &&& self.geninv.v() == field_inv(GENERATOR as int)
        &&& domain_invertible(self.exp as nat)
    }

    pub fn size(&self) -> (r: usize)
        ensures
            r == self.coeffs@.len(),
    {
        self.coeffs.len()
    }

    /// Build the domain of the smallest power-of-two size that exceeds
    /// the number of evaluations, padding with zeros. An empty vector
    /// gets the one-element domain.
    pub fn from_coeffs(coeffs: Vec<Scalar>) -> (r: Result<EvaluationDomain, SynthesisError>)
        requires
            all_scalars_wf(coeffs@),
        ensures
            coeffs@.len() + 1 > pow2(27) ==> r == Err::<EvaluationDomain, SynthesisError>(
                SynthesisError::EvaluationDomainSizeError,
            ),
            coeffs@.len() + 1 <= pow2(27) && !domain_invertible(
                domain_exp((coeffs@.len() + 1) as nat),
            ) ==> r == Err::<EvaluationDomain, SynthesisError>(SynthesisError::DivisionByZero),
            coeffs@.len() + 1 <= pow2(27) && domain_invertible(
                domain_exp((coeffs@.len() + 1) as nat),
            ) ==> (r matches Ok(d) && d.wf() && d.exp as nat == domain_exp(
                (coeffs@.len() + 1) as nat,
            ) && d.coeffs@.len() >= coeffs@.len() && vals(d.coeffs@) =~= vals(coeffs@).add(
                Seq::new((d.coeffs@.len() - coeffs@.len()) as nat, |i: int| 0int),
            )),
    {
        let target = coeffs.len();
        proof {
            lemma2_to64();
        }
        if target >= 0x8000000 {
            return Err(SynthesisError::EvaluationDomainSizeError);
        }
        let mut m: usize = 1;
        let mut exp: u32 = 0;
        while m < target + 1
            invariant
                target == coeffs@.len(),
                target < 0x8000000,
                exp <= 27,
                m == pow2(exp as nat),
                m <= 0x8000000,
                exp == 0 || pow2((exp - 1) as nat) < target + 1,
            decreases 0x8000000int - m,
        {
            proof {
                lemma2_to64();
                if exp >= 27 {
                    lemma_pow2_increases_helper(27, exp as nat);
                    assert(false);
                }
                lemma_pow2_adds(exp as nat, 1);
                lemma_pow2_monotone_27(exp as nat);
            }
            m = m * 2;
            exp = exp + 1;
        }
        proof {
            lemma_domain_exp_unique((target + 1) as nat, exp as nat);
        }

        // The primitive 2^exp-th root: the full group generator raised to
        // the cofactor.
        let cofactor = (MODULUS - 1) / (m as u64);
        let omega = Fr::from_u64(GENERATOR).pow(cofactor);
        proof {
            lemma_small_mod(GENERATOR as nat, MODULUS as nat);
            assert(omega.v() == domain_omega(exp as nat));
        }
        let omegainv = match omega.inverse() {
            Some(x) => x,
            None => {
                return Err(SynthesisError::DivisionByZero);
            },
        };
        let minv = match Fr::from_u64(m as u64).inverse() {
            Some(x) => x,
            None => {
                return Err(SynthesisError::DivisionByZero);
            },
        };
        let geninv = match Fr::from_u64(GENERATOR).inverse() {
            Some(x) => x,
            None => {
                return Err(SynthesisError::DivisionByZero);
            },
        };
        proof {
            lemma_small_mod(m as nat, MODULUS as nat);
        }

        let mut coeffs = coeffs;
        let ghost orig = coeffs@;
        while coeffs.len() < m
            invariant
                coeffs@.len() <= m,
                coeffs@.len() >= orig.len(),
                forall|k: int| 0 <= k < orig.len() ==> coeffs@[k] == orig[k],
                forall|k: int| orig.len() <= k < coeffs@.len() ==> (#[trigger] coeffs@[k]).0.v() == 0
                    && coeffs@[k].0.wf(),
                all_scalars_wf(orig),
            decreases m - coeffs@.len(),
        {
            coeffs.push(Scalar(Fr { repr: 0 }));
        }
        proof {
            assert forall|k: int| 0 <= k < coeffs@.len() implies (#[trigger] coeffs@[k]).0.wf() by {
                if k < orig.len() {
                    assert(coeffs@[k] == orig[k]);
                    assert(orig[k].0.wf());
                }
            }
            assert(all_scalars_wf(coeffs@));
            assert(vals(coeffs@) =~= vals(orig).add(
                Seq::new((coeffs@.len() - orig.len()) as nat, |i: int| 0int),
            ));
        }
        Ok(EvaluationDomain { coeffs, exp, omega, omegainv, minv, geninv })
    }

    /// Evaluate: coefficients become point-values on the domain.
    pub fn fft(&mut self, worker: &Worker)
        requires
            old(self).wf(),
            worker.wf(),
        ensures
            final(self).wf(),
            final(self).exp == old(self).exp,
            vals(final(self).coeffs@) =~= dft_spec(vals(old(self).coeffs@), old(self).omega.v()),
    {
        let transformed = dft(&self.coeffs, self.omega, worker);
        self.coeffs = transformed;
    }

    /// Interpolate: point-values on the domain become coefficients.
    pub fn ifft(&mut self, worker: &Worker)
        requires
            old(self).wf(),
            worker.wf(),
        ensures
            final(self).wf(),
            final(self).exp == old(self).exp,
            vals(final(self).coeffs@) =~= idft_spec(
                vals(old(self).coeffs@),
                old(self).omegainv.v(),
                old(self).minv.v(),
            ),
    {
        let transformed = dft(&self.coeffs, self.omegainv, worker);
        self.coeffs = transformed;
        let minv = self.minv;
        scale_in_place(&mut self.coeffs, minv, worker);
    }

    /// Evaluate on the coset g·H.
    pub fn coset_fft(&mut self, worker: &Worker)
        requires
            old(self).wf(),
            worker.wf(),
        ensures
            final(self).wf(),
            final(self).exp == old(self).exp,
            vals(final(self).coeffs@) =~= dft_spec(
                distribute_spec(vals(old(self).coeffs@), GENERATOR as int),
                old(self).omega.v(),
            ),
    {
        let g = Fr::from_u64(GENERATOR);
        proof {
            lemma_small_mod(GENERATOR as nat, MODULUS as nat);
        }
        distribute_powers(&mut self.coeffs, g, worker);
        let transformed = dft(&self.coeffs, self.omega, worker);
        self.coeffs = transformed;
    }

    /// Interpolate back from the coset g·H.
    pub fn icoset_fft(&mut self, worker: &Worker)
        requires
            old(self).wf(),
            worker.wf(),
        ensures
            final(self).wf(),
            final(self).exp == old(self).exp,
            vals(final(self).coeffs@) =~= distribute_spec(
                idft_spec(vals(old(self).coeffs@), old(self).omegainv.v(), old(self).minv.v()),
                old(self).geninv.v(),
            ),
    {
        self.ifft(worker);
        let gi = self.geninv;
        distribute_powers(&mut self.coeffs, gi, worker);
    }

    /// Pointwise product with another domain of the same size.
    pub fn mul_assign(&mut self, worker: &Worker, other: &EvaluationDomain)
        requires
            old(self).wf(),
            other.wf(),
            worker.wf(),
            old(self).coeffs@.len() == other.coeffs@.len(),
        ensures
            final(self).wf(),
            final(self).exp == old(self).exp,
            vals(final(self).coeffs@) =~= Seq::new(
                vals(old(self).coeffs@).len(),
                |i: int| (vals(old(self).coeffs@)[i] * vals(other.coeffs@)[i]) % modulus(),
            ),
    {
        let n = self.coeffs.len();
        let mut i: usize = 0;
        while i < n
            invariant
                old(self).wf(),
                self.exp == old(self).exp,
                self.omega == old(self).omega,
                self.omegainv == old(self).omegainv,
                self.minv == old(self).minv,
                self.geninv == old(self).geninv,
                n == self.coeffs@.len() == other.coeffs@.len() == old(self).coeffs@.len(),
                i <= n,
                all_scalars_wf(self.coeffs@),
                all_scalars_wf(other.coeffs@),
                forall|k: int| i <= k < n ==> self.coeffs@[k] == old(self).coeffs@[k],
                forall|k: int|
                    0 <= k < i ==> (#[trigger] self.coeffs@[k]).0.wf() && self.coeffs@[k].0.v() == (
                    vals(old(self).coeffs@)[k] * vals(other.coeffs@)[k]) % modulus(),
            decreases n - i,
        {
            let prod = self.coeffs[i].0.mul(other.coeffs[i].0);
            self.coeffs.set(i, Scalar(prod));
            i = i + 1;
        }
    }

    /// Pointwise difference with another domain of the same size.
    pub fn sub_assign(&mut self, worker: &Worker, other: &EvaluationDomain)
        requires
            old(self).wf(),
            other.wf(),
            worker.wf(),
            old(self).coeffs@.len() == other.coeffs@.len(),
        ensures
            final(self).wf(),
            final(self).exp == old(self).exp,
            vals(final(self).coeffs@) =~= Seq::new(
                vals(old(self).coeffs@).len(),
                |i: int| (vals(old(self).coeffs@)[i] - vals(other.coeffs@)[i]) % modulus(),
            ),
    {
        let n = self.coeffs.len();
        let mut i: usize = 0;
        while i < n
            invariant
                old(self).wf(),
                self.exp == old(self).exp,
                self.omega == old(self).omega,
                self.omegainv == old(self).omegainv,
                self.minv == old(self).minv,
                self.geninv == old(self).geninv,
                n == self.coeffs@.len() == other.coeffs@.len() == old(self).coeffs@.len(),
                i <= n,
                all_scalars_wf(self.coeffs@),
                all_scalars_wf(other.coeffs@),
                forall|k: int| i <= k < n ==> self.coeffs@[k] == old(self).coeffs@[k],
                forall|k: int|
                    0 <= k < i ==> (#[trigger] self.coeffs@[k]).0.wf() && self.coeffs@[k].0.v() == (
                    vals(old(self).coeffs@)[k] - vals(other.coeffs@)[k]) % modulus(),
            decreases n - i,
        {
            let diff = self.coeffs[i].0.sub(other.coeffs[i].0);
            self.coeffs.set(i, Scalar(diff));
            i = i + 1;
        }
    }

    /// Divide every point-value by the vanishing polynomial of the
    /// domain, which on the coset is the single constant g^m - 1.
    pub fn divide_by_z_on_coset(&mut self, worker: &Worker) -> (r: Result<(), SynthesisError>)
        requires
            old(self).wf(),
            worker.wf(),
        ensures
            final(self).exp == old(self).exp,
            (field_inv(z_on_coset(old(self).exp as nat)) * z_on_coset(old(self).exp as nat))
                % modulus() != 1 ==> r == Err::<(), SynthesisError>(SynthesisError::DivisionByZero)
                && *final(self) == *old(self),
            (field_inv(z_on_coset(old(self).exp as nat)) * z_on_coset(old(self).exp as nat))
                % modulus() == 1 ==> r == Ok::<(), SynthesisError>(()) && final(self).wf() && vals(
                final(self).coeffs@,
            ) =~= scale_spec(vals(old(self).coeffs@), field_inv(z_on_coset(old(self).exp as nat))),
    {
        let m = self.coeffs.len();
        proof {
            lemma_small_mod(GENERATOR as nat, MODULUS as nat);
        }
        let z = Fr::from_u64(GENERATOR).pow(m as u64).sub(Fr { repr: 1 });
        assert(z.v() == z_on_coset(self.exp as nat));
        let zinv = match z.inverse() {
            None => {
                return Err(SynthesisError::DivisionByZero);
            },
            Some(x) => x,
        };
        scale_in_place(&mut self.coeffs, zinv, worker);
        Ok(())
    }

    /// Tear the domain down into its underlying vector.
    pub fn into_coeffs(self) -> (r: Vec<Scalar>)
        ensures
            r@ == self.coeffs@,
    {
        self.coeffs
    }
}

proof fn lemma_pow2_monotone_27(e: nat)
    requires
        e < 27,
    ensures
        pow2(e + 1) <= pow2(27),
{
    lemma_pow2_increases_helper(e + 1, 27);
}

/// Evaluate the coefficients at one point by Horner's rule.
fn eval_at(v: &Vec<Scalar>, x: Fr) -> (r: Fr)
    requires
        all_scalars_wf(v@),
        x.wf(),
    ensures
        r.wf(),
        r.v() == poly_eval(vals(v@), x.v()),
{
    let mut acc = Fr { repr: 0 };
    let mut k = v.len();
    proof {
        assert(vals(v@).subrange(k as int, vals(v@).len() as int) =~= Seq::<int>::empty());
    }
    while k > 0
        invariant
            all_scalars_wf(v@),
            x.wf(),
            k <= v@.len(),
            acc.wf(),
            acc.v() == poly_eval(vals(v@).subrange(k as int, vals(v@).len() as int), x.v()),
        decreases k,
    {
        k = k - 1;
        let t = x.mul(acc);
        let ghost tail = vals(v@).subrange(k as int + 1, vals(v@).len() as int);
        let ghost cur = vals(v@).subrange(k as int, vals(v@).len() as int);
        acc = v[k].0.add(t);
        proof {
            assert(cur[0] == vals(v@)[k as int]);
            assert(cur.subrange(1, cur.len() as int) =~= tail);
            lemma_add_mod_noop_right(
                vals(v@)[k as int],
                x.v() * poly_eval(tail, x.v()),
                modulus(),
            );
        }
    }
    proof {
        assert(vals(v@).subrange(0, vals(v@).len() as int) =~= vals(v@));
    }
    acc
}

/// The forward reference transform, one output point per power of `w`.
fn dft(v: &Vec<Scalar>, w: Fr, worker: &Worker) -> (r: Vec<Scalar>)
    requires
        all_scalars_wf(v@),
        w.wf(),
        worker.wf(),
    ensures
        all_scalars_wf(r@),
        vals(r@) =~= dft_spec(vals(v@), w.v()),
{
    let n = v.len();
    let mut out: Vec<Scalar> = Vec::new();
    let mut xi = Fr { repr: 1 };
    let mut i: usize = 0;
    proof {
        vstd::arithmetic::power::lemma_pow0(w.v());
        lemma_small_mod(1nat, MODULUS as nat);
    }
    while i < n
        invariant
            all_scalars_wf(v@),
            w.wf(),
            n == v@.len(),
            i <= n,
            out@.len() == i,
            xi.wf(),
            xi.v() == pow_mod(w.v(), i as nat),
            forall|k: int|
                0 <= k < i ==> (#[trigger] out@[k]).0.wf() && out@[k].0.v() == poly_eval(
                    vals(v@),
                    pow_mod(w.v(), k as nat),
                ),
        decreases n - i,
    {
        let y = eval_at(v, xi);
        out.push(Scalar(y));
        proof {
            lemma_pow_mod_step(w.v(), i as nat);
        }
        xi = xi.mul(w);
        i = i + 1;
    }
    out
}

/// Raising the exponent by one multiplies one more base in.
proof fn lemma_pow_mod_step(b: int, e: nat)
    ensures
        pow_mod(b, e + 1) == (pow_mod(b, e) * b) % modulus(),
{
    let m = modulus();
    let p = pow(b, e);
    vstd::arithmetic::power::lemma_pow_adds(b, e, 1);
    vstd::arithmetic::power::lemma_pow1(b);
    assert(pow(b, (e + 1) as nat) == p * b);
    lemma_mul_mod_noop_right(b, p, m);
    assert((b * (p % m)) % m == (b * p) % m);
    assert(pow_mod(b, e) == p % m);
    vstd::arithmetic::mul::lemma_mul_is_commutative(p % m, b);
    vstd::arithmetic::mul::lemma_mul_is_commutative(p, b);
    assert(pow_mod(b, e + 1) == (p * b) % m);
}

/// Multiply every element by the constant `c`.
fn scale_in_place(v: &mut Vec<Scalar>, c: Fr, worker: &Worker)
    requires
        all_scalars_wf(old(v)@),
        c.wf(),
        worker.wf(),
    ensures
        all_scalars_wf(final(v)@),
        vals(final(v)@) =~= scale_spec(vals(old(v)@), c.v()),
{
    let n = v.len();
    let mut i: usize = 0;
    while i < n
        invariant
            n == v@.len() == old(v)@.len(),
            c.wf(),
            i <= n,
            all_scalars_wf(v@),
            forall|k: int| i <= k < n ==> v@[k] == old(v)@[k],
            forall|k: int|
                0 <= k < i ==> (#[trigger] v@[k]).0.wf() && v@[k].0.v() == (c.v() * vals(old(v)@)[k])
                    % modulus(),
        decreases n - i,
    {
        let s = c.mul(v[i].0);
        v.set(i, Scalar(s));
        i = i + 1;
    }
}

/// Multiply position `i` by the `i`-th power of `g`.
fn distribute_powers(v: &mut Vec<Scalar>, g: Fr, worker: &Worker)
    requires
        all_scalars_wf(old(v)@),
        g.wf(),
        worker.wf(),
    ensures
        all_scalars_wf(final(v)@),
        vals(final(v)@) =~= distribute_spec(vals(old(v)@), g.v()),
{
    let n = v.len();
    let mut i: usize = 0;
    let mut gi = Fr { repr: 1 };
    proof {
        vstd::arithmetic::power::lemma_pow0(g.v());
        lemma_small_mod(1nat, MODULUS as nat);
    }
    while i < n
        invariant
            n == v@.len() == old(v)@.len(),
            g.wf(),
            i <= n,
            gi.wf(),
            gi.v() == pow_mod(g.v(), i as nat),
            all_scalars_wf(v@),
            forall|k: int| i <= k < n ==> v@[k] == old(v)@[k],
            forall|k: int|
                0 <= k < i ==> (#[trigger] v@[k]).0.wf() && v@[k].0.v() == (vals(old(v)@)[k]
                    * pow_mod(g.v(), k as nat)) % modulus(),
        decreases n - i,
    {
        let s = v[i].0.mul(gi);
        v.set(i, Scalar(s));
        proof {
            lemma_pow_mod_step(g.v(), i as nat);
        }
        gi = gi.mul(g);
        i = i + 1;
    }
}

} // verus!
