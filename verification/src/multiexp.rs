//! The multi-scalar-multiplication engine.
//!
//! `multiexp` computes the weighted group sum of canonical-integer scalars
//! against a base sequence, restricted by an optional density tracker:
//! positions whose density flag is clear contribute nothing and consume no
//! base. The engine works windowed — scalar bits are cut into 4-bit
//! windows, per-bucket partial sums are accumulated chunk by chunk, and
//! window partials are recombined from most to least significant by
//! repeated doubling — and its postcondition says the result equals the
//! naive sequential double-and-add sum.

use vstd::prelude::*;
use vstd::arithmetic::div_mod::{
    lemma_add_mod_noop, lemma_div_denominator, lemma_fundamental_div_mod, lemma_mod_bound,
    lemma_mul_mod_noop_right, lemma_small_mod,
};
use vstd::arithmetic::mul::{lemma_mul_is_associative, lemma_mul_is_distributive_add_other_way};
use vstd::arithmetic::power2::{lemma2_to64, lemma2_to64_rest, lemma_pow2_adds, lemma_pow2_pos, pow2};
use vstd::bits::{lemma_u64_low_bits_mask_is_mod, lemma_u64_shr_is_div, low_bits_mask};
use crate::density::{count_set, lemma_count_set_bound, DensityTracker};
use crate::field::modulus;
use crate::group::Curve;
use crate::worker::Worker;
use crate::SynthesisError;

verus! {

/// The exponents a sequence of group elements stands for.
pub open spec fn pts<Gp: Curve>(bs: Seq<Gp>) -> Seq<int> {
    bs.map_values(|g: Gp| g.pt())
}

pub open spec fn all_wf<Gp: Curve>(bs: Seq<Gp>) -> bool {
    forall|k: int| 0 <= k < bs.len() ==> (#[trigger] bs[k]).wf()
}

/// The selection a density argument makes over `n` scalar positions.
pub open spec fn sel_of(density: Option<&DensityTracker>, n: int) -> Seq<bool> {
    match density {
        None => Seq::new(n as nat, |i: int| true),
        Some(d) => d@,
    }
}

/// The naive sequential weighted sum over the first `n` positions:
/// every selected position contributes its scalar times the next unused
/// base. This is the reference meaning of a multiexp.
pub open spec fn msm(bases: Seq<int>, scalars: Seq<u64>, sel: Seq<bool>, n: int) -> int
    decreases n,
{
    if n <= 0 {
        0
    } else {
        msm(bases, scalars, sel, n - 1) + if sel[n - 1] {
            scalars[n - 1] as int * bases[count_set(sel, n - 1)]
        } else {
            0int
        }
    }
}

/// Window `j` of a scalar: bits 4j .. 4j+3.
pub open spec fn digit(s: u64, j: nat) -> int {
    (s as int / pow2(4 * j) as int) % 16
}

/// The weighted sum with every scalar shifted right by `4j` bits.
pub open spec fn shifted_msm(bases: Seq<int>, scalars: Seq<u64>, sel: Seq<bool>, j: nat, n: int) -> int
    decreases n,
{
    if n <= 0 {
        0
    } else {
        shifted_msm(bases, scalars, sel, j, n - 1) + if sel[n - 1] {
            (scalars[n - 1] as int / pow2(4 * j) as int) * bases[count_set(sel, n - 1)]
        } else {
            0int
        }
    }
}

/// The weighted sum of window `j` of each scalar over positions [lo, hi).
pub open spec fn digit_msm(
    bases: Seq<int>,
    scalars: Seq<u64>,
    sel: Seq<bool>,
    j: nat,
    lo: int,
    hi: int,
) -> int
    decreases hi - lo,
{
    if hi <= lo {
        0
    } else {
        digit_msm(bases, scalars, sel, j, lo, hi - 1) + if sel[hi - 1] {
            digit(scalars[hi - 1], j) * bases[count_set(sel, hi - 1)]
        } else {
            0int
        }
    }
}

/// The bucket-weighted sum: bucket `t` counts with weight `t + 1`.
pub open spec fn wbsum(bs: Seq<int>, k: int) -> int
    decreases k,
{
    if k <= 0 {
        0
    } else {
        wbsum(bs, k - 1) + k * bs[k - 1]
    }
}

proof fn lemma_wbsum_zero(bs: Seq<int>, k: int)
    requires
        forall|t: int| 0 <= t < bs.len() ==> bs[t] == 0,
        k <= bs.len(),
    ensures
        wbsum(bs, k) == 0,
    decreases k,
{
    if k > 0 {
        lemma_wbsum_zero(bs, k - 1);
    }
}

proof fn lemma_wbsum_update(bs: Seq<int>, k: int, t: int, x: int)
    requires
        0 <= t < bs.len(),
        k <= bs.len(),
    ensures
        t < k ==> wbsum(bs.update(t, x), k) == wbsum(bs, k) + (t + 1) * (x - bs[t]),
        t >= k ==> wbsum(bs.update(t, x), k) == wbsum(bs, k),
    decreases k,
{
    if k > 0 {
        lemma_wbsum_update(bs, k - 1, t, x);
        if t == k - 1 {
            assert(k * x - k * bs[t] == k * (x - bs[t])) by (nonlinear_arith);
        }
    }
}

/// Shifting by all 16 windows empties every 64-bit scalar.
proof fn lemma_shifted_msm_top(bases: Seq<int>, scalars: Seq<u64>, sel: Seq<bool>, n: int)
    requires
        n <= scalars.len(),
    ensures
        shifted_msm(bases, scalars, sel, 16, n) == 0,
    decreases n,
{
    if n > 0 {
        lemma_shifted_msm_top(bases, scalars, sel, n - 1);
        lemma2_to64();
        lemma2_to64_rest();
        assert(pow2(64) == 0x10000000000000000);
        vstd::arithmetic::div_mod::lemma_basic_div(scalars[n - 1] as int, pow2(64) as int);
        assert(scalars[n - 1] as int / pow2(64) as int == 0);
    }
}

/// At window zero the shifted sum is the plain weighted sum.
proof fn lemma_shifted_msm_zero(bases: Seq<int>, scalars: Seq<u64>, sel: Seq<bool>, n: int)
    ensures
        shifted_msm(bases, scalars, sel, 0, n) == msm(bases, scalars, sel, n),
    decreases n,
{
    if n > 0 {
        lemma_shifted_msm_zero(bases, scalars, sel, n - 1);
        lemma2_to64();
        assert(pow2(0) == 1);
        vstd::arithmetic::div_mod::lemma_div_basics(scalars[n - 1] as int);
    }
}

/// One window step: a shifted sum is sixteen times the next shifted sum
/// plus the current window's digit sum.
proof fn lemma_window_step(bases: Seq<int>, scalars: Seq<u64>, sel: Seq<bool>, j: nat, n: int)
    requires
        n <= scalars.len(),
    ensures
        shifted_msm(bases, scalars, sel, j, n) == 16 * shifted_msm(bases, scalars, sel, j + 1, n)
            + digit_msm(bases, scalars, sel, j, 0, n),
    decreases n,
{
    if n <= 0 {
    } else {
        lemma_window_step(bases, scalars, sel, j, n - 1);
        if sel[n - 1] {
            let s = scalars[n - 1] as int;
            let b = bases[count_set(sel, n - 1)];
            let q = s / pow2(4 * j) as int;
            lemma_pow2_pos(4 * j);
            lemma_pow2_adds(4 * j, 4);
            lemma2_to64();
            assert(pow2(4 * j + 4) == pow2(4 * j) * 16);
            lemma_div_denominator(s, pow2(4 * j) as int, 16);
            assert(s / pow2(4 * (j + 1)) as int == q / 16);
            lemma_fundamental_div_mod(q, 16);
            assert(q == 16 * (q / 16) + q % 16);
            assert(digit(scalars[n - 1], j) == q % 16);
            assert(q * b == (16 * (q / 16) + q % 16) * b);
            lemma_mul_is_distributive_add_other_way(b, 16 * (q / 16), q % 16);
            assert((16 * (q / 16) + q % 16) * b == (16 * (q / 16)) * b + (q % 16) * b);
            lemma_mul_is_associative(16, q / 16, b);
        }
    }
}

/// One step of a digit sum, peeled off its upper end.
proof fn lemma_digit_msm_unfold(
    bases: Seq<int>,
    scalars: Seq<u64>,
    sel: Seq<bool>,
    j: nat,
    lo: int,
    hi: int,
)
    requires
        lo < hi,
    ensures
        digit_msm(bases, scalars, sel, j, lo, hi) == digit_msm(bases, scalars, sel, j, lo, hi - 1)
            + if sel[hi - 1] {
            digit(scalars[hi - 1], j) * bases[count_set(sel, hi - 1)]
        } else {
            0int
        },
{
}

/// Digit sums over adjacent ranges concatenate.
proof fn lemma_digit_msm_split(
    bases: Seq<int>,
    scalars: Seq<u64>,
    sel: Seq<bool>,
    j: nat,
    lo: int,
    mid: int,
    hi: int,
)
    requires
        lo <= mid <= hi,
    ensures
        digit_msm(bases, scalars, sel, j, lo, hi) == digit_msm(bases, scalars, sel, j, lo, mid)
            + digit_msm(bases, scalars, sel, j, mid, hi),
    decreases hi - mid,
{
    if hi > mid {
        lemma_digit_msm_split(bases, scalars, sel, j, lo, mid, hi - 1);
    }
}

/// Counting is monotone over a growing range.
pub proof fn lemma_count_set_mono(s: Seq<bool>, a: int, b: int)
    requires
        0 <= a <= b <= s.len(),
    ensures
        count_set(s, a) <= count_set(s, b),
    decreases b - a,
{
    if a < b {
        lemma_count_set_mono(s, a, b - 1);
    }
}

/// A deferred multiexp result: the work is already dispatched when the
/// handle is returned, and the caller joins it explicitly later.
pub struct MultiexpHandle<Gp: Curve> {
    pub value: Result<Gp, SynthesisError>,
}

impl<Gp: Curve> MultiexpHandle<Gp> {
    /// Join the dispatched work and take its result.
    pub fn wait(self) -> (r: Result<Gp, SynthesisError>)
        ensures
            r == self.value,
    {
        self.value
    }
}

/// Multiply sixteen into an accumulated exponent, four doublings at a time.
proof fn lemma_times16(x: int)
    ensures
        (2 * ((2 * ((2 * ((2 * x) % modulus())) % modulus())) % modulus())) % modulus() == (16 * x)
            % modulus(),
{
    let m = modulus();
    lemma_mul_mod_noop_right(2, 2 * x, m);
    lemma_mul_mod_noop_right(2, 4 * x, m);
    lemma_mul_mod_noop_right(2, 8 * x, m);
}

/// Compute `Σ scalar_i · base_i` over the group `Gp`, restricted by the
/// density selector; bases are consumed in order by selected positions
/// only. Work is dispatched in worker-sized chunks; the handle's value is
/// the naive weighted sum, whatever the chunking or parallelism.
#[verifier::rlimit(100)]
pub fn multiexp<Gp: Curve>(
    worker: &Worker,
    bases: Vec<Gp>,
    density: Option<&DensityTracker>,
    exponents: &Vec<u64>,
) -> (r: MultiexpHandle<Gp>)
    requires
        worker.wf(),
        all_wf(bases@),
        density matches Some(d) ==> d.wf(),
    ensures
        ({
            let n = exponents@.len() as int;
            let sel = sel_of(density, n);
            if sel.len() != n {
                r.value == Err::<Gp, SynthesisError>(SynthesisError::IndexOutOfBounds)
            } else if bases@.len() < count_set(sel, n) {
                r.value == Err::<Gp, SynthesisError>(SynthesisError::SourceExhausted)
            } else {
                r.value matches Ok(g) && g.wf() && g.pt() == msm(pts(bases@), exponents@, sel, n)
                    % modulus()
            }
        }),
{
    let n = exponents.len();
    let ghost sel = sel_of(density, n as int);

    // Reject a selector that is not aligned 1:1 with the scalars before
    // any work is dispatched.
    match density {
        None => {},
        Some(d) => {
            if d.len() != n {
                return MultiexpHandle { value: Err(SynthesisError::IndexOutOfBounds) };
            }
        },
    }
    assert(sel.len() == n as int);

    // The number of bases the selection will consume.
    let needed: usize = match density {
        None => n,
        Some(d) => d.get_total_density(),
    };
    proof {
        if density is None {
            lemma_count_all_true(sel, n as int);
        }
    }
    assert(needed == count_set(sel, n as int));
    if bases.len() < needed {
        return MultiexpHandle { value: Err(SynthesisError::SourceExhausted) };
    }

    let mut acc = Gp::zero();
    let mut j: usize = 16;
    proof {
        lemma_shifted_msm_top(pts(bases@), exponents@, sel, n as int);
        lemma_small_mod(0nat, crate::field::MODULUS as nat);
    }
    while j > 0
        invariant
            worker.wf(),
            all_wf(bases@),
            density matches Some(d) ==> d.wf(),
            sel == sel_of(density, exponents@.len() as int),
            sel.len() == exponents@.len(),
            bases@.len() >= count_set(sel, exponents@.len() as int),
            j <= 16,
            acc.wf(),
            acc.pt() == shifted_msm(pts(bases@), exponents@, sel, j as nat, exponents@.len() as int)
                % modulus(),
        decreases j,
    {
        j = j - 1;
        let ghost prev = shifted_msm(
            pts(bases@),
            exponents@,
            sel,
            (j + 1) as nat,
            exponents@.len() as int,
        );
        let ghost a0 = acc.pt();
        let doubled = acc.double().double().double().double();
        proof {
            lemma_times16(a0);
            lemma_mul_mod_noop_right(16, prev, modulus());
            assert(doubled.pt() == (16 * prev) % modulus());
        }
        let w = window_sum(worker, &bases, density, exponents, j);
        acc = doubled.add(w);
        proof {
            let b = pts(bases@);
            let e = exponents@;
            let nn = e.len() as int;
            lemma_window_step(b, e, sel, j as nat, nn);
            lemma_add_mod_noop(16 * prev, digit_msm(b, e, sel, j as nat, 0, nn), modulus());
            assert(acc.pt() == shifted_msm(b, e, sel, j as nat, nn) % modulus());
        }
    }
    proof {
        lemma_shifted_msm_zero(pts(bases@), exponents@, sel, exponents@.len() as int);
    }
    MultiexpHandle { value: Ok(acc) }
}

/// The trivial selection counts every position.
pub proof fn lemma_count_all_true(s: Seq<bool>, n: int)
    requires
        0 <= n,
        s.len() >= n,
        forall|k: int| 0 <= k < n ==> s[k],
    ensures
        count_set(s, n) == n,
    decreases n,
{
    if n > 0 {
        lemma_count_all_true(s, n - 1);
    }
}

/// Sum window `j` of every selected scalar against its base, walking the
/// range chunk by chunk as the worker partitions it.
#[verifier::rlimit(100)]
fn window_sum<Gp: Curve>(
    worker: &Worker,
    bases: &Vec<Gp>,
    density: Option<&DensityTracker>,
    exponents: &Vec<u64>,
    j: usize,
) -> (w: Gp)
    requires
        worker.wf(),
        all_wf(bases@),
        density matches Some(d) ==> d.wf(),
        j < 16,
        sel_of(density, exponents@.len() as int).len() == exponents@.len(),
        bases@.len() >= count_set(
            sel_of(density, exponents@.len() as int),
            exponents@.len() as int,
        ),
    ensures
        w.wf(),
        w.pt() == digit_msm(
            pts(bases@),
            exponents@,
            sel_of(density, exponents@.len() as int),
            j as nat,
            0,
            exponents@.len() as int,
        ) % modulus(),
{
    let ghost sel = sel_of(density, exponents@.len() as int);
    let n = exponents.len();
    let chunk = worker.get_chunk_size(n);
    let mut total = Gp::zero();
    let mut lo: usize = 0;
    let mut cursor: usize = 0;
    proof {
        lemma_small_mod(0nat, crate::field::MODULUS as nat);
    }
    while lo < n
        invariant
            worker.wf(),
            all_wf(bases@),
            density matches Some(d) ==> d.wf(),
            sel == sel_of(density, exponents@.len() as int),
            sel.len() == exponents@.len(),
            bases@.len() >= count_set(sel, exponents@.len() as int),
            j < 16,
            chunk >= 1,
            lo <= n,
            n == exponents@.len(),
            total.wf(),
            cursor == count_set(sel, lo as int),
            total.pt() == digit_msm(pts(bases@), exponents@, sel, j as nat, 0, lo as int)
                % modulus(),
        decreases n - lo,
    {
        let hi = if n - lo < chunk {
            n
        } else {
            lo + chunk
        };
        let (part, newcur) = bucket_chunk(bases, density, exponents, j, lo, hi, cursor);
        proof {
            let b = pts(bases@);
            let e = exponents@;
            lemma_digit_msm_split(b, e, sel, j as nat, 0, lo as int, hi as int);
            lemma_add_mod_noop(
                digit_msm(b, e, sel, j as nat, 0, lo as int),
                digit_msm(b, e, sel, j as nat, lo as int, hi as int),
                modulus(),
            );
        }
        total = total.add(part);
        lo = hi;
        cursor = newcur;
    }
    total
}

/// Accumulate window `j` of positions [lo, hi) into sixteen buckets, then
/// weigh the buckets together. `cursor` is the index of the first base
/// this chunk may consume.
#[verifier::rlimit(100)]
fn bucket_chunk<Gp: Curve>(
    bases: &Vec<Gp>,
    density: Option<&DensityTracker>,
    exponents: &Vec<u64>,
    j: usize,
    lo: usize,
    hi: usize,
    cursor: usize,
) -> (r: (Gp, usize))
    requires
        all_wf(bases@),
        density matches Some(d) ==> d.wf(),
        j < 16,
        lo <= hi <= exponents@.len(),
        sel_of(density, exponents@.len() as int).len() == exponents@.len(),
        bases@.len() >= count_set(
            sel_of(density, exponents@.len() as int),
            exponents@.len() as int,
        ),
        cursor == count_set(sel_of(density, exponents@.len() as int), lo as int),
    ensures
        r.0.wf(),
        r.0.pt() == digit_msm(
            pts(bases@),
            exponents@,
            sel_of(density, exponents@.len() as int),
            j as nat,
            lo as int,
            hi as int,
        ) % modulus(),
        r.1 == count_set(sel_of(density, exponents@.len() as int), hi as int),
{
    let ghost sel = sel_of(density, exponents@.len() as int);
    let ghost b = pts(bases@);
    let ghost e = exponents@;

    let mut buckets: Vec<Gp> = Vec::new();
    let mut t: usize = 0;
    while t < 15
        invariant
            buckets@.len() == t,
            t <= 15,
            forall|k: int| 0 <= k < t ==> (#[trigger] buckets@[k]).wf() && buckets@[k].pt() == 0,
        decreases 15 - t,
    {
        buckets.push(Gp::zero());
        t = t + 1;
    }
    // Unreduced bucket exponents, tracked alongside the group values.
    let ghost mut gb: Seq<int> = Seq::new(15, |k: int| 0int);
    proof {
        lemma_wbsum_zero(gb, 15);
        lemma_small_mod(0nat, crate::field::MODULUS as nat);
    }

    let mut i = lo;
    let mut cur = cursor;
    while i < hi
        invariant
            all_wf(bases@),
            density matches Some(d) ==> d.wf(),
            sel == sel_of(density, exponents@.len() as int),
            sel.len() == exponents@.len(),
            b == pts(bases@),
            e == exponents@,
            bases@.len() >= count_set(sel, exponents@.len() as int),
            j < 16,
            lo <= i <= hi <= exponents@.len(),
            cur == count_set(sel, i as int),
            buckets@.len() == 15,
            gb.len() == 15,
            forall|k: int|
                0 <= k < 15 ==> (#[trigger] buckets@[k]).wf() && buckets@[k].pt() == gb[k]
                    % modulus(),
            wbsum(gb, 15) == digit_msm(b, e, sel, j as nat, lo as int, i as int),
        decreases hi - i,
    {
        let selected = match density {
            None => true,
            Some(d) => d.get(i),
        };
        if selected {
            proof {
                lemma_count_set_mono(sel, i + 1, exponents@.len() as int);
                lemma_count_set_bound(sel, i as int);
            }
            let base = bases[cur];
            cur = cur + 1;
            let shift = (4 * j) as u64;
            let digit_raw = (exponents[i] >> shift) & 15u64;
            proof {
                lemma_u64_shr_is_div(e[i as int], shift);
                vstd::bits::lemma_low_bits_mask_values();
                assert(low_bits_mask(4) == 15);
                lemma_u64_low_bits_mask_is_mod(e[i as int] >> shift, 4);
                lemma2_to64();
                assert(pow2(4) == 16);
                lemma_pow2_pos(4 * j as nat);
                assert(digit_raw as int == digit(e[i as int], j as nat));
                lemma_mod_bound(e[i as int] as int / pow2(4 * j as nat) as int, 16);
                assert(b[count_set(sel, i as int)] == base.pt());
            }
            proof {
                if density is None {
                    assert(sel[i as int]);
                }
                assert(sel[i as int]);
            }
            if digit_raw > 0 {
                let d = (digit_raw - 1) as usize;
                let nb = buckets[d].add(base);
                let ghost oldgb = gb;
                buckets.set(d, nb);
                proof {
                    gb = gb.update(d as int, gb[d as int] + base.pt());
                    base.wf_facts();
                    lemma_wbsum_update(oldgb, 15, d as int, oldgb[d as int] + base.pt());
                    assert(wbsum(gb, 15) == wbsum(oldgb, 15) + (d + 1) * base.pt());
                    lemma_add_mod_noop(oldgb[d as int], base.pt(), modulus());
                    lemma_mod_bound(oldgb[d as int], modulus());
                    lemma_small_mod(base.pt() as nat, crate::field::MODULUS as nat);
                    assert(nb.pt() == gb[d as int] % modulus());
                    assert(d as int + 1 == digit(e[i as int], j as nat));
                    lemma_digit_msm_unfold(b, e, sel, j as nat, lo as int, i + 1);
                    assert(digit_msm(b, e, sel, j as nat, lo as int, i + 1) == digit_msm(
                        b,
                        e,
                        sel,
                        j as nat,
                        lo as int,
                        i as int,
                    ) + digit(e[i as int], j as nat) * b[count_set(sel, i as int)]);
                    assert(wbsum(gb, 15) == digit_msm(b, e, sel, j as nat, lo as int, i + 1));
                }
            } else {
                proof {
                    assert(digit(e[i as int], j as nat) == 0);
                    lemma_digit_msm_unfold(b, e, sel, j as nat, lo as int, i + 1);
                    assert(digit_msm(b, e, sel, j as nat, lo as int, i + 1) == digit_msm(
                        b,
                        e,
                        sel,
                        j as nat,
                        lo as int,
                        i as int,
                    ));
                    assert(wbsum(gb, 15) == digit_msm(b, e, sel, j as nat, lo as int, i + 1));
                }
            }
        } else {
            proof {
                assert(!sel[i as int]);
                lemma_digit_msm_unfold(b, e, sel, j as nat, lo as int, i + 1);
                assert(digit_msm(b, e, sel, j as nat, lo as int, i + 1) == digit_msm(
                    b,
                    e,
                    sel,
                    j as nat,
                    lo as int,
                    i as int,
                ));
                assert(wbsum(gb, 15) == digit_msm(b, e, sel, j as nat, lo as int, i + 1));
            }
        }
        proof {
            assert(wbsum(gb, 15) == digit_msm(b, e, sel, j as nat, lo as int, i + 1));
            assert(cur == count_set(sel, i + 1));
        }
        i = i + 1;
    }

    // Weigh the buckets: bucket t carries digit value t + 1.
    let mut part = Gp::zero();
    let mut k: usize = 0;
    proof {
        lemma_small_mod(0nat, crate::field::MODULUS as nat);
    }
    while k < 15
        invariant
            k <= 15,
            buckets@.len() == 15,
            gb.len() == 15,
            forall|t2: int|
                0 <= t2 < 15 ==> (#[trigger] buckets@[t2]).wf() && buckets@[t2].pt() == gb[t2]
                    % modulus(),
            part.wf(),
            part.pt() == wbsum(gb, k as int) % modulus(),
        decreases 15 - k,
    {
        let scaled = buckets[k].mul_u64((k + 1) as u64);
        proof {
            lemma_mul_mod_noop_right((k + 1) as int, gb[k as int], modulus());
            lemma_add_mod_noop(wbsum(gb, k as int), (k + 1) * gb[k as int], modulus());
        }
        part = part.add(scaled);
        k = k + 1;
    }
    (part, cur)
}

} // verus!
