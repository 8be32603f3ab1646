//! Field, density and multiexp behaviour on concrete values.

use groth16::density::DensityTracker;
use groth16::field::{Fr, MODULUS};
use groth16::group::{Curve, G1};
use groth16::multiexp::multiexp;
use groth16::worker::Worker;
use groth16::SynthesisError;

fn fr(x: u64) -> Fr {
    Fr::from_u64(x)
}

#[test]
fn field_arithmetic_exact() {
    // (MODULUS - 1) + 2 wraps to 1.
    assert_eq!(fr(MODULUS - 1).add(fr(2)).repr, 1);
    // 3 - 5 wraps to MODULUS - 2.
    assert_eq!(fr(3).sub(fr(5)).repr, MODULUS - 2);
    // A concrete product reduced by the modulus.
    assert_eq!(fr(1_000_000_007).mul(fr(998_244_353)).repr,
        ((1_000_000_007u128 * 998_244_353u128) % (MODULUS as u128)) as u64);
    // Fermat inverse really inverts.
    let x = fr(123_456_789);
    let xi = x.inverse().unwrap();
    assert_eq!(x.mul(xi).repr, 1);
    // Exponentiation: 3^5 = 243.
    assert_eq!(fr(3).pow(5).repr, 243);
}

#[test]
fn density_counts_distinct_touches() {
    let mut t = DensityTracker::new();
    for _ in 0..4 {
        t.add_element();
    }
    t.inc(2);
    t.inc(2);
    t.inc(0);
    t.inc(2);
    assert_eq!(t.get_total_density(), 2);

    // Another order of the same touches gives the same total.
    let mut u = DensityTracker::new();
    for _ in 0..4 {
        u.add_element();
    }
    u.inc(0);
    u.inc(2);
    assert_eq!(u.get_total_density(), t.get_total_density());
}

fn naive_msm(bases: &[G1], scalars: &[u64], sel: Option<&DensityTracker>) -> G1 {
    let mut acc = G1::zero();
    let mut cursor = 0;
    for i in 0..scalars.len() {
        let live = match sel {
            None => true,
            Some(d) => d.get(i),
        };
        if live {
            acc = acc.add(bases[cursor].mul_u64(scalars[i]));
            cursor += 1;
        }
    }
    acc
}

fn pseudo(seed: u64, i: u64) -> u64 {
    // A fixed linear-congruential walk: deterministic test data.
    seed.wrapping_mul(6364136223846793005)
        .wrapping_add(1442695040888963407)
        .wrapping_add(i.wrapping_mul(0x9E3779B97F4A7C15))
}

#[test]
fn multiexp_matches_naive_full_density() {
    let worker = Worker::new();
    for n in [0usize, 1, 5, 7] {
        let bases: Vec<G1> = (0..n).map(|i| G1 { e: pseudo(7, i as u64) % MODULUS }).collect();
        let scalars: Vec<u64> = (0..n).map(|i| pseudo(11, i as u64)).collect();
        let expected = naive_msm(&bases, &scalars, None);
        let got = multiexp(&worker, bases, None, &scalars).wait().unwrap();
        assert_eq!(got, expected);
    }
}

#[test]
fn multiexp_matches_naive_tracked_density() {
    let worker = Worker::new();
    let n = 6usize;
    let mut tracker = DensityTracker::new();
    for _ in 0..n {
        tracker.add_element();
    }
    tracker.inc(1);
    tracker.inc(3);
    tracker.inc(4);
    let bases: Vec<G1> = (0..3).map(|i| G1 { e: pseudo(13, i as u64) % MODULUS }).collect();
    let scalars: Vec<u64> = (0..n).map(|i| pseudo(17, i as u64)).collect();
    let expected = naive_msm(&bases, &scalars, Some(&tracker));
    let got = multiexp(&worker, bases, Some(&tracker), &scalars).wait().unwrap();
    assert_eq!(got, expected);
}

#[test]
fn multiexp_same_result_across_pool_sizes() {
    let n = 9usize;
    let bases: Vec<G1> = (0..n).map(|i| G1 { e: pseudo(19, i as u64) % MODULUS }).collect();
    let scalars: Vec<u64> = (0..n).map(|i| pseudo(23, i as u64)).collect();
    let one_lane = multiexp(&Worker::new(), bases.clone(), None, &scalars).wait().unwrap();
    let many = multiexp(&Worker::with_cpus(4), bases, None, &scalars).wait().unwrap();
    assert_eq!(one_lane, many);
}

#[test]
fn multiexp_rejects_mismatched_density() {
    let worker = Worker::new();
    let mut tracker = DensityTracker::new();
    tracker.add_element();
    let bases = vec![G1 { e: 5 }];
    let scalars = vec![3u64, 4u64];
    let r = multiexp(&worker, bases, Some(&tracker), &scalars).wait();
    assert_eq!(r, Err(SynthesisError::IndexOutOfBounds));
}

#[test]
fn multiexp_rejects_short_bases() {
    let worker = Worker::new();
    let bases = vec![G1 { e: 5 }];
    let scalars = vec![3u64, 4u64];
    let r = multiexp(&worker, bases, None, &scalars).wait();
    assert_eq!(r, Err(SynthesisError::SourceExhausted));
}
