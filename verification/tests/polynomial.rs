//! Polynomial-engine round trips and the quotient identity on values.

use groth16::domain::{EvaluationDomain, Scalar};
use groth16::field::{Fr, GENERATOR};
use groth16::worker::Worker;

fn fr(x: u64) -> Fr {
    Fr::from_u64(x)
}

fn scalars(xs: &[u64]) -> Vec<Scalar> {
    xs.iter().map(|&x| Scalar(fr(x))).collect()
}

fn eval_poly(coeffs: &[Scalar], x: Fr) -> Fr {
    let mut acc = fr(0);
    for k in (0..coeffs.len()).rev() {
        acc = coeffs[k].0.add(x.mul(acc));
    }
    acc
}

#[test]
fn forward_then_inverse_is_identity() {
    let worker = Worker::new();
    let mut d = EvaluationDomain::from_coeffs(scalars(&[5, 7, 11])).unwrap();
    let before: Vec<u64> = d.coeffs.iter().map(|s| s.0.repr).collect();
    d.fft(&worker);
    d.ifft(&worker);
    let after: Vec<u64> = d.coeffs.iter().map(|s| s.0.repr).collect();
    assert_eq!(before, after);
}

#[test]
fn coset_then_inverse_coset_is_identity() {
    let worker = Worker::new();
    let mut d = EvaluationDomain::from_coeffs(scalars(&[9, 2, 4, 8, 16])).unwrap();
    let before: Vec<u64> = d.coeffs.iter().map(|s| s.0.repr).collect();
    d.coset_fft(&worker);
    d.icoset_fft(&worker);
    let after: Vec<u64> = d.coeffs.iter().map(|s| s.0.repr).collect();
    assert_eq!(before, after);
}

#[test]
fn empty_constraint_set_sizes_a_domain() {
    let d = EvaluationDomain::from_coeffs(Vec::new()).unwrap();
    assert_eq!(d.size(), 1);
}

#[test]
fn quotient_satisfies_divisibility_identity() {
    // Pointwise-satisfied evaluations: a[i] * b[i] = c[i].
    let worker = Worker::new();
    let a = scalars(&[3, 5]);
    let b = scalars(&[4, 6]);
    let c = scalars(&[12, 30]);

    // The interpolants' coefficients.
    let mut da = EvaluationDomain::from_coeffs(a.clone()).unwrap();
    let mut db = EvaluationDomain::from_coeffs(b.clone()).unwrap();
    let mut dc = EvaluationDomain::from_coeffs(c.clone()).unwrap();
    let m = da.size() as u64;
    da.ifft(&worker);
    db.ifft(&worker);
    dc.ifft(&worker);
    let pa = da.into_coeffs();
    let pb = db.into_coeffs();
    let pc = dc.into_coeffs();

    // The quotient, derived the way the prover derives it.
    let mut qa = EvaluationDomain::from_coeffs(a).unwrap();
    let mut qb = EvaluationDomain::from_coeffs(b).unwrap();
    let mut qc = EvaluationDomain::from_coeffs(c).unwrap();
    qa.ifft(&worker);
    qa.coset_fft(&worker);
    qb.ifft(&worker);
    qb.coset_fft(&worker);
    qc.ifft(&worker);
    qc.coset_fft(&worker);
    qa.mul_assign(&worker, &qb);
    qa.sub_assign(&worker, &qc);
    qa.divide_by_z_on_coset(&worker).unwrap();
    qa.icoset_fft(&worker);
    let mut h = qa.into_coeffs();
    h.pop();

    // A(t)B(t) - C(t) == H(t) Z(t) at a point outside the domain.
    let t = fr(9);
    let left = eval_poly(&pa, t).mul(eval_poly(&pb, t)).sub(eval_poly(&pc, t));
    let z_t = t.pow(m).sub(fr(1));
    let right = eval_poly(&h, t).mul(z_t);
    assert_eq!(left, right);

    // And the generator itself is off-domain too.
    let g = fr(GENERATOR);
    let left_g = eval_poly(&pa, g).mul(eval_poly(&pb, g)).sub(eval_poly(&pc, g));
    let z_g = g.pow(m).sub(fr(1));
    assert_eq!(left_g, eval_poly(&h, g).mul(z_g));
}
