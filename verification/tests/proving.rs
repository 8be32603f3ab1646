//! End-to-end proving scenarios: the soundness gate, the trivial
//! circuit, determinism, and the error paths.

use groth16::field::{Fr, MODULUS};
use groth16::group::{G1, G2};
use groth16::lc::LinearCombination;
use groth16::prover::{
    create_proof, create_random_proof, prepare_prover, Circuit, ProvingAssignment,
};
use groth16::source::{Parameters, VerifyingKey};
use groth16::SynthesisError;

fn fr(x: u64) -> Fr {
    Fr::from_u64(x)
}

struct EmptyCircuit;

impl Circuit for EmptyCircuit {
    fn synthesize(&self, _cs: &mut ProvingAssignment) -> Result<(), SynthesisError> {
        Ok(())
    }
}

struct MulCircuit;

impl Circuit for MulCircuit {
    fn synthesize(&self, cs: &mut ProvingAssignment) -> Result<(), SynthesisError> {
        let x = cs.alloc_aux(Some(fr(3)))?;
        let y = cs.alloc_aux(Some(fr(4)))?;
        let z = cs.alloc_aux(Some(fr(12)))?;
        let mut la = LinearCombination::zero();
        la.add_term(x, fr(1));
        let mut lb = LinearCombination::zero();
        lb.add_term(y, fr(1));
        let mut lc = LinearCombination::zero();
        lc.add_term(z, fr(1));
        cs.enforce(&la, &lb, &lc);
        Ok(())
    }
}

struct FailingCircuit;

impl Circuit for FailingCircuit {
    fn synthesize(&self, cs: &mut ProvingAssignment) -> Result<(), SynthesisError> {
        cs.alloc_aux(None)?;
        Ok(())
    }
}

fn good_params() -> Parameters {
    let g1 = |e: u64| G1 { e: e % MODULUS };
    let g2 = |e: u64| G2 { e: e % MODULUS };
    Parameters {
        vk: VerifyingKey {
            alpha_g1: g1(3),
            beta_g1: g1(5),
            beta_g2: g2(7),
            delta_g1: g1(2),
            delta_g2: g2(6),
        },
        h: (1..9).map(|i| g1(10 + i)).collect(),
        l: (1..9).map(|i| g1(20 + i)).collect(),
        a_query: (1..9).map(|i| g1(30 + i)).collect(),
        b_g1_query: (1..9).map(|i| g1(40 + i)).collect(),
        b_g2_query: (1..9).map(|i| g2(50 + i)).collect(),
    }
}

#[test]
fn zero_delta_is_refused_before_any_work() {
    let mut params = good_params();
    params.vk.delta_g1 = G1 { e: 0 };
    let r = create_proof(&EmptyCircuit, &params, fr(7), fr(11));
    assert_eq!(r, Err(SynthesisError::UnexpectedIdentity));

    let mut params2 = good_params();
    params2.vk.delta_g2 = G2 { e: 0 };
    let r2 = create_proof(&EmptyCircuit, &params2, fr(7), fr(11));
    assert_eq!(r2, Err(SynthesisError::UnexpectedIdentity));
}

#[test]
fn trivial_circuit_proves_with_nonidentity_elements() {
    let params = good_params();
    let proof = create_proof(&EmptyCircuit, &params, fr(7), fr(11)).unwrap();
    assert_ne!(proof.a.e, 0);
    assert_ne!(proof.b.e, 0);
    assert_ne!(proof.c.e, 0);
}

#[test]
fn multiplication_circuit_proves() {
    let params = good_params();
    let proof = create_proof(&MulCircuit, &params, fr(7), fr(11)).unwrap();
    assert_ne!(proof.a.e, 0);
}

#[test]
fn identical_inputs_give_bit_identical_proofs() {
    let params = good_params();
    let p1 = create_proof(&MulCircuit, &params, fr(7), fr(11)).unwrap();
    let p2 = create_proof(&MulCircuit, &params, fr(7), fr(11)).unwrap();
    assert_eq!(p1, p2);
}

#[test]
fn random_proof_succeeds() {
    let params = good_params();
    let prepared = prepare_prover(&EmptyCircuit).unwrap();
    let proof = prepared.create_random_proof(&params);
    assert!(proof.is_ok());
    assert!(create_random_proof(&EmptyCircuit, &params).is_ok());
}

#[test]
fn failed_witness_callback_aborts_synthesis() {
    let params = good_params();
    let r = create_proof(&FailingCircuit, &params, fr(7), fr(11));
    assert_eq!(r, Err(SynthesisError::AssignmentError));
}

#[test]
fn short_h_query_is_source_exhausted() {
    let mut params = good_params();
    params.h = Vec::new();
    let r = create_proof(&EmptyCircuit, &params, fr(7), fr(11));
    assert_eq!(r, Err(SynthesisError::SourceExhausted));
}

#[test]
fn short_a_query_is_source_exhausted() {
    let mut params = good_params();
    params.a_query = Vec::new();
    let r = create_proof(&EmptyCircuit, &params, fr(7), fr(11));
    assert_eq!(r, Err(SynthesisError::SourceExhausted));
}
