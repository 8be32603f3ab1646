//! The common-reference-string access a proving call consumes.
//!
//! `Parameters` holds the verifying-key constants and the base sequences
//! of every query resident in memory; each getter hands out exactly the
//! prefix or split the call sized, and fails with `SourceExhausted` when
//! more is requested than the string holds.

use vstd::prelude::*;
use crate::group::{Curve, G1, G2};
use crate::multiexp::all_wf;
use crate::SynthesisError;

verus! {

/// The verifying-key constants the prover needs.
#[derive(Clone, Copy, PartialEq, Eq, Structural, Debug)]
pub struct VerifyingKey {
    pub alpha_g1: G1,
    pub beta_g1: G1,
    pub beta_g2: G2,
    pub delta_g1: G1,
    pub delta_g2: G2,
}

impl VerifyingKey {
    pub open spec fn wf(&self) -> bool {
        self.alpha_g1.wf() && self.beta_g1.wf() && self.beta_g2.wf() && self.delta_g1.wf()
            && self.delta_g2.wf()
    }
}

/// An in-memory parameter source: one owner per proving call.
pub struct Parameters {
    pub vk: VerifyingKey,
    pub h: Vec<G1>,
    pub l: Vec<G1>,
    pub a_query: Vec<G1>,
    pub b_g1_query: Vec<G1>,
    pub b_g2_query: Vec<G2>,
}

/// Copy a half-open range out of a base vector.
fn copy_range<Gp: Curve>(v: &Vec<Gp>, from: usize, to: usize) -> (r: Vec<Gp>)
    requires
        from <= to <= v@.len(),
    ensures
        r@ =~= v@.subrange(from as int, to as int),
{
    let mut out: Vec<Gp> = Vec::new();
    let mut i = from;
    while i < to
        invariant
            from <= i <= to <= v@.len(),
            out@.len() == i - from,
            forall|k: int| 0 <= k < out@.len() ==> out@[k] == v@[from + k],
        decreases to - i,
    {
        out.push(v[i]);
        i = i + 1;
    }
    out
}

impl Parameters {
    pub open spec fn wf(&self) -> bool {
        &&& self.vk.wf()
        &&& all_wf(self.h@)
        &&& all_wf(self.l@)
        &&& all_wf(self.a_query@)
        &&& all_wf(self.b_g1_query@)
        &&& all_wf(self.b_g2_query@)
    }

    /// The verifying-key constants; the input count is what the caller
    /// sized its public-input vector to.
    pub fn get_vk(&self, _num_inputs: usize) -> (r: Result<VerifyingKey, SynthesisError>)
        ensures
            r == Ok::<VerifyingKey, SynthesisError>(self.vk),
    {
        Ok(self.vk)
    }

    /// The first `len` bases of the H query.
    pub fn get_h(&self, len: usize) -> (r: Result<Vec<G1>, SynthesisError>)
        ensures
            len > self.h@.len() ==> r == Err::<Vec<G1>, SynthesisError>(
                SynthesisError::SourceExhausted,
            ),
            len <= self.h@.len() ==> (r matches Ok(v) && v@ =~= self.h@.subrange(0, len as int)),
    {
        if len > self.h.len() {
            return Err(SynthesisError::SourceExhausted);
        }
        Ok(copy_range(&self.h, 0, len))
    }

    /// The first `len` bases of the L query.
    pub fn get_l(&self, len: usize) -> (r: Result<Vec<G1>, SynthesisError>)
        ensures
            len > self.l@.len() ==> r == Err::<Vec<G1>, SynthesisError>(
                SynthesisError::SourceExhausted,
            ),
            len <= self.l@.len() ==> (r matches Ok(v) && v@ =~= self.l@.subrange(0, len as int)),
    {
        if len > self.l.len() {
            return Err(SynthesisError::SourceExhausted);
        }
        Ok(copy_range(&self.l, 0, len))
    }

    /// The A query: a dense inputs prefix and an aux suffix sized by the
    /// recorded aux density.
    pub fn get_a(&self, num_inputs: usize, aux_count: usize) -> (r: Result<
        (Vec<G1>, Vec<G1>),
        SynthesisError,
    >)
        ensures
            num_inputs + aux_count > self.a_query@.len() ==> r == Err::<
                (Vec<G1>, Vec<G1>),
                SynthesisError,
            >(SynthesisError::SourceExhausted),
            num_inputs + aux_count <= self.a_query@.len() ==> (r matches Ok(p)
                && p.0@ =~= self.a_query@.subrange(0, num_inputs as int) && p.1@
                =~= self.a_query@.subrange(
                num_inputs as int,
                num_inputs as int + aux_count as int,
            )),
    {
        if aux_count > self.a_query.len() || num_inputs > self.a_query.len() - aux_count {
            return Err(SynthesisError::SourceExhausted);
        }
        let inputs = copy_range(&self.a_query, 0, num_inputs);
        let aux = copy_range(&self.a_query, num_inputs, num_inputs + aux_count);
        Ok((inputs, aux))
    }

    /// The B query in the first group: an inputs prefix and an aux
    /// suffix, both sized by recorded densities.
    pub fn get_b_g1(&self, input_count: usize, aux_count: usize) -> (r: Result<
        (Vec<G1>, Vec<G1>),
        SynthesisError,
    >)
        ensures
            input_count + aux_count > self.b_g1_query@.len() ==> r == Err::<
                (Vec<G1>, Vec<G1>),
                SynthesisError,
            >(SynthesisError::SourceExhausted),
            input_count + aux_count <= self.b_g1_query@.len() ==> (r matches Ok(p)
                && p.0@ =~= self.b_g1_query@.subrange(0, input_count as int) && p.1@
                =~= self.b_g1_query@.subrange(
                input_count as int,
                input_count as int + aux_count as int,
            )),
    {
        if aux_count > self.b_g1_query.len() || input_count > self.b_g1_query.len() - aux_count {
            return Err(SynthesisError::SourceExhausted);
        }
        let inputs = copy_range(&self.b_g1_query, 0, input_count);
        let aux = copy_range(&self.b_g1_query, input_count, input_count + aux_count);
        Ok((inputs, aux))
    }

    /// The B query in the second group.
    pub fn get_b_g2(&self, input_count: usize, aux_count: usize) -> (r: Result<
        (Vec<G2>, Vec<G2>),
        SynthesisError,
    >)
        ensures
            input_count + aux_count > self.b_g2_query@.len() ==> r == Err::<
                (Vec<G2>, Vec<G2>),
                SynthesisError,
            >(SynthesisError::SourceExhausted),
            input_count + aux_count <= self.b_g2_query@.len() ==> (r matches Ok(p)
                && p.0@ =~= self.b_g2_query@.subrange(0, input_count as int) && p.1@
                =~= self.b_g2_query@.subrange(
                input_count as int,
                input_count as int + aux_count as int,
            )),
    {
        if aux_count > self.b_g2_query.len() || input_count > self.b_g2_query.len() - aux_count {
            return Err(SynthesisError::SourceExhausted);
        }
        let inputs = copy_range(&self.b_g2_query, 0, input_count);
        let aux = copy_range(&self.b_g2_query, input_count, input_count + aux_count);
        Ok((inputs, aux))
    }
}

} // verus!
