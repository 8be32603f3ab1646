//! Witness evaluation and proof creation.
//!
//! Circuit synthesis drives a `ProvingAssignment`: allocations fill the
//! input and aux vectors, and every enforced constraint records one
//! evaluation of its A, B and C linear combinations, updating the density
//! trackers the sparse queries are sized by. `create_proof` then derives
//! the quotient polynomial H, dispatches seven multiexp jobs, and folds
//! their joins with the verifying-key constants and the blinding
//! randomizers into the final proof.

use vstd::prelude::*;
use vstd::arithmetic::div_mod::{lemma_add_mod_noop_right, lemma_small_mod};
use vstd::arithmetic::power2::{lemma_pow2_pos, pow2};
use crate::density::{count_set, DensityTracker};
use crate::domain::{
    all_scalars_wf, dft_spec, distribute_spec, domain_exp, domain_invertible, domain_omega,
    idft_spec, scale_spec, vals, z_on_coset, EvaluationDomain, Scalar,
};
use crate::field::{field_inv, modulus, Fr, GENERATOR, MODULUS};
use crate::group::{Curve, G1, G2};
use crate::lc::{Index, LinearCombination, Variable};
use crate::multiexp::{all_wf, msm, multiexp, pts, sel_of};
use crate::source::{Parameters, VerifyingKey};
use crate::worker::Worker;
use crate::{Proof, SynthesisError};

verus! {

pub open spec fn all_fr_wf(s: Seq<Fr>) -> bool {
    forall|k: int| 0 <= k < s.len() ==> (#[trigger] s[k]).wf()
}

/// The canonical machine representations of a vector of field elements.
pub open spec fn fr_reprs(s: Seq<Fr>) -> Seq<u64> {
    s.map_values(|f: Fr| f.repr)
}

/// The canonical machine representations of a vector of evaluations.
pub open spec fn u64s(v: Seq<int>) -> Seq<u64> {
    v.map_values(|x: int| x as u64)
}

/// The value a variable takes under the two assignment vectors.
pub open spec fn var_val(v: Variable, ins: Seq<Fr>, auxs: Seq<Fr>) -> int {
    match v.0 {
        Index::Input(i) => ins[i as int].v(),
        Index::Aux(i) => auxs[i as int].v(),
    }
}

/// The evaluation of a linear combination: `Σ coeff·value`, reduced at
/// every step, in term order.
pub open spec fn lc_val(terms: Seq<(Variable, Fr)>, ins: Seq<Fr>, auxs: Seq<Fr>) -> int
    decreases terms.len(),
{
    if terms.len() == 0 {
        0
    } else {
        let prev = lc_val(terms.drop_last(), ins, auxs);
        let t = terms.last();
        (prev + t.1.v() * var_val(t.0, ins, auxs)) % modulus()
    }
}

/// The density flags after one linear combination is recorded against
/// the tracker of the given kind: every position a nonzero-coefficient
/// term of that kind touches is set.
pub open spec fn density_after(
    t: Seq<bool>,
    terms: Seq<(Variable, Fr)>,
    input_kind: bool,
) -> Seq<bool>
    decreases terms.len(),
{
    if terms.len() == 0 {
        t
    } else {
        let prev = density_after(t, terms.drop_last(), input_kind);
        let term = terms.last();
        if term.1.v() != 0 {
            match term.0.0 {
                Index::Input(i) => if input_kind && i < prev.len() {
                    prev.update(i as int, true)
                } else {
                    prev
                },
                Index::Aux(i) => if !input_kind && i < prev.len() {
                    prev.update(i as int, true)
                } else {
                    prev
                },
            }
        } else {
            prev
        }
    }
}

/// Recording never shrinks a tracker.
pub proof fn lemma_density_after_len(t: Seq<bool>, terms: Seq<(Variable, Fr)>, input_kind: bool)
    ensures
        density_after(t, terms, input_kind).len() == t.len(),
    decreases terms.len(),
{
    if terms.len() > 0 {
        lemma_density_after_len(t, terms.drop_last(), input_kind);
    }
}

/// Whether some nonzero-coefficient term of the tracked kind touches
/// position `i`.
pub open spec fn touches(terms: Seq<(Variable, Fr)>, input_kind: bool, i: int) -> bool {
    exists|k: int|
        0 <= k < terms.len() && (#[trigger] terms[k]).1.v() != 0 && (match terms[k].0.0 {
            Index::Input(j) => input_kind && j as int == i,
            Index::Aux(j) => !input_kind && j as int == i,
        })
}

/// What recording one combination does, position by position: a flag is
/// set afterwards exactly when it was set before or some
/// nonzero-coefficient term of the tracked kind touches it. Hence the
/// total density counts distinct touched positions, independent of the
/// order and multiplicity of the terms.
pub proof fn lemma_density_after_characterized(
    t: Seq<bool>,
    terms: Seq<(Variable, Fr)>,
    input_kind: bool,
    i: int,
)
    requires
        0 <= i < t.len(),
    ensures
        density_after(t, terms, input_kind)[i] == (t[i] || touches(terms, input_kind, i)),
    decreases terms.len(),
{
    if terms.len() == 0 {
        assert(!touches(terms, input_kind, i));
    } else {
        let n = terms.len() as int;
        let sub = terms.drop_last();
        let last = terms.last();
        lemma_density_after_characterized(t, sub, input_kind, i);
        lemma_density_after_len(t, sub, input_kind);
        let last_touches = last.1.v() != 0 && (match last.0.0 {
            Index::Input(j) => input_kind && j as int == i,
            Index::Aux(j) => !input_kind && j as int == i,
        });
        assert(touches(terms, input_kind, i) == (touches(sub, input_kind, i) || last_touches)) by {
            if touches(sub, input_kind, i) {
                let k = choose|k: int|
                    0 <= k < sub.len() && (#[trigger] sub[k]).1.v() != 0 && (match sub[k].0.0 {
                        Index::Input(j) => input_kind && j as int == i,
                        Index::Aux(j) => !input_kind && j as int == i,
                    });
                assert(terms[k] == sub[k]);
                assert(touches(terms, input_kind, i));
            }
            if last_touches {
                assert(terms[n - 1] == last);
                assert(touches(terms, input_kind, i));
            }
            if touches(terms, input_kind, i) {
                let k = choose|k: int|
                    0 <= k < terms.len() && (#[trigger] terms[k]).1.v() != 0 && (match terms[k].0.0 {
                        Index::Input(j) => input_kind && j as int == i,
                        Index::Aux(j) => !input_kind && j as int == i,
                    });
                if k < n - 1 {
                    assert(sub[k] == terms[k]);
                    assert(touches(sub, input_kind, i));
                } else {
                    assert(terms[k] == last);
                }
            }
        }
    }
}

/// Evaluate one linear combination over the assignment vectors,
/// recording densities into whichever trackers this query counts.
pub fn eval(
    lc: &LinearCombination,
    input_density: &mut DensityTracker,
    track_input: bool,
    aux_density: &mut DensityTracker,
    track_aux: bool,
    input_assignment: &Vec<Fr>,
    aux_assignment: &Vec<Fr>,
) -> (r: Fr)
    requires
        lc.wf(),
        lc.in_bounds(input_assignment@.len() as int, aux_assignment@.len() as int),
        old(input_density).wf(),
        old(aux_density).wf(),
        old(input_density)@.len() == input_assignment@.len(),
        old(aux_density)@.len() == aux_assignment@.len(),
        all_fr_wf(input_assignment@),
        all_fr_wf(aux_assignment@),
    ensures
        r.wf(),
        r.v() == lc_val(lc@, input_assignment@, aux_assignment@),
        final(input_density).wf(),
        final(aux_density).wf(),
        final(input_density)@ =~= if track_input {
            density_after(old(input_density)@, lc@, true)
        } else {
            old(input_density)@
        },
        final(aux_density)@ =~= if track_aux {
            density_after(old(aux_density)@, lc@, false)
        } else {
            old(aux_density)@
        },
{
    let mut acc = Fr { repr: 0 };
    let n = lc.0.len();
    let mut k: usize = 0;
    while k < n
        invariant
            lc.wf(),
            lc.in_bounds(input_assignment@.len() as int, aux_assignment@.len() as int),
            n == lc@.len(),
            k <= n,
            all_fr_wf(input_assignment@),
            all_fr_wf(aux_assignment@),
            input_density.wf(),
            aux_density.wf(),
            input_density@.len() == input_assignment@.len(),
            aux_density@.len() == aux_assignment@.len(),
            acc.wf(),
            acc.v() == lc_val(lc@.subrange(0, k as int), input_assignment@, aux_assignment@),
            input_density@ =~= if track_input {
                density_after(old(input_density)@, lc@.subrange(0, k as int), true)
            } else {
                old(input_density)@
            },
            aux_density@ =~= if track_aux {
                density_after(old(aux_density)@, lc@.subrange(0, k as int), false)
            } else {
                old(aux_density)@
            },
        decreases n - k,
    {
        proof {
            assert(lc@.subrange(0, k as int) =~= lc@.subrange(0, k + 1).drop_last());
            assert(lc@.subrange(0, k + 1).last() == lc@[k as int]);
            if track_input {
                lemma_density_after_len(old(input_density)@, lc@.subrange(0, k as int), true);
            }
            if track_aux {
                lemma_density_after_len(old(aux_density)@, lc@.subrange(0, k as int), false);
            }
        }
        let (var, coeff) = lc.0[k];
        let tmp = match var.0 {
            Index::Input(i) => {
                if track_input && coeff.repr != 0 {
                    input_density.inc(i);
                }
                input_assignment[i]
            },
            Index::Aux(i) => {
                if track_aux && coeff.repr != 0 {
                    aux_density.inc(i);
                }
                aux_assignment[i]
            },
        };
        let prod = tmp.mul(coeff);
        proof {
            vstd::arithmetic::mul::lemma_mul_is_commutative(tmp.v(), coeff.v());
            lemma_add_mod_noop_right(
                acc.v(),
                coeff.v() * var_val(lc@[k as int].0, input_assignment@, aux_assignment@),
                modulus(),
            );
        }
        acc = acc.add(prod);
        k = k + 1;
    }
    proof {
        assert(lc@.subrange(0, n as int) =~= lc@);
    }
    acc
}

/// A proving assignment with densities precalculated.
pub struct PreparedProver {
    pub assignment: ProvingAssignment,
}

/// The constraint evaluator: owns the assignment vectors, the three
/// per-constraint evaluation vectors, and the three density trackers.
pub struct ProvingAssignment {
    pub a_aux_density: DensityTracker,
    pub b_input_density: DensityTracker,
    pub b_aux_density: DensityTracker,
    pub a: Vec<Scalar>,
    pub b: Vec<Scalar>,
    pub c: Vec<Scalar>,
    pub input_assignment: Vec<Fr>,
    pub aux_assignment: Vec<Fr>,
}

impl ProvingAssignment {
    /// The bookkeeping the evaluator keeps aligned: trackers 1:1 with
    /// their assignment vectors, one evaluation per constraint in each
    /// of the three vectors.
    pub open spec fn wf(&self) -> bool {
        &&& self.a@.len() == self.b@.len() == self.c@.len()
        &&& self.a_aux_density@.len() == self.aux_assignment@.len()
        &&& self.b_aux_density@.len() == self.aux_assignment@.len()
        &&& self.b_input_density@.len() == self.input_assignment@.len()
        &&& self.a_aux_density.wf() && self.b_input_density.wf() && self.b_aux_density.wf()
        &&& all_fr_wf(self.input_assignment@)
        &&& all_fr_wf(self.aux_assignment@)
        &&& all_scalars_wf(self.a@) && all_scalars_wf(self.b@) && all_scalars_wf(self.c@)
    }

    pub fn new() -> (r: ProvingAssignment)
        ensures
            r.wf(),
            r.input_assignment@.len() == 0,
            r.aux_assignment@.len() == 0,
            r.a@.len() == 0,
    {
        ProvingAssignment {
            a_aux_density: DensityTracker::new(),
            b_input_density: DensityTracker::new(),
            b_aux_density: DensityTracker::new(),
            a: Vec::new(),
            b: Vec::new(),
            c: Vec::new(),
            input_assignment: Vec::new(),
            aux_assignment: Vec::new(),
        }
    }

    /// Allocate an auxiliary (witness) variable. A failed value callback
    /// arrives as `None` and aborts synthesis.
    pub fn alloc_aux(&mut self, value: Option<Fr>) -> (r: Result<Variable, SynthesisError>)
        requires
            old(self).wf(),
            value matches Some(v) ==> v.wf(),
        ensures
            final(self).wf(),
            value is None ==> r == Err::<Variable, SynthesisError>(SynthesisError::AssignmentError)
                && *final(self) == *old(self),
            value matches Some(v) ==> ({
                &&& r == Ok::<Variable, SynthesisError>(
                    Variable(Index::Aux(old(self).aux_assignment@.len() as usize)),
                )
                &&& final(self).aux_assignment@ =~= old(self).aux_assignment@.push(v)
                &&& final(self).a_aux_density@ =~= old(self).a_aux_density@.push(false)
                &&& final(self).b_aux_density@ =~= old(self).b_aux_density@.push(false)
                &&& final(self).input_assignment == old(self).input_assignment
                &&& final(self).a == old(self).a
                &&& final(self).b == old(self).b
                &&& final(self).c == old(self).c
                &&& final(self).b_input_density == old(self).b_input_density
            }),
    {
        match value {
            None => Err(SynthesisError::AssignmentError),
            Some(v) => {
                self.aux_assignment.push(v);
                self.a_aux_density.add_element();
                self.b_aux_density.add_element();
                Ok(Variable(Index::Aux(self.aux_assignment.len() - 1)))
            },
        }
    }

    /// Allocate a public-input variable.
    pub fn alloc_input(&mut self, value: Option<Fr>) -> (r: Result<Variable, SynthesisError>)
        requires
            old(self).wf(),
            value matches Some(v) ==> v.wf(),
        ensures
            final(self).wf(),
            value is None ==> r == Err::<Variable, SynthesisError>(SynthesisError::AssignmentError)
                && *final(self) == *old(self),
            value matches Some(v) ==> ({
                &&& r == Ok::<Variable, SynthesisError>(
                    Variable(Index::Input(old(self).input_assignment@.len() as usize)),
                )
                &&& final(self).input_assignment@ =~= old(self).input_assignment@.push(v)
                &&& final(self).b_input_density@ =~= old(self).b_input_density@.push(false)
                &&& final(self).aux_assignment == old(self).aux_assignment
                &&& final(self).a == old(self).a
                &&& final(self).b == old(self).b
                &&& final(self).c == old(self).c
                &&& final(self).a_aux_density == old(self).a_aux_density
                &&& final(self).b_aux_density == old(self).b_aux_density
            }),
    {
        match value {
            None => Err(SynthesisError::AssignmentError),
            Some(v) => {
                self.input_assignment.push(v);
                self.b_input_density.add_element();
                Ok(Variable(Index::Input(self.input_assignment.len() - 1)))
            },
        }
    }

    /// Record one constraint a·b = c: push the three evaluations and
    /// update the density trackers the queries count — aux only for A
    /// (inputs are dense there by construction), both for B, none for C.
    pub fn enforce(&mut self, a: &LinearCombination, b: &LinearCombination, c: &LinearCombination)
        requires
            old(self).wf(),
            a.wf() && b.wf() && c.wf(),
            a.in_bounds(
                old(self).input_assignment@.len() as int,
                old(self).aux_assignment@.len() as int,
            ),
            b.in_bounds(
                old(self).input_assignment@.len() as int,
                old(self).aux_assignment@.len() as int,
            ),
            c.in_bounds(
                old(self).input_assignment@.len() as int,
                old(self).aux_assignment@.len() as int,
            ),
        ensures
            final(self).wf(),
            final(self).a@ =~= old(self).a@.push(
                Scalar(
                    Fr {
                        repr: lc_val(
                            a@,
                            old(self).input_assignment@,
                            old(self).aux_assignment@,
                        ) as u64,
                    },
                ),
            ),
            final(self).b@ =~= old(self).b@.push(
                Scalar(
                    Fr {
                        repr: lc_val(
                            b@,
                            old(self).input_assignment@,
                            old(self).aux_assignment@,
                        ) as u64,
                    },
                ),
            ),
            final(self).c@ =~= old(self).c@.push(
                Scalar(
                    Fr {
                        repr: lc_val(
                            c@,
                            old(self).input_assignment@,
                            old(self).aux_assignment@,
                        ) as u64,
                    },
                ),
            ),
            final(self).a_aux_density@ =~= density_after(old(self).a_aux_density@, a@, false),
            final(self).b_input_density@ =~= density_after(old(self).b_input_density@, b@, true),
            final(self).b_aux_density@ =~= density_after(old(self).b_aux_density@, b@, false),
            final(self).input_assignment == old(self).input_assignment,
            final(self).aux_assignment == old(self).aux_assignment,
    {
        let av = eval(
            a,
            &mut self.b_input_density,
            false,
            &mut self.a_aux_density,
            true,
            &self.input_assignment,
            &self.aux_assignment,
        );
        proof {
            lemma_density_after_len(old(self).a_aux_density@, a@, false);
        }
        self.a.push(Scalar(av));
        let bv = eval(
            b,
            &mut self.b_input_density,
            true,
            &mut self.b_aux_density,
            true,
            &self.input_assignment,
            &self.aux_assignment,
        );
        proof {
            lemma_density_after_len(old(self).b_input_density@, b@, true);
            lemma_density_after_len(old(self).b_aux_density@, b@, false);
        }
        self.b.push(Scalar(bv));
        let cv = eval(
            c,
            &mut self.b_input_density,
            false,
            &mut self.b_aux_density,
            false,
            &self.input_assignment,
            &self.aux_assignment,
        );
        self.c.push(Scalar(cv));
        proof {
            lemma_density_after_len(old(self).a_aux_density@, a@, false);
            lemma_density_after_len(old(self).b_input_density@, b@, true);
            lemma_density_after_len(old(self).b_aux_density@, b@, false);
        }
    }

    /// Namespaces carry no meaning for proving.
    pub fn push_namespace(&mut self)
        ensures
            *final(self) == *old(self),
    {
    }

    /// Namespaces carry no meaning for proving.
    pub fn pop_namespace(&mut self)
        ensures
            *final(self) == *old(self),
    {
    }

    pub fn get_root(&mut self) -> (r: &mut Self) {
        self
    }
}

/// A circuit: what the user synthesizes constraints with. An
/// implementation may only grow the assignment — the methods it is
/// given do exactly that — which is what the contract records.
pub trait Circuit {
    fn synthesize(&self, cs: &mut ProvingAssignment) -> (r: Result<(), SynthesisError>)
        requires
            old(cs).wf(),
        ensures
            final(cs).wf(),
            final(cs).input_assignment@.len() >= old(cs).input_assignment@.len(),
            forall|k: int|
                0 <= k < old(cs).input_assignment@.len() ==> final(cs).input_assignment@[k] == old(
                    cs,
                ).input_assignment@[k],
    ;
}

/// Synthesize the circuit into a prepared assignment: bind the "one"
/// wire, run user synthesis, then append the synthetic `x_i · 0 = 0`
/// constraint for every public input so the A query stays dense over
/// inputs.
pub fn prepare_prover<C: Circuit>(circuit: &C) -> (r: Result<PreparedProver, SynthesisError>)
    ensures
        r matches Ok(p) ==> p.assignment.wf(),
        r matches Ok(p) ==> p.assignment.input_assignment@.len() >= 1,
        r matches Ok(p) ==> p.assignment.input_assignment@[0].v() == 1,
        r matches Ok(p) ==> p.assignment.a@.len() >= p.assignment.input_assignment@.len(),
        r matches Ok(p) ==> ({
            let pa = p.assignment;
            let ni = pa.input_assignment@.len() as int;
            let base = pa.a@.len() - ni;
            &&& vals(pa.a@).subrange(base, pa.a@.len() as int) =~= pa.input_assignment@.map_values(
                |f: Fr| f.v(),
            )
            &&& vals(pa.b@).subrange(base, pa.a@.len() as int) =~= Seq::new(
                ni as nat,
                |k: int| 0int,
            )
            &&& vals(pa.c@).subrange(base, pa.a@.len() as int) =~= Seq::new(
                ni as nat,
                |k: int| 0int,
            )
        }),
{
    let mut prover = ProvingAssignment::new();

    match prover.alloc_input(Some(Fr { repr: 1 })) {
        Ok(_) => {},
        Err(e) => {
            proof {
                assert(false);
            }
            return Err(e);
        },
    }

    match circuit.synthesize(&mut prover) {
        Ok(_) => {},
        Err(e) => {
            return Err(e);
        },
    }

    let ni = prover.input_assignment.len();
    let ghost base = prover.a@.len() as int;
    let mut i: usize = 0;
    while i < ni
        invariant
            prover.wf(),
            ni == prover.input_assignment@.len(),
            i <= ni,
            prover.input_assignment@[0].v() == 1,
            prover.a@.len() == base + i,
            base >= 0,
            forall|k: int|
                0 <= k < i ==> vals(prover.a@)[base + k] == prover.input_assignment@[k].v() && vals(
                    prover.b@,
                )[base + k] == 0 && vals(prover.c@)[base + k] == 0,
        decreases ni - i,
    {
        let mut lc_a = LinearCombination::zero();
        lc_a.add_term(Variable(Index::Input(i)), Fr { repr: 1 });
        let lc_b = LinearCombination::zero();
        let lc_c = LinearCombination::zero();
        let ghost ins = prover.input_assignment@;
        let ghost auxs = prover.aux_assignment@;
        proof {
            assert(lc_a@.drop_last() =~= Seq::<(Variable, Fr)>::empty());
            assert(lc_a@.len() == 1);
            assert(lc_a@.last() == (Variable(Index::Input(i)), Fr { repr: 1 }));
            assert(lc_a@.last().1.v() == 1);
            assert(var_val(lc_a@.last().0, ins, auxs) == ins[i as int].v());
            assert(lc_val(lc_a@.drop_last(), ins, auxs) == 0);
            assert(lc_val(lc_a@, ins, auxs) == (0 + 1 * ins[i as int].v()) % modulus());
            assert(ins[i as int].wf());
            lemma_small_mod(ins[i as int].v() as nat, MODULUS as nat);
            assert(lc_val(lc_a@, ins, auxs) == ins[i as int].v());
            assert(lc_val(lc_b@, ins, auxs) == 0);
        }
        let ghost a_prev = prover.a@;
        let ghost b_prev = prover.b@;
        let ghost c_prev = prover.c@;
        prover.enforce(&lc_a, &lc_b, &lc_c);
        proof {
            assert forall|k: int|
                0 <= k < i + 1 implies vals(prover.a@)[base + k]
                == prover.input_assignment@[k].v() && vals(prover.b@)[base + k] == 0 && vals(
                prover.c@,
            )[base + k] == 0 by {
                if k < i {
                    assert(prover.a@[base + k] == a_prev[base + k]);
                    assert(prover.b@[base + k] == b_prev[base + k]);
                    assert(prover.c@[base + k] == c_prev[base + k]);
                    assert(vals(a_prev)[base + k] == a_prev[base + k].0.v());
                    assert(vals(b_prev)[base + k] == b_prev[base + k].0.v());
                    assert(vals(c_prev)[base + k] == c_prev[base + k].0.v());
                } else {
                    assert(prover.a@[base + i] == Scalar(
                        Fr { repr: lc_val(lc_a@, ins, auxs) as u64 },
                    ));
                    assert(prover.b@[base + i] == Scalar(
                        Fr { repr: lc_val(lc_b@, ins, auxs) as u64 },
                    ));
                    assert(prover.c@[base + i] == Scalar(
                        Fr { repr: lc_val(lc_c@, ins, auxs) as u64 },
                    ));
                }
            }
        }
        i = i + 1;
    }

    proof {
        assert forall|k: int|
            0 <= k < ni implies vals(prover.a@)[prover.a@.len() - ni + k]
            == prover.input_assignment@[k].v() && vals(prover.b@)[prover.a@.len() - ni + k] == 0
            && vals(prover.c@)[prover.a@.len() - ni + k] == 0 by {
            assert(prover.a@.len() - ni + k == base + k);
            assert(vals(prover.a@)[base + k] == prover.input_assignment@[k].v());
            assert(vals(prover.b@)[base + k] == 0);
            assert(vals(prover.c@)[base + k] == 0);
        }
    }
    proof {
        let ni2 = prover.input_assignment@.len() as int;
        let base2 = prover.a@.len() - ni2;
        assert(base2 == base);
        assert(vals(prover.a@).subrange(base2, prover.a@.len() as int)
            =~= prover.input_assignment@.map_values(|f: Fr| f.v()));
        assert forall|k: int|
            0 <= k < ni2 implies vals(prover.b@).subrange(base2, prover.a@.len() as int)[k]
            == 0int by {
            assert(vals(prover.a@)[base + k] == prover.input_assignment@[k].v());
            assert(vals(prover.b@)[base + k] == 0);
        }
        assert forall|k: int|
            0 <= k < ni2 implies vals(prover.c@).subrange(base2, prover.a@.len() as int)[k]
            == 0int by {
            assert(vals(prover.a@)[base + k] == prover.input_assignment@[k].v());
            assert(vals(prover.c@)[base + k] == 0);
        }
        assert(vals(prover.b@).subrange(base2, prover.a@.len() as int) =~= Seq::new(
            ni2 as nat,
            |k: int| 0int,
        ));
        assert(vals(prover.c@).subrange(base2, prover.a@.len() as int) =~= Seq::new(
            ni2 as nat,
            |k: int| 0int,
        ));
    }
    Ok(PreparedProver { assignment: prover })
}

/// Draw one machine word from the process-wide generator.
///
/// Relies on rand::random: a uniformly distributed sample from the
/// thread-local RNG. Nothing can be promised of the value drawn; the
/// generator's first use aborts the process if the system entropy
/// source cannot be initialized.
#[verifier::external_body]
fn random_u64() -> u64 {
    rand::random::<u64>()
}

/// A uniform field element for blinding.
pub fn random_fr() -> (r: Fr)
    ensures
        r.wf(),
{
    Fr::from_u64(random_u64())
}

impl PreparedProver {
    /// Prove with randomizers drawn fresh from the system source: the
    /// result is the fully specified proving outcome for some
    /// well-formed pair of drawn randomizers.
    pub fn create_random_proof(self, params: &Parameters) -> (r: Result<Proof, SynthesisError>)
        requires
            self.assignment.wf(),
            params.wf(),
        ensures
            r matches Ok(p) ==> p.wf(),
            exists|rr: Fr, ss: Fr|
                rr.wf() && ss.wf() && (match spec_create_proof(
                    self.assignment,
                    *params,
                    rr,
                    ss,
                ) {
                    Ok(t) => r matches Ok(p) && p.a.pt() == t.0 && p.b.pt() == t.1 && p.c.pt()
                        == t.2,
                    Err(e) => r == Err::<Proof, SynthesisError>(e),
                }),
    {
        let ghost a_w = self.assignment;
        let rr = random_fr();
        let ss = random_fr();
        let res = self.create_proof(params, rr, ss);
        proof {
            assert(rr.wf() && ss.wf() && (match spec_create_proof(a_w, *params, rr, ss) {
                Ok(t) => res matches Ok(p) && p.a.pt() == t.0 && p.b.pt() == t.1 && p.c.pt()
                    == t.2,
                Err(e) => res == Err::<Proof, SynthesisError>(e),
            }));
        }
        res
    }

    /// Prove with the given blinding randomizers. The result — value or
    /// error — is exactly `spec_create_proof` of the inputs: the call is
    /// deterministic in the assignment, the parameters, r and s.
    pub fn create_proof(self, params: &Parameters, r: Fr, s: Fr) -> (res: Result<
        Proof,
        SynthesisError,
    >)
        requires
            self.assignment.wf(),
            params.wf(),
            r.wf(),
            s.wf(),
        ensures
            match spec_create_proof(self.assignment, *params, r, s) {
                Ok(triple) => res matches Ok(p) && p.wf() && p.a.pt() == triple.0 && p.b.pt()
                    == triple.1 && p.c.pt() == triple.2,
                Err(e) => res == Err::<Proof, SynthesisError>(e),
            },
    {
        create_proof_inner(self.assignment, params, r, s)
    }
}

/// The six multiexp weighted sums and the final assembly, written out
/// as one function of the frozen assignment, the parameters and the
/// randomizers. `create_proof` returns exactly this.
pub open spec fn spec_create_proof(
    pa: ProvingAssignment,
    params: Parameters,
    r: Fr,
    s: Fr,
) -> Result<(int, int, int), SynthesisError> {
    let il = pa.input_assignment@.len() as int;
    let al = pa.aux_assignment@.len() as int;
    let n = pa.a@.len() as int;
    let vk = params.vk;
    if vk.delta_g1.pt() == 0 || vk.delta_g2.pt() == 0 {
        Err(SynthesisError::UnexpectedIdentity)
    } else if n + 1 > pow2(27) {
        Err(SynthesisError::EvaluationDomainSizeError)
    } else {
        let exp = domain_exp((n + 1) as nat);
        let m = pow2(exp) as int;
        if !domain_invertible(exp) {
            Err(SynthesisError::DivisionByZero)
        } else if (field_inv(z_on_coset(exp)) * z_on_coset(exp)) % modulus() != 1 {
            Err(SynthesisError::DivisionByZero)
        } else if m - 1 > params.h@.len() {
            Err(SynthesisError::SourceExhausted)
        } else if al > params.l@.len() {
            Err(SynthesisError::SourceExhausted)
        } else {
            let a_aux_total = count_set(pa.a_aux_density@, al);
            let b_in_total = count_set(pa.b_input_density@, il);
            let b_aux_total = count_set(pa.b_aux_density@, al);
            if il + a_aux_total > params.a_query@.len() {
                Err(SynthesisError::SourceExhausted)
            } else if b_in_total + b_aux_total > params.b_g1_query@.len() {
                Err(SynthesisError::SourceExhausted)
            } else if b_in_total + b_aux_total > params.b_g2_query@.len() {
                Err(SynthesisError::SourceExhausted)
            } else {
                let hv = h_vals(vals(pa.a@), vals(pa.b@), vals(pa.c@), exp);
                let in_reprs = fr_reprs(pa.input_assignment@);
                let aux_reprs = fr_reprs(pa.aux_assignment@);
                let h_sum = msm(
                    pts(params.h@.subrange(0, m - 1)),
                    u64s(hv),
                    sel_of(None, m - 1),
                    m - 1,
                ) % modulus();
                let l_sum = msm(pts(params.l@.subrange(0, al)), aux_reprs, sel_of(None, al), al)
                    % modulus();
                let a_in_sum = msm(
                    pts(params.a_query@.subrange(0, il)),
                    in_reprs,
                    sel_of(None, il),
                    il,
                ) % modulus();
                let a_aux_sum = msm(
                    pts(params.a_query@.subrange(il, il + a_aux_total)),
                    aux_reprs,
                    pa.a_aux_density@,
                    al,
                ) % modulus();
                let b1_in_sum = msm(
                    pts(params.b_g1_query@.subrange(0, b_in_total)),
                    in_reprs,
                    pa.b_input_density@,
                    il,
                ) % modulus();
                let b1_aux_sum = msm(
                    pts(params.b_g1_query@.subrange(b_in_total, b_in_total + b_aux_total)),
                    aux_reprs,
                    pa.b_aux_density@,
                    al,
                ) % modulus();
                let b2_in_sum = msm(
                    pts(params.b_g2_query@.subrange(0, b_in_total)),
                    in_reprs,
                    pa.b_input_density@,
                    il,
                ) % modulus();
                let b2_aux_sum = msm(
                    pts(params.b_g2_query@.subrange(b_in_total, b_in_total + b_aux_total)),
                    aux_reprs,
                    pa.b_aux_density@,
                    al,
                ) % modulus();
                let a_answer = (a_in_sum + a_aux_sum) % modulus();
                let b1_answer = (b1_in_sum + b1_aux_sum) % modulus();
                let b2_answer = (b2_in_sum + b2_aux_sum) % modulus();
                let g_a = (((r.v() * vk.delta_g1.pt()) % modulus() + vk.alpha_g1.pt()) % modulus()
                    + a_answer) % modulus();
                let g_b = (((s.v() * vk.delta_g2.pt()) % modulus() + vk.beta_g2.pt()) % modulus()
                    + b2_answer) % modulus();
                let rs = (r.v() * s.v()) % modulus();
                let g_c0 = (rs * vk.delta_g1.pt()) % modulus();
                let g_c1 = (g_c0 + (s.v() * vk.alpha_g1.pt()) % modulus()) % modulus();
                let g_c2 = (g_c1 + (r.v() * vk.beta_g1.pt()) % modulus()) % modulus();
                let g_c3 = (g_c2 + (s.v() * a_answer) % modulus()) % modulus();
                let g_c4 = (g_c3 + (r.v() * b1_answer) % modulus()) % modulus();
                let g_c5 = (g_c4 + h_sum) % modulus();
                let g_c6 = (g_c5 + l_sum) % modulus();
                Ok((g_a, g_b, g_c6))
            }
        }
    }
}

/// The quotient-polynomial evaluations: interpolate A, B and C, move
/// them onto the coset, combine pointwise, divide by the vanishing
/// constant, interpolate back and drop the final garbage coefficient.
#[verifier::opaque]
pub open spec fn h_vals(av: Seq<int>, bv: Seq<int>, cv: Seq<int>, exp: nat) -> Seq<int> {
    let m = pow2(exp) as int;
    let wi = field_inv(domain_omega(exp));
    let mi = field_inv(pow2(exp) as int);
    let gi = field_inv(GENERATOR as int);
    let pad_a = av.add(Seq::new((m - av.len()) as nat, |i: int| 0int));
    let pad_b = bv.add(Seq::new((m - bv.len()) as nat, |i: int| 0int));
    let pad_c = cv.add(Seq::new((m - cv.len()) as nat, |i: int| 0int));
    let ta = dft_spec(distribute_spec(idft_spec(pad_a, wi, mi), GENERATOR as int), domain_omega(exp));
    let tb = dft_spec(distribute_spec(idft_spec(pad_b, wi, mi), GENERATOR as int), domain_omega(exp));
    let tc = dft_spec(distribute_spec(idft_spec(pad_c, wi, mi), GENERATOR as int), domain_omega(exp));
    let prod = Seq::new(m as nat, |i: int| (ta[i] * tb[i]) % modulus());
    let diff = Seq::new(m as nat, |i: int| (prod[i] - tc[i]) % modulus());
    let dived = scale_spec(diff, field_inv(z_on_coset(exp)));
    let back = distribute_spec(idft_spec(dived, wi, mi), gi);
    back.subrange(0, m - 1)
}

/// Convert a vector of field elements into canonical representations,
/// in worker-planned chunks.
pub fn field_elements_into_representations(worker: &Worker, scalars: Vec<Fr>) -> (r: Result<
    Vec<u64>,
    SynthesisError,
>)
    requires
        worker.wf(),
        all_fr_wf(scalars@),
    ensures
        r matches Ok(v) && v@ =~= fr_reprs(scalars@),
{
    let mut out: Vec<u64> = Vec::new();
    let mut i: usize = 0;
    let n = scalars.len();
    while i < n
        invariant
            n == scalars@.len(),
            i <= n,
            out@.len() == i,
            forall|k: int| 0 <= k < i ==> out@[k] == scalars@[k].repr,
        decreases n - i,
    {
        out.push(scalars[i].repr);
        i = i + 1;
    }
    Ok(out)
}

/// Convert a vector of evaluations into canonical representations, in
/// worker-planned chunks.
pub fn scalars_into_representations(worker: &Worker, scalars: Vec<Scalar>) -> (r: Result<
    Vec<u64>,
    SynthesisError,
>)
    requires
        worker.wf(),
        all_scalars_wf(scalars@),
    ensures
        r matches Ok(v) && v@ =~= u64s(vals(scalars@)),
{
    let mut out: Vec<u64> = Vec::new();
    let mut i: usize = 0;
    let n = scalars.len();
    while i < n
        invariant
            n == scalars@.len(),
            i <= n,
            out@.len() == i,
            forall|k: int| 0 <= k < i ==> out@[k] == scalars@[k].0.repr,
        decreases n - i,
    {
        out.push(scalars[i].0.repr);
        i = i + 1;
    }
    Ok(out)
}

/// Determinism: one assignment, one parameter set and one pair of
/// randomizers admit exactly one proving outcome. `create_proof` returns
/// `spec_create_proof` of its inputs, a function, so two calls on equal
/// inputs — whatever the thread-pool size behind them — agree bit for bit.
pub proof fn lemma_create_proof_deterministic(
    pa1: ProvingAssignment,
    params1: Parameters,
    r1: Fr,
    s1: Fr,
    pa2: ProvingAssignment,
    params2: Parameters,
    r2: Fr,
    s2: Fr,
)
    requires
        pa1 == pa2,
        params1 == params2,
        r1 == r2,
        s1 == s2,
    ensures
        spec_create_proof(pa1, params1, r1, s1) == spec_create_proof(pa2, params2, r2, s2),
{
}

/// Keep every coefficient but the last: the division leaves one garbage
/// coefficient past the quotient's true degree.
fn drop_last_coeff(v: Vec<Scalar>) -> (r: Vec<Scalar>)
    requires
        v@.len() >= 1,
    ensures
        r@ =~= v@.subrange(0, v@.len() - 1),
{
    let mut out: Vec<Scalar> = Vec::new();
    let n = v.len() - 1;
    let mut i: usize = 0;
    while i < n
        invariant
            n == v@.len() - 1,
            i <= n,
            out@.len() == i,
            forall|k: int| 0 <= k < i ==> out@[k] == v@[k],
        decreases n - i,
    {
        out.push(v[i]);
        i = i + 1;
    }
    out
}

/// Derive the quotient polynomial H from the three evaluation vectors
/// and hand back its canonical scalar representations.
#[verifier::rlimit(100)]
fn derive_h(a: Vec<Scalar>, b: Vec<Scalar>, c: Vec<Scalar>, worker: &Worker) -> (r: Result<
    Vec<u64>,
    SynthesisError,
>)
    requires
        worker.wf(),
        all_scalars_wf(a@),
        all_scalars_wf(b@),
        all_scalars_wf(c@),
        a@.len() == b@.len() == c@.len(),
    ensures
        ({
            let n = a@.len() as int;
            let exp = domain_exp((n + 1) as nat);
            &&& (n + 1 > pow2(27) ==> r == Err::<Vec<u64>, SynthesisError>(
                SynthesisError::EvaluationDomainSizeError,
            ))
            &&& (n + 1 <= pow2(27) && !domain_invertible(exp) ==> r == Err::<
                Vec<u64>,
                SynthesisError,
            >(SynthesisError::DivisionByZero))
            &&& (n + 1 <= pow2(27) && domain_invertible(exp) && (field_inv(z_on_coset(exp))
                * z_on_coset(exp)) % modulus() != 1 ==> r == Err::<Vec<u64>, SynthesisError>(
                SynthesisError::DivisionByZero,
            ))
            &&& (n + 1 <= pow2(27) && domain_invertible(exp) && (field_inv(z_on_coset(exp))
                * z_on_coset(exp)) % modulus() == 1 ==> (r matches Ok(v) && v@ =~= u64s(
                h_vals(vals(a@), vals(b@), vals(c@), exp),
            ) && v@.len() == pow2(exp) - 1))
        }),
{
    let ghost av = a@;
    let ghost bv0 = b@;
    let ghost cv0 = c@;
    let mut ad = match EvaluationDomain::from_coeffs(a) {
        Ok(d) => d,
        Err(e) => {
            return Err(e);
        },
    };
    let ghost exp = ad.exp as nat;
    let mut bd = match EvaluationDomain::from_coeffs(b) {
        Ok(d) => d,
        Err(e) => {
            proof {
                assert(false);
            }
            return Err(e);
        },
    };
    let mut cd = match EvaluationDomain::from_coeffs(c) {
        Ok(d) => d,
        Err(e) => {
            proof {
                assert(false);
            }
            return Err(e);
        },
    };

    ad.ifft(worker);
    ad.coset_fft(worker);
    bd.ifft(worker);
    bd.coset_fft(worker);
    cd.ifft(worker);
    cd.coset_fft(worker);

    ad.mul_assign(worker, &bd);
    ad.sub_assign(worker, &cd);
    match ad.divide_by_z_on_coset(worker) {
        Ok(_) => {},
        Err(e) => {
            return Err(e);
        },
    }
    ad.icoset_fft(worker);
    proof {
        lemma_pow2_pos(exp);
    }
    let hcoeffs = drop_last_coeff(ad.into_coeffs());
    proof {
        reveal(h_vals);
        assert(vals(hcoeffs@) =~= h_vals(vals(av), vals(bv0), vals(cv0), exp));
    }
    match scalars_into_representations(worker, hcoeffs) {
        Ok(v) => Ok(v),
        Err(e) => {
            proof {
                assert(false);
            }
            Err(e)
        },
    }
}

#[verifier::rlimit(100)]
fn create_proof_inner(pa: ProvingAssignment, params: &Parameters, r: Fr, s: Fr) -> (res: Result<
    Proof,
    SynthesisError,
>)
    requires
        pa.wf(),
        params.wf(),
        r.wf(),
        s.wf(),
    ensures
        match spec_create_proof(pa, *params, r, s) {
            Ok(triple) => res matches Ok(p) && p.wf() && p.a.pt() == triple.0 && p.b.pt()
                == triple.1 && p.c.pt() == triple.2,
            Err(e) => res == Err::<Proof, SynthesisError>(e),
        },
{
    let ghost pa0 = pa;
    let ghost av = pa.a@;
    let ghost bv0 = pa.b@;
    let ghost cv0 = pa.c@;
    let ghost iv = pa.input_assignment@;
    let ghost xv = pa.aux_assignment@;

    let worker = Worker::new();
    let ProvingAssignment {
        a_aux_density,
        b_input_density,
        b_aux_density,
        a,
        b,
        c,
        input_assignment,
        aux_assignment,
    } = pa;

    let vk = match params.get_vk(input_assignment.len()) {
        Ok(vk) => vk,
        Err(e) => {
            proof {
                assert(false);
            }
            return Err(e);
        },
    };
    if vk.delta_g1.is_zero() || vk.delta_g2.is_zero() {
        // A zero delta signals a subverted setup: refuse before any
        // multiexp work is dispatched.
        return Err(SynthesisError::UnexpectedIdentity);
    }

    let h_reprs = match derive_h(a, b, c, &worker) {
        Ok(v) => v,
        Err(e) => {
            return Err(e);
        },
    };
    let h_source = match params.get_h(h_reprs.len()) {
        Ok(v) => v,
        Err(e) => {
            return Err(e);
        },
    };
    proof {
        assert forall|k: int| 0 <= k < h_source@.len() implies (#[trigger] h_source@[k]).wf() by {
            assert(h_source@[k] == params.h@[k]);
        }
    }
    proof {
        let hn = h_reprs@.len() as int;
        assert forall|k: int| 0 <= k < hn implies sel_of(None, hn)[k] by {}
        crate::multiexp::lemma_count_all_true(sel_of(None, hn), hn);
    }
    let h = multiexp(&worker, h_source, None, &h_reprs);

    let input_reprs = match field_elements_into_representations(&worker, input_assignment) {
        Ok(v) => v,
        Err(e) => {
            proof {
                assert(false);
            }
            return Err(e);
        },
    };
    let aux_reprs = match field_elements_into_representations(&worker, aux_assignment) {
        Ok(v) => v,
        Err(e) => {
            proof {
                assert(false);
            }
            return Err(e);
        },
    };

    let l_source = match params.get_l(aux_reprs.len()) {
        Ok(v) => v,
        Err(e) => {
            return Err(e);
        },
    };
    proof {
        assert forall|k: int| 0 <= k < l_source@.len() implies (#[trigger] l_source@[k]).wf() by {
            assert(l_source@[k] == params.l@[k]);
        }
    }
    proof {
        let ln = aux_reprs@.len() as int;
        assert forall|k: int| 0 <= k < ln implies sel_of(None, ln)[k] by {}
        crate::multiexp::lemma_count_all_true(sel_of(None, ln), ln);
    }
    let l = multiexp(&worker, l_source, None, &aux_reprs);

    let a_aux_total = a_aux_density.get_total_density();
    let (a_in_src, a_aux_src) = match params.get_a(input_reprs.len(), a_aux_total) {
        Ok(p) => p,
        Err(e) => {
            return Err(e);
        },
    };
    proof {
        assert forall|k: int| 0 <= k < a_in_src@.len() implies (#[trigger] a_in_src@[k]).wf() by {
            assert(a_in_src@[k] == params.a_query@[k]);
        }
        assert forall|k: int| 0 <= k < a_aux_src@.len() implies (#[trigger] a_aux_src@[k]).wf() by {
            assert(a_aux_src@[k] == params.a_query@[iv.len() + k]);
        }
    }
    proof {
        let an = input_reprs@.len() as int;
        assert forall|k: int| 0 <= k < an implies sel_of(None, an)[k] by {}
        crate::multiexp::lemma_count_all_true(sel_of(None, an), an);
    }
    let a_inputs = multiexp(&worker, a_in_src, None, &input_reprs);
    let a_aux = multiexp(&worker, a_aux_src, Some(&a_aux_density), &aux_reprs);

    let b_in_total = b_input_density.get_total_density();
    let b_aux_total = b_aux_density.get_total_density();
    let (b1_in_src, b1_aux_src) = match params.get_b_g1(b_in_total, b_aux_total) {
        Ok(p) => p,
        Err(e) => {
            return Err(e);
        },
    };
    proof {
        assert forall|k: int| 0 <= k < b1_in_src@.len() implies (#[trigger] b1_in_src@[k]).wf() by {
            assert(b1_in_src@[k] == params.b_g1_query@[k]);
        }
        assert forall|k: int| 0 <= k < b1_aux_src@.len() implies (#[trigger] b1_aux_src@[k]).wf()
            by {
            assert(b1_aux_src@[k] == params.b_g1_query@[count_set(pa0.b_input_density@, iv.len() as int) + k]);
        }
    }
    let b_g1_inputs = multiexp(&worker, b1_in_src, Some(&b_input_density), &input_reprs);
    let b_g1_aux = multiexp(&worker, b1_aux_src, Some(&b_aux_density), &aux_reprs);

    let (b2_in_src, b2_aux_src) = match params.get_b_g2(b_in_total, b_aux_total) {
        Ok(p) => p,
        Err(e) => {
            return Err(e);
        },
    };
    proof {
        assert forall|k: int| 0 <= k < b2_in_src@.len() implies (#[trigger] b2_in_src@[k]).wf() by {
            assert(b2_in_src@[k] == params.b_g2_query@[k]);
        }
        assert forall|k: int| 0 <= k < b2_aux_src@.len() implies (#[trigger] b2_aux_src@[k]).wf()
            by {
            assert(b2_aux_src@[k] == params.b_g2_query@[count_set(pa0.b_input_density@, iv.len() as int) + k]);
        }
    }
    let b_g2_inputs = multiexp(&worker, b2_in_src, Some(&b_input_density), &input_reprs);
    let b_g2_aux = multiexp(&worker, b2_aux_src, Some(&b_aux_density), &aux_reprs);

    // Join in fixed order and assemble.
    let h_g = match h.wait() {
        Ok(g) => g,
        Err(e) => {
            proof {
                assert(false);
            }
            return Err(e);
        },
    };
    let l_g = match l.wait() {
        Ok(g) => g,
        Err(e) => {
            proof {
                assert(false);
            }
            return Err(e);
        },
    };
    let a_in_g = match a_inputs.wait() {
        Ok(g) => g,
        Err(e) => {
            proof {
                assert(false);
            }
            return Err(e);
        },
    };
    let a_aux_g = match a_aux.wait() {
        Ok(g) => g,
        Err(e) => {
            proof {
                assert(false);
            }
            return Err(e);
        },
    };
    let b1_in_g = match b_g1_inputs.wait() {
        Ok(g) => g,
        Err(e) => {
            proof {
                assert(false);
            }
            return Err(e);
        },
    };
    let b1_aux_g = match b_g1_aux.wait() {
        Ok(g) => g,
        Err(e) => {
            proof {
                assert(false);
            }
            return Err(e);
        },
    };
    let b2_in_g = match b_g2_inputs.wait() {
        Ok(g) => g,
        Err(e) => {
            proof {
                assert(false);
            }
            return Err(e);
        },
    };
    let b2_aux_g = match b_g2_aux.wait() {
        Ok(g) => g,
        Err(e) => {
            proof {
                assert(false);
            }
            return Err(e);
        },
    };

    let a_answer = a_in_g.add(a_aux_g);
    let b1_answer = b1_in_g.add(b1_aux_g);
    let b2_answer = b2_in_g.add(b2_aux_g);

    let g_a = vk.delta_g1.mul_fr(r).add(vk.alpha_g1).add(a_answer);
    let g_b = vk.delta_g2.mul_fr(s).add(vk.beta_g2).add(b2_answer);
    let rs = r.mul(s);
    let g_c = vk.delta_g1.mul_fr(rs).add(vk.alpha_g1.mul_fr(s)).add(vk.beta_g1.mul_fr(r)).add(
        a_answer.mul_fr(s),
    ).add(b1_answer.mul_fr(r)).add(h_g).add(l_g);

    Ok(Proof { a: g_a, b: g_b, c: g_c })
}

/// Prove a circuit with randomizers drawn fresh from the system source:
/// a proof, when one comes back, is the fully specified proving outcome
/// of some well-formed assignment and some well-formed pair of drawn
/// randomizers.
pub fn create_random_proof<C: Circuit>(circuit: &C, params: &Parameters) -> (r: Result<
    Proof,
    SynthesisError,
>)
    requires
        params.wf(),
    ensures
        r matches Ok(p) ==> p.wf(),
        r matches Ok(p) ==> exists|pa: ProvingAssignment, rr: Fr, ss: Fr|
            pa.wf() && rr.wf() && ss.wf() && pa.input_assignment@.len() >= 1
                && pa.input_assignment@[0].v() == 1 && spec_create_proof(pa, *params, rr, ss)
                == Ok::<(int, int, int), SynthesisError>((p.a.pt(), p.b.pt(), p.c.pt())),
{
    let rr = random_fr();
    let ss = random_fr();
    let res = create_proof(circuit, params, rr, ss);
    proof {
        match res {
            Ok(p) => {
                let pa_w = choose|pa: ProvingAssignment|
                    pa.wf() && pa.input_assignment@.len() >= 1 && pa.input_assignment@[0].v() == 1
                        && spec_create_proof(pa, *params, rr, ss) == Ok::<
                        (int, int, int),
                        SynthesisError,
                    >((p.a.pt(), p.b.pt(), p.c.pt()));
                assert(pa_w.wf() && rr.wf() && ss.wf() && pa_w.input_assignment@.len() >= 1
                    && pa_w.input_assignment@[0].v() == 1 && spec_create_proof(
                    pa_w,
                    *params,
                    rr,
                    ss,
                ) == Ok::<(int, int, int), SynthesisError>((p.a.pt(), p.b.pt(), p.c.pt())));
            },
            Err(_) => {},
        }
    }
    res
}

/// Synthesize and prove in one call: a proof, when one comes back, is
/// the fully specified proving outcome of some well-formed assignment
/// whose first input is the pinned "one" wire.
pub fn create_proof<C: Circuit>(circuit: &C, params: &Parameters, r: Fr, s: Fr) -> (res: Result<
    Proof,
    SynthesisError,
>)
    requires
        params.wf(),
        r.wf(),
        s.wf(),
    ensures
        res matches Ok(p) ==> p.wf(),
        res matches Ok(p) ==> exists|pa: ProvingAssignment|
            pa.wf() && pa.input_assignment@.len() >= 1 && pa.input_assignment@[0].v() == 1
                && spec_create_proof(pa, *params, r, s) == Ok::<(int, int, int), SynthesisError>(
                (p.a.pt(), p.b.pt(), p.c.pt()),
            ),
{
    let prover = match prepare_prover(circuit) {
        Ok(p) => p,
        Err(e) => {
            return Err(e);
        },
    };
    let ghost pa_w = prover.assignment;
    let res = prover.create_proof(params, r, s);
    proof {
        match res {
            Ok(p) => {
                assert(pa_w.wf() && pa_w.input_assignment@.len() >= 1
                    && pa_w.input_assignment@[0].v() == 1 && spec_create_proof(
                    pa_w,
                    *params,
                    r,
                    s,
                ) == Ok::<(int, int, int), SynthesisError>((p.a.pt(), p.b.pt(), p.c.pt())));
            },
            Err(_) => {},
        }
    }
    res
}

} // verus!
