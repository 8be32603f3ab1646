//! Per-variable density bookkeeping.
//!
//! One tracker is aligned 1:1 with an assignment vector; a flag is set
//! when the variable's position contributed a nonzero term to the tracked
//! query. The total density sizes the base sequence a sparse query fetches
//! from the parameter source, and tells the multiexp engine which scalar
//! positions contribute at all.

use vstd::prelude::*;

verus! {

/// Counts, for one query, which variable positions were ever touched.
#[derive(Clone, Debug)]
pub struct DensityTracker {
    pub bv: Vec<bool>,
    pub total_density: usize,
}

/// The number of set flags among the first `n` entries.
pub open spec fn count_set(s: Seq<bool>, n: int) -> int
    decreases n,
{
    if n <= 0 {
        0
    } else {
        count_set(s, n - 1) + if s[n - 1] {
            1int
        } else {
            0int
        }
    }
}

/// Counts never exceed the number of entries counted over.
pub proof fn lemma_count_set_bound(s: Seq<bool>, n: int)
    requires
        0 <= n <= s.len(),
    ensures
        0 <= count_set(s, n) <= n,
    decreases n,
{
    if n > 0 {
        lemma_count_set_bound(s, n - 1);
    }
}

/// A count is insensitive to entries at or beyond its range.
pub proof fn lemma_count_set_update_beyond(s: Seq<bool>, n: int, i: int, v: bool)
    requires
        0 <= n <= i < s.len(),
    ensures
        count_set(s.update(i, v), n) == count_set(s, n),
    decreases n,
{
    if n > 0 {
        lemma_count_set_update_beyond(s, n - 1, i, v);
    }
}

/// Setting an already-set flag changes no count; setting a clear flag
/// raises by one every count that covers it.
pub proof fn lemma_count_set_update(s: Seq<bool>, n: int, i: int)
    requires
        0 <= i < n <= s.len(),
    ensures
        count_set(s.update(i, true), n) == count_set(s, n) + if s[i] {
            0int
        } else {
            1int
        },
    decreases n,
{
    if i == n - 1 {
        lemma_count_set_update_beyond(s, n - 1, i, true);
    } else {
        lemma_count_set_update(s, n - 1, i);
    }
}

impl DensityTracker {
    pub open spec fn wf(&self) -> bool {
        self.total_density == count_set(self.bv@, self.bv@.len() as int)
    }

    /// The view of a tracker: which positions have been touched.
    pub open spec fn view(&self) -> Seq<bool> {
        self.bv@
    }

    pub fn new() -> (r: DensityTracker)
        ensures
            r.wf(),
            r@ =~= Seq::<bool>::empty(),
    {
        DensityTracker { bv: Vec::new(), total_density: 0 }
    }

    /// Append the flag for a freshly allocated variable; it starts clear.
    pub fn add_element(&mut self)
        requires
            old(self).wf(),
        ensures
            final(self).wf(),
            final(self)@ =~= old(self)@.push(false),
    {
        self.bv.push(false);
        proof {
            assert(count_set(self.bv@, self.bv@.len() as int) == count_set(
                self.bv@,
                self.bv@.len() - 1,
            ));
            assert(count_set(self.bv@, self.bv@.len() - 1) == count_set(
                old(self).bv@,
                old(self).bv@.len() as int,
            )) by {
                lemma_count_set_prefix(old(self).bv@.push(false), old(self).bv@, old(
                    self,
                ).bv@.len() as int);
            }
        }
    }

    /// Record that position `i` contributed a nonzero term.
    pub fn inc(&mut self, i: usize)
        requires
            old(self).wf(),
            i < old(self)@.len(),
        ensures
            final(self).wf(),
            final(self)@ =~= old(self)@.update(i as int, true),
    {
        if !self.bv[i] {
            self.bv.set(i, true);
            let n = self.bv.len();
            proof {
                lemma_count_set_bound(old(self).bv@, old(self).bv@.len() as int);
                lemma_count_set_update(old(self).bv@, old(self).bv@.len() as int, i as int);
                lemma_count_set_bound(self.bv@, self.bv@.len() as int);
                assert(self.total_density < n);
            }
            self.total_density = self.total_density + 1;
        } else {
            proof {
                assert(self.bv@ =~= self.bv@.update(i as int, true));
            }
        }
    }

    /// How many distinct positions were ever touched.
    pub fn get_total_density(&self) -> (r: usize)
        requires
            self.wf(),
        ensures
            r == count_set(self@, self@.len() as int),
    {
        self.total_density
    }

    pub fn len(&self) -> (r: usize)
        ensures
            r == self@.len(),
    {
        self.bv.len()
    }

    /// Whether position `i` has been touched.
    pub fn get(&self, i: usize) -> (r: bool)
        requires
            i < self@.len(),
        ensures
            r == self@[i as int],
    {
        self.bv[i]
    }
}

/// Two sequences that agree below `n` have the same count below `n`.
pub proof fn lemma_count_set_prefix(s: Seq<bool>, t: Seq<bool>, n: int)
    requires
        0 <= n <= s.len(),
        n <= t.len(),
        forall|k: int| 0 <= k < n ==> s[k] == t[k],
    ensures
        count_set(s, n) == count_set(t, n),
    decreases n,
{
    if n > 0 {
        lemma_count_set_prefix(s, t, n - 1);
    }
}

/// Touching a position twice is the same as touching it once: the
/// tracked state, and hence the total density, ignores duplicates.
pub proof fn lemma_density_duplicate_insensitive(s: Seq<bool>, i: int)
    requires
        0 <= i < s.len(),
    ensures
        s.update(i, true).update(i, true) =~= s.update(i, true),
{
}

/// Touches at two positions commute: the tracked state, and hence the
/// total density, does not depend on the order of `inc` calls.
pub proof fn lemma_density_order_insensitive(s: Seq<bool>, i: int, j: int)
    requires
        0 <= i < s.len(),
        0 <= j < s.len(),
    ensures
        s.update(i, true).update(j, true) =~= s.update(j, true).update(i, true),
{
}

} // verus!
