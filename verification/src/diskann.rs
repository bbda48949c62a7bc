//! The bookkeeping of the simulated DiskANN index: how many vectors it has
//! stored, and which ids a search round probes.
use vstd::prelude::*;
use crate::sampling::sample_ids;

verus! {

/// The count that the index keeps of the vectors it has stored. Like an
/// atomic counter, it wraps around at `usize::MAX`.
pub struct DiskAnnState {
    num_vectors: usize,
}

impl View for DiskAnnState {
    type V = nat;

    closed spec fn view(&self) -> nat {
        self.num_vectors as nat
    }
}

/// The count after one more vector is stored.
pub open spec fn count_after_store(count: nat) -> nat {
    if count == usize::MAX {
        0
    } else {
        count + 1
    }
}

/// Storing a vector adds exactly one to the count, modulo `2^BITS` as an
/// atomic counter does: below the top the count goes up by one, and only at
/// `usize::MAX` does it wrap to zero.
pub proof fn lemma_store_adds_one(count: nat)
    requires
        count <= usize::MAX,
    ensures
        count_after_store(count) == (count + 1) % (usize::MAX as nat + 1),
        count < usize::MAX ==> count_after_store(count) == count + 1,
        count_after_store(count) <= usize::MAX,
{
    if count < usize::MAX {
        assert((count + 1) % (usize::MAX as nat + 1) == count + 1) by {
            vstd::arithmetic::div_mod::lemma_small_mod((count + 1) as nat, (usize::MAX as nat + 1) as nat);
        }
    } else {
        assert((count + 1) % (usize::MAX as nat + 1) == 0) by {
            vstd::arithmetic::div_mod::lemma_mod_self_0((usize::MAX as nat + 1) as int);
        }
    }
}

/// The count after `k` vectors are stored, starting from `count`.
pub open spec fn count_after_stores(count: nat, k: nat) -> nat
    decreases k,
{
    if k == 0 {
        count
    } else {
        count_after_store(count_after_stores(count, (k - 1) as nat))
    }
}

/// Storing `k` vectors adds `k` to the count, modulo `2^BITS`.
pub proof fn lemma_stores_add_up(count: nat, k: nat)
    requires
        count <= usize::MAX,
    ensures
        count_after_stores(count, k) == (count + k) % (usize::MAX as nat + 1),
    decreases k,
{
    let m = (usize::MAX as nat + 1) as int;
    if k == 0 {
        vstd::arithmetic::div_mod::lemma_small_mod(count, m as nat);
    } else {
        lemma_stores_add_up(count, (k - 1) as nat);
        let x = count + k - 1;
        let prev = count_after_stores(count, (k - 1) as nat);
        assert(prev == x % m);
        vstd::arithmetic::div_mod::lemma_mod_bound(x, m);
        lemma_store_adds_one(prev);
        vstd::arithmetic::div_mod::lemma_add_mod_noop(x, 1, m);
        vstd::arithmetic::div_mod::lemma_small_mod(1, m as nat);
    }
}

impl DiskAnnState {
    /// An index that has stored nothing.
    pub fn new() -> (s: Self)
        ensures
            s@ == 0,
    {
        DiskAnnState { num_vectors: 0 }
    }

    /// The number of vectors stored so far.
    pub fn num_vectors(&self) -> (n: usize)
        ensures
            n == self@,
    {
        self.num_vectors
    }

    /// Counts one more stored vector.
    pub fn record_stored(&mut self)
        ensures
            final(self)@ == count_after_store(old(self)@),
    {
        if self.num_vectors == usize::MAX {
            self.num_vectors = 0;
        } else {
            self.num_vectors = self.num_vectors + 1;
        }
    }

    /// The ids that one round of the simulated search probes: `beamwidth`
    /// random ids below the current count.
    pub fn probe_ids(&self, beamwidth: usize) -> (ids: Vec<usize>)
        requires
            beamwidth > 0 ==> self@ > 0,
        ensures
            ids@.len() == beamwidth,
            forall|i: int| 0 <= i < beamwidth ==> #[trigger] ids@[i] < self@,
    {
        sample_ids(beamwidth, self.num_vectors)
    }
}

} // verus!
