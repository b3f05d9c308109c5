use vstd::prelude::*;

verus! {

/// Number of observations buffered before a merge is forced.
pub const BUFFER_CAPACITY: usize = 32;

/// Abstract state of an [`Amortizer`]: the observations waiting to be merged,
/// in the order they were recorded, and how many observations the held
/// digest already represents.
pub ghost struct AmortizerState {
    pub pending: Seq<u64>,
    pub merged: nat,
}

impl AmortizerState {
    /// The buffer never holds a full batch between operations.
    pub open spec fn wf(self) -> bool {
        self.pending.len() < BUFFER_CAPACITY
    }

    /// Number of observations recorded since the held digest was last emptied.
    pub open spec fn count(self) -> nat {
        self.merged + self.pending.len()
    }
}

/// State after recording one observation: it is appended to the buffer, and a
/// buffer that becomes full is merged at once.
pub open spec fn observe_next(s: AmortizerState, value: u64) -> AmortizerState {
    if s.pending.len() + 1 == BUFFER_CAPACITY {
        AmortizerState { pending: Seq::empty(), merged: (s.merged + BUFFER_CAPACITY) as nat }
    } else {
        AmortizerState { pending: s.pending.push(value), merged: s.merged }
    }
}

/// Batch handed out for merging when `value` is recorded in state `s`: the
/// full buffer, or nothing.
pub open spec fn observe_batch(s: AmortizerState, value: u64) -> Seq<u64> {
    if s.pending.len() + 1 == BUFFER_CAPACITY {
        s.pending.push(value)
    } else {
        Seq::empty()
    }
}

/// State after merging every pending observation into the held digest.
pub open spec fn flush_next(s: AmortizerState) -> AmortizerState {
    AmortizerState { pending: Seq::empty(), merged: s.count() }
}

/// State after a reset: nothing pending and an empty held digest.
pub open spec fn reset_next(s: AmortizerState) -> AmortizerState {
    AmortizerState { pending: Seq::empty(), merged: 0 }
}

/// State after recording `values` one at a time, first to last.
pub open spec fn observe_all(s: AmortizerState, values: Seq<u64>) -> AmortizerState
    decreases values.len(),
{
    if values.len() == 0 {
        s
    } else {
        observe_next(observe_all(s, values.drop_last()), values.last())
    }
}

/// Concatenation of the batches handed out while recording `values` one at a
/// time from state `s`.
pub open spec fn handed_out(s: AmortizerState, values: Seq<u64>) -> Seq<u64>
    decreases values.len(),
{
    if values.len() == 0 {
        Seq::empty()
    } else {
        handed_out(s, values.drop_last()) + observe_batch(
            observe_all(s, values.drop_last()),
            values.last(),
        )
    }
}

/// Buffering and flush decisions of a digest recorder.
///
/// The digest itself is held beside this value by its owner; each operation
/// returns the batch that the owner must merge into that digest.
pub struct Amortizer {
    pending: Vec<u64>,
    merged: u64,
}

impl View for Amortizer {
    type V = AmortizerState;

    closed spec fn view(&self) -> AmortizerState {
        AmortizerState { pending: self.pending@, merged: self.merged as nat }
    }
}

impl Amortizer {
    /// The buffer never holds a full batch, and the number of observations
    /// recorded since the held digest was last emptied fits in a `u64`.
    #[verifier::type_invariant]
    spec fn inv(&self) -> bool {
        &&& self.pending.len() < BUFFER_CAPACITY
        &&& self.merged + self.pending.len() <= u64::MAX
    }

    /// A recorder with an empty buffer and an empty held digest.
    pub fn new() -> (r: Amortizer)
        ensures
            r@.pending == Seq::<u64>::empty(),
            r@.merged == 0,
            r@.wf(),
    {
        Amortizer { pending: Vec::new(), merged: 0 }
    }

    /// Number of observations waiting in the buffer.
    pub fn pending_len(&self) -> (r: usize)
        ensures
            r == self@.pending.len(),
            r < BUFFER_CAPACITY,
    {
        proof {
            use_type_invariant(self);
        }
        self.pending.len()
    }

    /// Number of observations recorded since the held digest was last emptied,
    /// merged or still pending.
    pub fn count(&self) -> (r: u64)
        ensures
            r == self@.count(),
    {
        proof {
            use_type_invariant(self);
        }
        self.merged + self.pending.len() as u64
    }

    /// Records one observation. When the buffer becomes full, the whole
    /// batch, this observation last, is returned for merging into the held
    /// digest and the buffer starts over empty.
    pub fn observe(&mut self, value: u64) -> (r: Option<Vec<u64>>)
        requires
            old(self)@.count() < u64::MAX,
        ensures
            final(self)@ == observe_next(old(self)@, value),
            final(self)@.wf(),
            final(self)@.count() == old(self)@.count() + 1,
            match r {
                Some(batch) => old(self)@.pending.len() + 1 == BUFFER_CAPACITY && batch@
                    == observe_batch(old(self)@, value),
                None => old(self)@.pending.len() + 1 < BUFFER_CAPACITY,
            },
    {
        proof {
            use_type_invariant(&*self);
        }
        let mut batch: Vec<u64> = Vec::new();
        std::mem::swap(&mut batch, &mut self.pending);
        batch.push(value);
        if batch.len() == BUFFER_CAPACITY {
            self.merged = self.merged + BUFFER_CAPACITY as u64;
            Some(batch)
        } else {
            self.pending = batch;
            None
        }
    }

    /// Hands out every pending observation, in recording order, for merging
    /// into the held digest. The batch is empty when nothing is pending.
    pub fn flush(&mut self) -> (batch: Vec<u64>)
        ensures
            batch@ == old(self)@.pending,
            final(self)@ == flush_next(old(self)@),
            final(self)@.wf(),
    {
        proof {
            use_type_invariant(&*self);
        }
        let mut batch: Vec<u64> = Vec::new();
        std::mem::swap(&mut batch, &mut self.pending);
        self.merged = self.merged + batch.len() as u64;
        batch
    }

    /// Hands out the pending observations, which complete the snapshot of the
    /// held digest, together with the number of observations that snapshot
    /// represents; afterwards the held digest is empty.
    pub fn reset(&mut self) -> (r: (Vec<u64>, u64))
        ensures
            r.0@ == old(self)@.pending,
            r.1 == old(self)@.count(),
            final(self)@ == reset_next(old(self)@),
            final(self)@.wf(),
            final(self)@.count() == 0,
    {
        let count = self.count();
        let mut batch: Vec<u64> = Vec::new();
        std::mem::swap(&mut batch, &mut self.pending);
        self.merged = 0;
        (batch, count)
    }
}

/// Recording observations keeps the buffer below a full batch, and every
/// recorded observation is counted exactly once.
pub proof fn lemma_observe_all_count(s: AmortizerState, values: Seq<u64>)
    requires
        s.wf(),
    ensures
        observe_all(s, values).wf(),
        observe_all(s, values).count() == s.count() + values.len(),
    decreases values.len(),
{
    if values.len() > 0 {
        lemma_observe_all_count(s, values.drop_last());
    }
}

/// No observation is lost, duplicated or reordered: the batches handed out
/// while recording, followed by what is still pending, are exactly what was
/// pending before followed by the recorded values.
pub proof fn lemma_observations_preserved(s: AmortizerState, values: Seq<u64>)
    requires
        s.wf(),
    ensures
        handed_out(s, values) + observe_all(s, values).pending == s.pending + values,
    decreases values.len(),
{
    if values.len() > 0 {
        let xs = values.drop_last();
        let v = values.last();
        lemma_observations_preserved(s, xs);
        lemma_observe_all_count(s, xs);
        let mid = observe_all(s, xs);
        assert(values == xs.push(v));
        if mid.pending.len() + 1 == BUFFER_CAPACITY {
            assert(handed_out(s, values) == handed_out(s, xs) + mid.pending.push(v));
            assert(observe_all(s, values).pending == Seq::<u64>::empty());
            assert(handed_out(s, xs) + mid.pending.push(v) + Seq::<u64>::empty() =~= (
            handed_out(s, xs) + mid.pending).push(v));
            assert(s.pending + values =~= (s.pending + xs).push(v));
        } else {
            assert(handed_out(s, values) =~= handed_out(s, xs));
            assert(observe_all(s, values).pending == mid.pending.push(v));
            assert(handed_out(s, xs) + mid.pending.push(v) =~= (handed_out(s, xs)
                + mid.pending).push(v));
            assert(s.pending + values =~= (s.pending + xs).push(v));
        }
    } else {
        assert(handed_out(s, values) + observe_all(s, values).pending =~= s.pending + values);
    }
}

/// After a flush nothing is pending and the held digest represents every
/// observation recorded since it was last emptied.
pub proof fn lemma_flush_merges_all(s: AmortizerState)
    requires
        s.wf(),
    ensures
        flush_next(s).pending.len() == 0,
        flush_next(s).merged == s.count(),
        flush_next(s).count() == s.count(),
{
}

/// A reset returns a snapshot of everything recorded since the previous
/// reset; a second reset with no observation in between returns an empty
/// snapshot.
pub proof fn lemma_reset_twice(s: AmortizerState, value: u64)
    requires
        s.wf(),
    ensures
        observe_next(s, value).count() == s.count() + 1,
        reset_next(observe_next(s, value)).count() == 0,
        reset_next(reset_next(observe_next(s, value))).count() == 0,
{
}

} // verus!
