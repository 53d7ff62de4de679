//! The far-end reference ring: a fixed-capacity buffer of mono samples addressed
//! by an absolute sample index that never wraps.
//!
//! The engine feeds every far-end sample here and reads aligned spans back out
//! of it. Addressing is by absolute index (total samples ever pushed), so the
//! alignment bookkeeping in the engine is plain integer arithmetic that is
//! immune to the ring's internal wrap. When the buffer is full a push overwrites
//! the oldest retained sample; the number of samples dropped that way is derived
//! from the absolute counter, so it needs no separate bookkeeping.

use vstd::arithmetic::div_mod::lemma_fundamental_div_mod;
use vstd::prelude::*;

use crate::sample::Sample;

verus! {

/// A fixed-capacity ring of far-end reference samples, addressed by absolute
/// index.
///
/// Absolute index `a` (with `0 <= a < next_abs`) is the `a`-th sample ever
/// pushed. The buffer retains only the most recent `capacity` samples: sample
/// `a` is held while `a >= next_abs - capacity`. A read of an index that has
/// been dropped (too old) or not yet been pushed (in the future) returns
/// [`None`], which the engine renders as a starved (silent) sample.
pub struct ReferenceRing {
    /// The retained samples; absolute index `a` sits in slot `a % capacity`.
    pub buf: Vec<Sample>,
    /// The retained depth in samples.
    pub capacity: usize,
    /// The number of samples ever pushed.
    pub next_abs: u64,
}

impl ReferenceRing {
    /// The buffer holds exactly one slot per retained sample.
    pub open spec fn wf(self) -> bool {
        &&& self.capacity > 0
        &&& self.buf@.len() == self.capacity
    }

    /// The absolute index of the oldest retained sample.
    pub open spec fn oldest(self) -> int {
        if self.next_abs > self.capacity {
            self.next_abs - self.capacity
        } else {
            0
        }
    }

    /// The sample at absolute index `abs`, when it is retained.
    pub open spec fn at(self, abs: int) -> Option<Sample> {
        if self.oldest() <= abs < self.next_abs {
            Some(self.buf@[abs % self.capacity as int])
        } else {
            None
        }
    }

    /// What index `abs` reads once `samples` have been pushed after `self`.
    pub open spec fn at_after_push(self, samples: Seq<Sample>, abs: int) -> Option<Sample> {
        let next: int = self.next_abs + samples.len();
        if abs < 0 || abs >= next || abs < next - self.capacity {
            None
        } else if abs < self.next_abs {
            self.at(abs)
        } else {
            Some(samples[abs - self.next_abs])
        }
    }

    /// Whether two rings hold the same history: the same depth, the same frontier,
    /// and the same sample at every absolute index.
    pub open spec fn alike(self, other: ReferenceRing) -> bool {
        &&& self.capacity == other.capacity
        &&& self.next_abs == other.next_abs
        &&& forall|abs: int| #[trigger] self.at(abs) == other.at(abs)
    }

    /// Creates a ring that retains the most recent `capacity` samples.
    pub fn new(capacity: usize) -> (r: ReferenceRing)
        requires
            capacity > 0,
        ensures
            r.wf(),
            r.capacity == capacity,
            r.next_abs == 0,
            r.buf@ == Seq::new(capacity as nat, |i: int| Sample { bits: 0 }),
            forall|abs: int| #[trigger] r.at(abs) is None,
    {
        let mut buf: Vec<Sample> = Vec::new();
        buf.resize(capacity, Sample::silence());
        assert(buf@ =~= Seq::new(capacity as nat, |i: int| Sample { bits: 0 }));
        ReferenceRing { buf, capacity, next_abs: 0 }
    }

    /// Appends `samples` to the ring, overwriting the oldest retained samples
    /// once the ring is full. Advances the absolute counter by `samples.len()`.
    pub fn push(&mut self, samples: &[Sample])
        requires
            old(self).wf(),
            old(self).next_abs + samples@.len() <= u64::MAX,
        ensures
            final(self).wf(),
            final(self).capacity == old(self).capacity,
            final(self).next_abs == old(self).next_abs + samples@.len(),
            forall|abs: int| #[trigger] final(self).at(abs) == old(self).at_after_push(samples@, abs),
    {
        let ghost start = *self;
        let mut i: usize = 0;
        assert forall|abs: int| #[trigger] self.at(abs) == start.at_after_push(samples@.take(0), abs) by {}
        while i < samples.len()
            invariant
                start.wf(),
                start.next_abs + samples@.len() <= u64::MAX,
                i <= samples.len(),
                self.wf(),
                self.capacity == start.capacity,
                self.next_abs == start.next_abs + i,
                forall|abs: int| #[trigger] self.at(abs) == start.at_after_push(samples@.take(i as int), abs),
            decreases samples.len() - i,
        {
            let ghost before = *self;
            let slot: usize = (self.next_abs % self.capacity as u64) as usize;
            self.buf.set(slot, samples[i]);
            self.next_abs = self.next_abs + 1;
            proof {
                let done = samples@.take(i as int);
                let more = samples@.take(i + 1);
                assert forall|abs: int| #[trigger] self.at(abs) == start.at_after_push(more, abs) by {
                    assert(before.at(abs) == start.at_after_push(done, abs));
                    if self.oldest() <= abs < before.next_abs {
                        lemma_distinct_slots(abs, before.next_abs as int, self.capacity as int);
                        assert(0 <= abs % (self.capacity as int) < self.capacity) by (nonlinear_arith)
                            requires
                                self.capacity > 0,
                        ;
                        assert(self.at(abs) == before.at(abs));
                    }
                }
            }
            i += 1;
        }
        assert(samples@.take(i as int) =~= samples@);
    }

    /// Returns the sample at absolute index `abs`, or [`None`] if it has been
    /// dropped (too old) or has not been pushed yet (in the future).
    pub fn get(&self, abs: u64) -> (r: Option<Sample>)
        requires
            self.wf(),
        ensures
            r == self.at(abs as int),
    {
        let oldest: u64 = self.oldest_retained();
        if abs >= oldest && abs < self.next_abs {
            let slot: usize = (abs % self.capacity as u64) as usize;
            Some(self.buf[slot])
        } else {
            None
        }
    }

    /// The absolute index of the next sample a push will occupy, i.e. the total
    /// number of samples ever pushed.
    pub fn next_abs(&self) -> (r: u64)
        ensures
            r == self.next_abs,
    {
        self.next_abs
    }

    /// The ring's retained depth in samples: how far back from the frontier a
    /// read can still be served.
    pub fn capacity(&self) -> (r: usize)
        ensures
            r == self.capacity,
    {
        self.capacity
    }

    /// The number of samples dropped to overflow since construction (or the last
    /// [`clear`](Self::clear)): the count of pushes beyond the ring's capacity.
    pub fn dropped(&self) -> (r: u64)
        ensures
            r == self.oldest(),
    {
        self.next_abs.saturating_sub(self.capacity as u64)
    }

    /// Clears all retained samples and resets the absolute counter, returning
    /// the ring to its just-constructed state without reallocating.
    pub fn clear(&mut self)
        requires
            old(self).wf(),
        ensures
            final(self).wf(),
            final(self).capacity == old(self).capacity,
            final(self).next_abs == 0,
            final(self).buf@ == old(self).buf@,
            forall|abs: int| #[trigger] final(self).at(abs) is None,
    {
        self.next_abs = 0;
    }

    /// The absolute index of the oldest retained sample (equal to the dropped
    /// count). When the ring is empty this equals `next_abs`, so the retained
    /// window is empty.
    fn oldest_retained(&self) -> (r: u64)
        ensures
            r == self.oldest(),
    {
        self.next_abs.saturating_sub(self.capacity as u64)
    }
}

/// Two rings that hold the same history hold the same history once the same
/// samples have been pushed into both.
pub proof fn lemma_a_push_is_deterministic(
    a: ReferenceRing,
    b: ReferenceRing,
    after_a: ReferenceRing,
    after_b: ReferenceRing,
    samples: Seq<Sample>,
)
    requires
        a.alike(b),
        after_a.capacity == a.capacity,
        after_b.capacity == b.capacity,
        after_a.next_abs == a.next_abs + samples.len(),
        after_b.next_abs == b.next_abs + samples.len(),
        forall|abs: int| #[trigger] after_a.at(abs) == a.at_after_push(samples, abs),
        forall|abs: int| #[trigger] after_b.at(abs) == b.at_after_push(samples, abs),
    ensures
        after_a.alike(after_b),
{
    assert forall|abs: int| #[trigger] after_a.at(abs) == after_b.at(abs) by {
        assert(a.at(abs) == b.at(abs));
        assert(after_b.at(abs) == b.at_after_push(samples, abs));
    }
}

/// Two indices less than one capacity apart never share a slot.
pub proof fn lemma_distinct_slots(a: int, b: int, capacity: int)
    requires
        0 < capacity,
        a < b < a + capacity,
    ensures
        a % capacity != b % capacity,
{
    if a % capacity == b % capacity {
        lemma_fundamental_div_mod(a, capacity);
        lemma_fundamental_div_mod(b, capacity);
        let k = b / capacity - a / capacity;
        assert(b - a == capacity * k) by (nonlinear_arith)
            requires
                a == capacity * (a / capacity) + a % capacity,
                b == capacity * (b / capacity) + b % capacity,
                a % capacity == b % capacity,
                k == b / capacity - a / capacity,
        ;
        assert(false) by (nonlinear_arith)
            requires
                0 < capacity,
                0 < b - a < capacity,
                b - a == capacity * k,
        ;
    }
}

/// A read gives back what was fed: after a push, every one of its samples that
/// is still within the retained depth of the frontier reads back at its own
/// absolute index, exactly the overwritten ones are gone, and the samples
/// retained from before keep their indices.
pub proof fn lemma_reads_give_back_what_was_fed(
    before: ReferenceRing,
    after: ReferenceRing,
    samples: Seq<Sample>,
    i: int,
)
    requires
        before.wf(),
        after.wf(),
        after.capacity == before.capacity,
        after.next_abs == before.next_abs + samples.len(),
        forall|abs: int| #[trigger] after.at(abs) == before.at_after_push(samples, abs),
        0 <= i < samples.len(),
    ensures
        after.at(before.next_abs + i) == (if samples.len() - i <= after.capacity {
            Some(samples[i])
        } else {
            None::<Sample>
        }),
        forall|abs: int| after.oldest() <= abs < before.next_abs ==> #[trigger] after.at(abs) == before.at(abs),
        after.at(after.next_abs as int) is None,
{
    assert(after.at(before.next_abs + i) == before.at_after_push(samples, before.next_abs + i));
    assert(after.at(after.next_abs as int) == before.at_after_push(samples, after.next_abs as int));
    assert forall|abs: int| after.oldest() <= abs < before.next_abs implies #[trigger] after.at(abs)
        == before.at(abs) by {
        assert(after.at(abs) == before.at_after_push(samples, abs));
    }
}

/// How the caller chunks a feed makes no difference: pushing `a` and then `b`
/// leaves every index reading as one push of `a + b` does.
pub proof fn lemma_chunking_a_push_changes_nothing(
    start: ReferenceRing,
    middle: ReferenceRing,
    a: Seq<Sample>,
    b: Seq<Sample>,
    abs: int,
)
    requires
        start.wf(),
        middle.wf(),
        middle.capacity == start.capacity,
        middle.next_abs == start.next_abs + a.len(),
        forall|k: int| #[trigger] middle.at(k) == start.at_after_push(a, k),
    ensures
        middle.at_after_push(b, abs) == start.at_after_push(a + b, abs),
{
    assert(middle.at(abs) == start.at_after_push(a, abs));
}

} // verus!
