//! Batch strategy: groups a stream of items into fixed-size batches.

use vstd::prelude::*;

verus! {

/// How many items the first batch drawn from `s` holds: the configured size
/// `b`, or everything that is left when fewer than `b` items remain.
pub open spec fn head_len<I>(s: Seq<I>, b: nat) -> int {
    if s.len() <= b {
        s.len() as int
    } else {
        b as int
    }
}

/// The groups of `b` consecutive items of `s`, in order. The final group
/// holds the remaining items and may be smaller than `b`; it is never empty
/// and never padded.
pub open spec fn chunks_of<I>(s: Seq<I>, b: nat) -> Seq<Seq<I>>
    decreases s.len(),
{
    if b == 0 || s.len() == 0 {
        Seq::empty()
    } else if s.len() <= b {
        seq![s]
    } else {
        seq![s.take(b as int)] + chunks_of(s.skip(b as int), b)
    }
}

/// A non-empty sequence splits into its first batch and the batches of the
/// rest.
pub proof fn lemma_chunks_of_head<I>(s: Seq<I>, b: nat)
    requires
        b >= 1,
        s.len() > 0,
    ensures
        chunks_of(s, b).len() > 0,
        chunks_of(s, b)[0] == s.take(head_len(s, b)),
        chunks_of(s, b).drop_first() == chunks_of(s.skip(head_len(s, b)), b),
{
    if s.len() <= b {
        assert(s.take(head_len(s, b)) =~= s);
        assert(s.skip(head_len(s, b)) =~= Seq::<I>::empty());
        assert(chunks_of(s, b).drop_first() =~= chunks_of(s.skip(head_len(s, b)), b));
    } else {
        assert(chunks_of(s, b).drop_first() =~= chunks_of(s.skip(b as int), b));
    }
}

/// A dataset of `S` items grouped into batches of `B` gives exactly
/// `ceil(S / B)` batches, written `(S + B - 1) / B`.
pub proof fn lemma_chunks_of_count<I>(s: Seq<I>, b: nat)
    requires
        b >= 1,
    ensures
        chunks_of(s, b).len() == (s.len() + b - 1) / (b as int),
    decreases s.len(),
{
    if s.len() == 0 {
        assert((0 + b - 1) / (b as int) == 0) by (nonlinear_arith)
            requires b >= 1;
    } else if s.len() <= b {
        assert((s.len() + b - 1) / (b as int) == 1) by (nonlinear_arith)
            requires 1 <= s.len() <= b;
    } else {
        lemma_chunks_of_count(s.skip(b as int), b);
        assert((s.len() - b + b - 1) / (b as int) + 1 == (s.len() + b - 1) / (b as int))
            by (nonlinear_arith)
            requires b >= 1 && s.len() > b;
    }
}

/// Every batch but the last holds exactly `B` items; the last holds
/// `S mod B` items when `S` is not a multiple of `B`, and `B` otherwise.
pub proof fn lemma_chunks_of_sizes<I>(s: Seq<I>, b: nat)
    requires
        b >= 1,
    ensures
        forall|i: int|
            0 <= i < chunks_of(s, b).len() - 1 ==> #[trigger] chunks_of(s, b)[i].len() == b,
        s.len() > 0 ==> chunks_of(s, b).last().len() == (
            if s.len() % b == 0 { b as int } else { (s.len() % b) as int }
        ),
    decreases s.len(),
{
    if s.len() == 0 {
    } else if s.len() <= b {
        assert(s.len() % b == 0 ==> s.len() == b) by (nonlinear_arith)
            requires 1 <= s.len() <= b;
        assert(s.len() < b ==> s.len() % b == s.len()) by (nonlinear_arith)
            requires 1 <= s.len() <= b;
    } else {
        lemma_chunks_of_sizes(s.skip(b as int), b);
        assert((s.len() - b) % (b as int) == (s.len() as int) % (b as int)) by (nonlinear_arith)
            requires b >= 1 && s.len() > b;
        let c = chunks_of(s, b);
        let rest = chunks_of(s.skip(b as int), b);
        assert forall|i: int| 0 <= i < c.len() - 1 implies #[trigger] c[i].len() == b by {
            if i == 0 {
                assert(c[0] == s.take(b as int));
            } else {
                assert(c[i] == rest[i - 1]);
            }
        }
        assert(rest.len() > 0);
        assert(c.last() == rest.last());
    }
}

/// Batching loses no item, duplicates no item, and keeps the order:
/// concatenating the batches gives the dataset back.
pub proof fn lemma_chunks_of_flatten<I>(s: Seq<I>, b: nat)
    requires
        b >= 1,
    ensures
        chunks_of(s, b).flatten() == s,
    decreases s.len(),
{
    if s.len() == 0 {
        assert(chunks_of(s, b).flatten() =~= s);
    } else if s.len() <= b {
        assert(chunks_of(s, b) =~= seq![s]);
        chunks_of(s, b).lemma_flatten_one_element();
    } else {
        lemma_chunks_of_flatten(s.skip(b as int), b);
        let c = chunks_of(s, b);
        assert(c.first() == s.take(b as int));
        assert(c.drop_first() =~= chunks_of(s.skip(b as int), b));
        assert(c.flatten() == s.take(b as int) + s.skip(b as int));
        assert(s.take(b as int) + s.skip(b as int) =~= s);
    }
}

/// Accumulates items one at a time until the configured batch size is
/// reached; `new_batch` hands the accumulated group out in order and resets
/// the strategy for the next group.
pub struct FixBatchStrategy<I> {
    items: Vec<I>,
    batch_size: usize,
}

impl<I> FixBatchStrategy<I> {
    /// The items accumulated since the last completed batch, in arrival
    /// order.
    pub closed spec fn pending(&self) -> Seq<I> {
        self.items@
    }

    /// The configured number of items per complete batch.
    pub closed spec fn size(&self) -> usize {
        self.batch_size
    }

    pub fn new(batch_size: usize) -> (s: Self)
        ensures
            s.pending() == Seq::<I>::empty(),
            s.size() == batch_size,
    {
        FixBatchStrategy { items: Vec::new(), batch_size }
    }

    /// Incorporates one item into the in-progress batch.
    pub fn add(&mut self, item: I)
        ensures
            final(self).pending() == old(self).pending().push(item),
            final(self).size() == old(self).size(),
    {
        self.items.push(item);
    }

    /// Whether the in-progress batch has reached the configured size.
    pub fn is_complete(&self) -> (r: bool)
        ensures
            r == (self.pending().len() >= self.size()),
    {
        self.items.len() >= self.batch_size
    }

    /// Whether no item is waiting; lets a loader flush a final partial
    /// batch only when one exists.
    pub fn is_empty(&self) -> (r: bool)
        ensures
            r == (self.pending().len() == 0),
    {
        self.items.len() == 0
    }

    /// Returns the accumulated group in order and resets the strategy.
    pub fn new_batch(&mut self) -> (batch: Vec<I>)
        ensures
            batch@ == old(self).pending(),
            final(self).pending() == Seq::<I>::empty(),
            final(self).size() == old(self).size(),
    {
        let mut batch: Vec<I> = Vec::new();
        core::mem::swap(&mut self.items, &mut batch);
        batch
    }
}

} // verus!
