//! Data loading: restartable passes of batches over a dataset.
//!
//! A loader owns the (possibly shuffled) items of one pass and hands out
//! fresh iterators over the batches of that pass. A multi-worker loader
//! splits the index range into contiguous slices, one per worker; each
//! worker batches its own slice independently, so a trailing partial batch
//! is flushed per slice.

use crate::batcher::Batcher;
use crate::strategy::{chunks_of, head_len, lemma_chunks_of_head, FixBatchStrategy};
use core::marker::PhantomData;
use vstd::prelude::*;

verus! {

/// How far a pass has come: raw items delivered so far, and the total the
/// pass will deliver. Used for observability only, never for control flow.
#[derive(Clone, Copy, PartialEq, Eq, Structural, Debug)]
pub struct Progress {
    pub items_processed: usize,
    pub items_total: usize,
}

/// A single-threaded loader: batches one contiguous run of items in order.
pub struct BatchDataLoader<I, O: View, B: Batcher<I, O>> {
    items: Vec<I>,
    batch_size: usize,
    batcher: B,
    marker: PhantomData<O>,
}

/// One pass of a [`BatchDataLoader`]: pulls items in index order, feeding
/// the batch strategy until each batch is complete, and flushes the final
/// partial batch.
pub struct BatchDataLoaderIterator<I, O: View, B: Batcher<I, O>> {
    items: Vec<I>,
    batch_size: usize,
    batcher: B,
    strategy: FixBatchStrategy<I>,
    index: usize,
    marker: PhantomData<O>,
}

impl<I, O: View, B: Batcher<I, O>> BatchDataLoader<I, O, B> {
    /// The items of the pass, in delivery order.
    pub closed spec fn items_view(&self) -> Seq<I> {
        self.items@
    }

    /// The configured batch size.
    pub closed spec fn size(&self) -> usize {
        self.batch_size
    }

    /// The batcher that collates each group.
    pub closed spec fn batcher_view(&self) -> B {
        self.batcher
    }

    /// The item groups of one full pass, in order.
    pub open spec fn chunk_seq(&self) -> Seq<Seq<I>> {
        chunks_of(self.items_view(), self.size() as nat)
    }

    /// The batches of one full pass, as views, in order.
    pub open spec fn batch_views(&self) -> Seq<O::V> {
        self.chunk_seq().map_values(|c: Seq<I>| self.batcher_view().batch_spec(c))
    }

    pub closed spec fn wf(&self) -> bool {
        self.batch_size >= 1
    }
}

impl<I: Copy, O: View, B: Batcher<I, O> + Copy> BatchDataLoader<I, O, B> {
    /// A loader over `dataset`, delivering its items in order in groups of
    /// `batch_size`.
    pub fn new(batch_size: usize, dataset: Vec<I>, batcher: B) -> (loader: Self)
        requires
            batch_size >= 1,
        ensures
            loader.wf(),
            loader.items_view() == dataset@,
            loader.size() == batch_size,
            loader.batcher_view() == batcher,
    {
        BatchDataLoader { items: dataset, batch_size, batcher, marker: PhantomData }
    }

    /// Begins a fresh pass over the loader's batches.
    pub fn iter(&self) -> (it: BatchDataLoaderIterator<I, O, B>)
        requires
            self.wf(),
        ensures
            it.wf(),
            it.items_view() == self.items_view(),
            it.size() == self.size(),
            it.batcher_view() == self.batcher_view(),
            it.position() == 0,
            it.remaining_chunks() == self.chunk_seq(),
            it.remaining_views() == self.batch_views(),
    {
        let it = BatchDataLoaderIterator {
            items: clone_items(&self.items),
            batch_size: self.batch_size,
            batcher: self.batcher,
            strategy: FixBatchStrategy::new(self.batch_size),
            index: 0,
            marker: PhantomData,
        };
        proof {
            assert(it.items@.skip(0) =~= self.items@);
        }
        it
    }
}

/// Copies a vector of plain items.
fn clone_items<I: Copy>(items: &Vec<I>) -> (r: Vec<I>)
    ensures
        r@ == items@,
{
    let mut r: Vec<I> = Vec::new();
    let mut i: usize = 0;
    while i < items.len()
        invariant
            i <= items@.len(),
            r@ == items@.take(i as int),
        decreases items@.len() - i,
    {
        r.push(items[i]);
        proof {
            assert(items@.take(i + 1) =~= items@.take(i as int).push(items@[i as int]));
        }
        i = i + 1;
    }
    proof {
        assert(items@.take(items@.len() as int) =~= items@);
    }
    r
}

impl<I, O: View, B: Batcher<I, O>> BatchDataLoaderIterator<I, O, B> {
    /// The items of the pass, in delivery order.
    pub closed spec fn items_view(&self) -> Seq<I> {
        self.items@
    }

    /// The configured batch size.
    pub closed spec fn size(&self) -> usize {
        self.batch_size
    }

    /// The batcher that collates each group.
    pub closed spec fn batcher_view(&self) -> B {
        self.batcher
    }

    /// How many items the pass has delivered so far.
    pub closed spec fn position(&self) -> usize {
        self.index
    }

    pub closed spec fn wf(&self) -> bool {
        &&& self.batch_size >= 1
        &&& self.index <= self.items@.len()
        &&& self.strategy.pending() == Seq::<I>::empty()
        &&& self.strategy.size() == self.batch_size
    }

    /// The item groups the pass has yet to deliver, in order.
    pub open spec fn remaining_chunks(&self) -> Seq<Seq<I>> {
        chunks_of(self.items_view().skip(self.position() as int), self.size() as nat)
    }

    /// The batches the pass has yet to deliver, as views, in order.
    pub open spec fn remaining_views(&self) -> Seq<O::V> {
        self.remaining_chunks().map_values(|c: Seq<I>| self.batcher_view().batch_spec(c))
    }
}

impl<I: Copy, O: View, B: Batcher<I, O> + Copy> BatchDataLoaderIterator<I, O, B> {
    /// Delivers the next batch of the pass, or nothing once the pass is
    /// exhausted. A final group smaller than the batch size is flushed,
    /// never dropped and never padded.
    pub fn next(&mut self) -> (r: Option<O>)
        requires
            old(self).wf(),
        ensures
            final(self).wf(),
            final(self).items_view() == old(self).items_view(),
            final(self).size() == old(self).size(),
            final(self).batcher_view() == old(self).batcher_view(),
            old(self).remaining_chunks().len() == 0 ==> r is None && final(self).position()
                == old(self).position(),
            old(self).remaining_chunks().len() > 0 ==> (r matches Some(o)
                && o@ == old(self).remaining_views()[0]
                && final(self).remaining_chunks() == old(self).remaining_chunks().drop_first()
                && final(self).position() == old(self).position() + old(
                self,
            ).remaining_chunks()[0].len()),
    {
        let ghost start = self.index as int;
        let ghost whole = self.items@;
        let ghost b = self.batch_size as nat;
        let ghost batcher0 = self.batcher;
        if self.index == self.items.len() {
            proof {
                assert(whole.skip(start) =~= Seq::<I>::empty());
            }
            return None;
        }
        proof {
            lemma_chunks_of_head(whole.skip(start), b);
        }
        while self.index < self.items.len() && !(self.strategy.is_complete())
            invariant
                self.batch_size >= 1,
                self.items@ == whole,
                self.batcher == batcher0,
                self.batch_size as nat == b,
                0 <= start <= self.index <= self.items@.len(),
                self.index - start <= self.batch_size,
                self.index - start < self.batch_size || self.index == start + self.batch_size,
                self.strategy.pending() == whole.subrange(start, self.index as int),
                self.strategy.size() == self.batch_size,
            decreases self.items@.len() - self.index,
        {
            let item = self.items[self.index];
            self.strategy.add(item);
            proof {
                assert(whole.subrange(start, self.index + 1) =~= whole.subrange(
                    start,
                    self.index as int,
                ).push(whole[self.index as int]));
            }
            self.index = self.index + 1;
        }
        let ghost h = head_len(whole.skip(start), b);
        proof {
            assert(self.index == start + h);
            assert(whole.subrange(start, start + h) =~= whole.skip(start).take(h));
        }
        let chunk = self.strategy.new_batch();
        let ghost chunkv = chunk@;
        let out = self.batcher.batch(chunk);
        proof {
            let rem0 = chunks_of(whole.skip(start), b);
            assert(chunkv == rem0[0]);
            assert(rem0.map_values(|c: Seq<I>| batcher0.batch_spec(c))[0] == batcher0.batch_spec(
                rem0[0],
            ));
            assert(self.items@.skip(self.index as int) =~= whole.skip(start).skip(h));
            assert(self.remaining_chunks() == rem0.drop_first());
        }
        Some(out)
    }
}


/// Dropping an empty head sequence leaves a concatenation unchanged.
proof fn lemma_flatten_empty_head<X>(s: Seq<Seq<X>>)
    requires
        s.len() > 0,
        s[0].len() == 0,
    ensures
        s.flatten() == s.drop_first().flatten(),
{
    assert(s.flatten() =~= s[0] + s.drop_first().flatten());
    assert(s[0] + s.drop_first().flatten() =~= s.drop_first().flatten());
}

/// Taking one element off a concatenation whose head is non-empty takes it
/// off that head.
proof fn lemma_flatten_step<X>(s: Seq<Seq<X>>)
    requires
        s.len() > 0,
        s[0].len() > 0,
    ensures
        s.flatten().len() > 0,
        s.flatten()[0] == s[0][0],
        s.flatten().drop_first() == s.update(0, s[0].drop_first()).flatten(),
{
    let t = s.update(0, s[0].drop_first());
    assert(s.flatten() =~= s[0] + s.drop_first().flatten());
    assert(t.flatten() =~= t[0] + t.drop_first().flatten());
    assert(t.drop_first() =~= s.drop_first());
    assert(s.flatten().drop_first() =~= s[0].drop_first() + s.drop_first().flatten());
}

/// Concatenations of elementwise equally long sequences are equally long.
proof fn lemma_flatten_len_eq<X, Y>(a: Seq<Seq<X>>, b: Seq<Seq<Y>>)
    requires
        a.len() == b.len(),
        forall|i: int| 0 <= i < a.len() ==> #[trigger] a[i].len() == b[i].len(),
    ensures
        a.flatten().len() == b.flatten().len(),
    decreases a.len(),
{
    if a.len() == 0 {
        assert(a.flatten() =~= Seq::<X>::empty());
        assert(b.flatten() =~= Seq::<Y>::empty());
    } else {
        assert(a.flatten() =~= a[0] + a.drop_first().flatten());
        assert(b.flatten() =~= b[0] + b.drop_first().flatten());
        assert(forall|i: int|
            0 <= i < a.drop_first().len() ==> #[trigger] a.drop_first()[i].len()
                == b.drop_first()[i].len());
        lemma_flatten_len_eq(a.drop_first(), b.drop_first());
    }
}

/// The raw items the passes of `parts` have yet to deliver, in total.
pub open spec fn pass_left<I, O: View, B: Batcher<I, O>>(
    parts: Seq<BatchDataLoaderIterator<I, O, B>>,
) -> int
    decreases parts.len(),
{
    if parts.len() == 0 {
        0
    } else {
        (parts[0].items_view().len() - parts[0].position()) + pass_left(parts.drop_first())
    }
}

proof fn lemma_pass_left_nonneg<I, O: View, B: Batcher<I, O>>(
    parts: Seq<BatchDataLoaderIterator<I, O, B>>,
)
    requires
        forall|i: int| 0 <= i < parts.len() ==> #[trigger] parts[i].wf(),
    ensures
        pass_left(parts) >= 0,
    decreases parts.len(),
{
    if parts.len() > 0 {
        assert(parts[0].wf());
        assert(forall|i: int|
            0 <= i < parts.drop_first().len() ==> #[trigger] parts.drop_first()[i].wf());
        lemma_pass_left_nonneg(parts.drop_first());
    }
}

proof fn lemma_pass_left_update<I, O: View, B: Batcher<I, O>>(
    parts: Seq<BatchDataLoaderIterator<I, O, B>>,
    i: int,
    p: BatchDataLoaderIterator<I, O, B>,
)
    requires
        0 <= i < parts.len(),
    ensures
        pass_left(parts.update(i, p)) == pass_left(parts) - (parts[i].items_view().len()
            - parts[i].position()) + (p.items_view().len() - p.position()),
    decreases parts.len(),
{
    let u = parts.update(i, p);
    if i == 0 {
        assert(u.drop_first() =~= parts.drop_first());
    } else {
        assert(u.drop_first() =~= parts.drop_first().update(i - 1, p));
        lemma_pass_left_update(parts.drop_first(), i - 1, p);
    }
}

/// Before any batch is delivered, what is left is everything: the length
/// of the concatenation of the parts' item runs.
proof fn lemma_pass_left_fresh<I, O: View, B: Batcher<I, O>>(
    parts: Seq<BatchDataLoaderIterator<I, O, B>>,
)
    requires
        forall|i: int| 0 <= i < parts.len() ==> #[trigger] parts[i].position() == 0,
    ensures
        pass_left(parts) == parts.map_values(
            |p: BatchDataLoaderIterator<I, O, B>| p.items_view(),
        ).flatten().len(),
    decreases parts.len(),
{
    let m = parts.map_values(|p: BatchDataLoaderIterator<I, O, B>| p.items_view());
    if parts.len() == 0 {
        assert(m.flatten() =~= Seq::<I>::empty());
    } else {
        assert(m.flatten() =~= m[0] + m.drop_first().flatten());
        assert(forall|i: int|
            0 <= i < parts.drop_first().len() ==> #[trigger] parts.drop_first()[i].position()
                == 0);
        lemma_pass_left_fresh(parts.drop_first());
        assert(parts.drop_first().map_values(
            |p: BatchDataLoaderIterator<I, O, B>| p.items_view(),
        ) =~= m.drop_first());
    }
}

/// A pass over a loader, one worker slice after another: yields every
/// worker's batches in slice order, and reports progress in raw items.
pub struct DataLoaderIterator<I, O: View, B: Batcher<I, O>> {
    parts: Vec<BatchDataLoaderIterator<I, O, B>>,
    current: usize,
    processed: usize,
    total: usize,
}

impl<I, O: View, B: Batcher<I, O>> DataLoaderIterator<I, O, B> {
    pub closed spec fn wf(&self) -> bool {
        &&& self.current <= self.parts@.len()
        &&& forall|i: int| 0 <= i < self.parts@.len() ==> #[trigger] self.parts@[i].wf()
        &&& self.processed as int + pass_left(self.parts@) == self.total as int
    }

    /// The item groups the pass has yet to deliver, in order.
    pub closed spec fn remaining_chunks(&self) -> Seq<Seq<I>> {
        self.parts@.skip(self.current as int).map_values(
            |p: BatchDataLoaderIterator<I, O, B>| p.remaining_chunks(),
        ).flatten()
    }

    /// The batches the pass has yet to deliver, as views, in order.
    pub closed spec fn remaining_views(&self) -> Seq<O::V> {
        self.parts@.skip(self.current as int).map_values(
            |p: BatchDataLoaderIterator<I, O, B>| p.remaining_views(),
        ).flatten()
    }

    /// Raw items delivered so far.
    pub closed spec fn processed_spec(&self) -> usize {
        self.processed
    }

    /// Raw items the whole pass delivers.
    pub closed spec fn total_spec(&self) -> usize {
        self.total
    }
}

impl<I: Copy, O: View, B: Batcher<I, O> + Copy> DataLoaderIterator<I, O, B> {
    /// How far the pass has come. Monotone, and only for observability.
    pub fn progress(&self) -> (p: Progress)
        ensures
            p.items_processed == self.processed_spec(),
            p.items_total == self.total_spec(),
    {
        Progress { items_processed: self.processed, items_total: self.total }
    }

    /// Delivers the next batch of the pass, or nothing once every worker
    /// slice is exhausted.
    #[verifier::loop_isolation(false)]
    pub fn next(&mut self) -> (r: Option<O>)
        requires
            old(self).wf(),
        ensures
            final(self).wf(),
            final(self).total_spec() == old(self).total_spec(),
            old(self).remaining_chunks().len() == 0 ==> r is None && final(self).processed_spec()
                == old(self).processed_spec() && final(self).remaining_chunks() == old(
                self,
            ).remaining_chunks() && final(self).remaining_views() == old(self).remaining_views(),
            old(self).remaining_chunks().len() > 0 ==> (r matches Some(o)
                && o@ == old(self).remaining_views()[0]
                && final(self).remaining_chunks() == old(self).remaining_chunks().drop_first()
                && final(self).remaining_views() == old(self).remaining_views().drop_first()
                && final(self).processed_spec() == old(self).processed_spec() + old(
                self,
            ).remaining_chunks()[0].len() && old(self).remaining_chunks()[0].len() >= 1),
    {
        let ghost rc0 = self.remaining_chunks();
        let ghost rv0 = self.remaining_views();
        let ghost total0 = self.total;
        let ghost processed0 = self.processed;
        loop
            invariant
                self.wf(),
                self.total == total0,
                self.processed == processed0,
                self.remaining_chunks() == rc0,
                self.remaining_views() == rv0,
            decreases self.parts@.len() - self.current,
        {
            if self.current >= self.parts.len() {
                proof {
                    assert(self.parts@.skip(self.current as int) =~= Seq::<
                        BatchDataLoaderIterator<I, O, B>,
                    >::empty());
                    assert(self.remaining_chunks() =~= Seq::<Seq<I>>::empty());
                    assert(self.remaining_views() =~= Seq::<O::V>::empty());
                }
                return None;
            }
            let c = self.current;
            let ghost parts0 = self.parts@;
            let ghost p0 = parts0[c as int];
            let mut part = self.parts.remove(c);
            let pos0: usize = part.index;
            let r = part.next();
            let pos1: usize = part.index;
            let ghost p1 = part;
            self.parts.insert(c, part);
            proof {
                assert(self.parts@ =~= parts0.update(c as int, p1));
                lemma_pass_left_update(parts0, c as int, p1);
                assert(forall|i: int|
                    0 <= i < self.parts@.len() ==> #[trigger] self.parts@[i].wf());
                lemma_pass_left_nonneg(self.parts@);
            }
            let ghost fc = |p: BatchDataLoaderIterator<I, O, B>| p.remaining_chunks();
            let ghost fv = |p: BatchDataLoaderIterator<I, O, B>| p.remaining_views();
            let ghost m0 = parts0.skip(c as int).map_values(fc);
            let ghost v0 = parts0.skip(c as int).map_values(fv);
            match r {
                Some(out) => {
                    proof {
                        assert(p0.remaining_chunks().len() > 0);
                        assert(m0[0] == p0.remaining_chunks());
                        assert(v0[0] == p0.remaining_views());
                        assert(v0[0].len() == m0[0].len());
                        lemma_flatten_step(m0);
                        lemma_flatten_step(v0);
                        assert(self.parts@.skip(c as int) =~= parts0.skip(c as int).update(
                            0,
                            p1,
                        ));
                        assert(self.parts@.skip(c as int).map_values(fc) =~= m0.update(
                            0,
                            m0[0].drop_first(),
                        ));
                        assert(p1.remaining_views() =~= p0.remaining_views().drop_first());
                        assert(self.parts@.skip(c as int).map_values(fv) =~= v0.update(
                            0,
                            v0[0].drop_first(),
                        ));
                        assert(self.remaining_chunks() == rc0.drop_first());
                        assert(self.remaining_views() == rv0.drop_first());
                        assert(rv0[0] == p0.remaining_views()[0]);
                        assert(rc0[0] == p0.remaining_chunks()[0]);
                        let s0 = p0.items_view().skip(p0.position() as int);
                        assert(s0.len() > 0) by {
                            if s0.len() == 0 {
                                assert(p0.remaining_chunks() =~= Seq::<Seq<I>>::empty());
                            }
                        }
                        lemma_chunks_of_head(s0, p0.size() as nat);
                        assert(rc0[0].len() >= 1);
                        assert(pos1 - pos0 == rc0[0].len());
                        assert(self.processed + (pos1 - pos0) <= total0);
                    }
                    self.processed = self.processed + (pos1 - pos0);
                    return Some(out);
                }
                None => {
                    proof {
                        assert(p0.remaining_chunks().len() == 0);
                        assert(p1.remaining_chunks() == p0.remaining_chunks());
                        assert(p1.remaining_views() == p0.remaining_views());
                        assert(self.parts@.skip(c as int) =~= parts0.skip(c as int).update(
                            0,
                            p1,
                        ));
                        let m1 = self.parts@.skip(c as int).map_values(fc);
                        let v1 = self.parts@.skip(c as int).map_values(fv);
                        assert(m1 =~= m0);
                        assert(v1 =~= v0);
                        assert(m1[0].len() == 0);
                        assert(v1[0].len() == 0);
                        lemma_flatten_empty_head(m1);
                        lemma_flatten_empty_head(v1);
                        assert(self.parts@.skip(c + 1) =~= self.parts@.skip(
                            c as int,
                        ).drop_first());
                        assert(self.parts@.skip(c + 1).map_values(fc) =~= m1.drop_first());
                        assert(self.parts@.skip(c + 1).map_values(fv) =~= v1.drop_first());
                    }
                    self.current = c + 1;
                    proof {
                        assert(self.remaining_chunks() == rc0);
                        assert(self.remaining_views() == rv0);
                    }
                }
            }
        }
    }
}

/// Worker slices: the contiguous runs that `num` workers receive. Every
/// worker gets `len / num` items; the last also takes the remainder.
pub open spec fn split_slices<I>(s: Seq<I>, num: nat) -> Seq<Seq<I>> {
    let q = (s.len() / num) as int;
    Seq::new(
        num,
        |i: int|
            if i == num - 1 {
                s.subrange(q * i, s.len() as int)
            } else {
                s.subrange(q * i, q * (i + 1))
            },
    )
}

/// The worker slices cover the items exactly: concatenated in worker
/// order they give the loaded sequence back.
pub proof fn lemma_split_slices_concat<I>(s: Seq<I>, num: nat)
    requires
        num >= 1,
    ensures
        split_slices(s, num).flatten() == s,
{
    lemma_split_slices_concat_prefix(s, num, num as int);
    assert(split_slices(s, num).take(num as int) =~= split_slices(s, num));
    assert(s.take(s.len() as int) =~= s);
}

proof fn lemma_split_slices_concat_prefix<I>(s: Seq<I>, num: nat, k: int)
    requires
        num >= 1,
        0 <= k <= num,
    ensures
        split_slices(s, num).take(k).flatten() == s.take(
            if k == num {
                s.len() as int
            } else {
                ((s.len() / num) as int) * k
            },
        ),
    decreases k,
{
    broadcast use Seq::lemma_flatten_push;

    let q = (s.len() / num) as int;
    assert(q * num <= s.len() && 0 <= q) by (nonlinear_arith)
        requires q == (s.len() / num) as int && num >= 1;
    if k == 0 {
        assert(split_slices(s, num).take(0).flatten() =~= Seq::<I>::empty());
        assert(s.take(0) =~= Seq::<I>::empty());
    } else {
        lemma_split_slices_concat_prefix(s, num, k - 1);
        let sl = split_slices(s, num);
        assert(q * (k - 1) <= q * k && q * k <= q * num && 0 <= q * (k - 1)) by (
        nonlinear_arith)
            requires 0 <= q && 1 <= k <= num;
        assert(sl.take(k) =~= sl.take(k - 1).push(sl[k - 1]));
        assert(sl.take(k).flatten() == sl.take(k - 1).flatten() + sl[k - 1]);
        if k == num {
            assert(s.take(q * (k - 1)) + s.subrange(q * (k - 1), s.len() as int) =~= s.take(
                s.len() as int,
            ));
        } else {
            assert(s.take(q * (k - 1)) + s.subrange(q * (k - 1), q * k) =~= s.take(q * k));
        }
    }
}

/// Splits `items` into `num` contiguous worker slices.
fn split_vec<I>(items: Vec<I>, num: usize) -> (parts: Vec<Vec<I>>)
    requires
        num >= 1,
    ensures
        parts@.len() == num,
        parts@.map_values(|p: Vec<I>| p@) == split_slices(items@, num as nat),
{
    let ghost s = items@;
    let ghost slices = split_slices(s, num as nat);
    let q: usize = items.len() / num;
    assert(q * num <= s.len() && 0 <= q) by (nonlinear_arith)
        requires q == s.len() / num as nat && num >= 1;
    let mut rest = items;
    let mut parts: Vec<Vec<I>> = Vec::new();
    let mut i: usize = 0;
    while i < num - 1
        invariant
            num >= 1,
            i <= num - 1,
            q == (s.len() / num as nat) as int,
            q * num <= s.len(),
            0 <= q * i <= s.len(),
            slices == split_slices(s, num as nat),
            rest@ == s.subrange(q * i, s.len() as int),
            parts@.len() == i,
            parts@.map_values(|p: Vec<I>| p@) == slices.take(i as int),
        decreases num - 1 - i,
    {
        assert(q * (i + 1) == q * i + q && q * (i + 1) <= q * num && 0 <= q * i) by (
        nonlinear_arith)
            requires 0 <= q && 0 <= i && i + 1 <= num;
        let tail = rest.split_off(q);
        proof {
            assert(rest@ =~= s.subrange(q * i, q * i + q));
            assert(slices[i as int] == s.subrange(q * i, q * (i + 1)));
            assert(rest@ == slices[i as int]);
        }
        let ghost old_parts = parts@;
        parts.push(rest);
        rest = tail;
        proof {
            assert(parts@.map_values(|p: Vec<I>| p@) =~= old_parts.map_values(
                |p: Vec<I>| p@,
            ).push(slices[i as int]));
            assert(slices.take(i + 1) =~= slices.take(i as int).push(slices[i as int]));
            assert(rest@ =~= s.subrange(q * (i + 1), s.len() as int));
        }
        i = i + 1;
    }
    proof {
        assert(slices[num - 1] == s.subrange(
            ((s.len() / num as nat) as int) * (num - 1),
            s.len() as int,
        ));
        assert(rest@ == slices[num - 1]);
    }
    let ghost old_parts = parts@;
    parts.push(rest);
    proof {
        assert(parts@.map_values(|p: Vec<I>| p@) =~= old_parts.map_values(|p: Vec<I>| p@).push(
            slices[num - 1],
        ));
        assert(slices.take(num as int) =~= slices);
        assert(parts@.map_values(|p: Vec<I>| p@) =~= slices);
    }
    parts
}

/// A loader that splits the pass across a fixed pool of workers, one
/// contiguous slice of the (possibly shuffled) items per worker. Batch
/// order is guaranteed within a worker's slice, not across workers.
pub struct MultiThreadBatchDataLoader<I, O: View, B: Batcher<I, O>> {
    workers: Vec<BatchDataLoader<I, O, B>>,
    num_items: usize,
}

impl<I, O: View, B: Batcher<I, O>> MultiThreadBatchDataLoader<I, O, B> {
    pub closed spec fn workers_view(&self) -> Seq<BatchDataLoader<I, O, B>> {
        self.workers@
    }

    /// The contiguous item runs, one per worker, in worker order.
    pub open spec fn slices(&self) -> Seq<Seq<I>> {
        self.workers_view().map_values(|w: BatchDataLoader<I, O, B>| w.items_view())
    }

    /// The items of one pass, in worker order.
    pub open spec fn items_seq(&self) -> Seq<I> {
        self.slices().flatten()
    }

    /// The item groups of one pass, worker by worker.
    pub open spec fn chunk_seq(&self) -> Seq<Seq<I>> {
        self.workers_view().map_values(|w: BatchDataLoader<I, O, B>| w.chunk_seq()).flatten()
    }

    /// The batches of one pass, as views, worker by worker.
    pub open spec fn batch_views(&self) -> Seq<O::V> {
        self.workers_view().map_values(|w: BatchDataLoader<I, O, B>| w.batch_views()).flatten()
    }

    pub closed spec fn wf(&self) -> bool {
        &&& forall|i: int|
            0 <= i < self.workers@.len() ==> #[trigger] self.workers@[i].wf()
        &&& self.num_items as int == self.items_seq().len()
    }

    /// Raw items one pass delivers.
    pub closed spec fn total(&self) -> usize {
        self.num_items
    }
}

impl<I: Copy, O: View, B: Batcher<I, O> + Copy> MultiThreadBatchDataLoader<I, O, B> {
    /// A loader over `dataset` whose pass is divided among `num_threads`
    /// workers, each batching its own contiguous slice.
    pub fn multi_thread(
        batch_size: usize,
        dataset: Vec<I>,
        batcher: B,
        num_threads: usize,
    ) -> (loader: Self)
        requires
            batch_size >= 1,
            num_threads >= 1,
        ensures
            loader.wf(),
            loader.slices() == split_slices(dataset@, num_threads as nat),
            loader.items_seq() == dataset@,
            loader.workers_view().len() == num_threads,
            forall|i: int|
                0 <= i < num_threads ==> #[trigger] loader.workers_view()[i].size() == batch_size
                    && loader.workers_view()[i].batcher_view() == batcher,
    {
        let ghost s = dataset@;
        let n = dataset.len();
        let mut pieces = split_vec(dataset, num_threads);
        let ghost slices = split_slices(s, num_threads as nat);
        let mut workers: Vec<BatchDataLoader<I, O, B>> = Vec::new();
        while pieces.len() > 0
            invariant
                batch_size >= 1,
                workers@.len() + pieces@.len() == num_threads,
                slices == split_slices(s, num_threads as nat),
                workers@.map_values(|w: BatchDataLoader<I, O, B>| w.items_view())
                    =~= slices.take(workers@.len() as int),
                pieces@.map_values(|p: Vec<I>| p@) =~= slices.skip(workers@.len() as int),
                forall|i: int|
                    0 <= i < workers@.len() ==> #[trigger] workers@[i].wf() && workers@[i].size()
                        == batch_size && workers@[i].batcher_view() == batcher,
            decreases pieces@.len(),
        {
            let ghost wl = workers@.len() as int;
            let ghost pieces0 = pieces@;
            let piece = pieces.remove(0);
            proof {
                assert(pieces0.map_values(|p: Vec<I>| p@)[0] == pieces0[0]@);
                assert(slices.skip(wl)[0] == slices[wl]);
                assert(piece@ == slices[wl]);
                assert(pieces@ =~= pieces0.drop_first());
                assert(pieces@.map_values(|p: Vec<I>| p@) =~= pieces0.map_values(
                    |p: Vec<I>| p@,
                ).drop_first());
                assert(slices.skip(wl).drop_first() =~= slices.skip(wl + 1));
            }
            let w = BatchDataLoader::new(batch_size, piece, batcher);
            let ghost workers0 = workers@;
            workers.push(w);
            proof {
                assert(workers@ =~= workers0.push(w));
                assert(workers@.map_values(|w2: BatchDataLoader<I, O, B>| w2.items_view())
                    =~= workers0.map_values(
                    |w2: BatchDataLoader<I, O, B>| w2.items_view(),
                ).push(w.items_view()));
                assert(slices.take(wl + 1) =~= slices.take(wl).push(slices[wl]));
                assert(workers@.map_values(|w2: BatchDataLoader<I, O, B>| w2.items_view())
                    =~= slices.take(wl + 1));
            }
        }
        let loader = MultiThreadBatchDataLoader { workers, num_items: n };
        proof {
            assert(loader.slices() =~= slices);
            lemma_split_slices_concat(s, num_threads as nat);
            assert(loader.items_seq() == s);
            assert forall|i: int|
                0 <= i < num_threads implies #[trigger] loader.workers_view()[i].size()
                == batch_size && loader.workers_view()[i].batcher_view() == batcher by {
                assert(loader.workers_view()[i].wf());
            }
        }
        loader
    }

    /// Begins a fresh pass: every worker's slice is iterated in index
    /// order, one worker after another.
    pub fn iter(&self) -> (it: DataLoaderIterator<I, O, B>)
        requires
            self.wf(),
        ensures
            it.wf(),
            it.remaining_chunks() == self.chunk_seq(),
            it.remaining_views() == self.batch_views(),
            it.processed_spec() == 0,
            it.total_spec() == self.total(),
    {
        let mut parts: Vec<BatchDataLoaderIterator<I, O, B>> = Vec::new();
        let mut i: usize = 0;
        while i < self.workers.len()
            invariant
                self.wf(),
                i <= self.workers@.len(),
                parts@.len() == i,
                forall|k: int|
                    0 <= k < i ==> (#[trigger] parts@[k].wf() && parts@[k].position() == 0
                        && parts@[k].remaining_chunks() == self.workers@[k].chunk_seq()
                        && parts@[k].remaining_views() == self.workers@[k].batch_views()
                        && parts@[k].items_view() == self.workers@[k].items_view()),
            decreases self.workers@.len() - i,
        {
            let part = self.workers[i].iter();
            parts.push(part);
            i = i + 1;
        }
        let it = DataLoaderIterator { parts, current: 0, processed: 0, total: self.num_items };
        proof {
            let pv = it.parts@;
            assert(pv.skip(0) =~= pv);
            assert forall|k: int| 0 <= k < pv.len() implies #[trigger] pv[k].remaining_chunks()
                == self.workers@[k].chunk_seq() && pv[k].remaining_views()
                == self.workers@[k].batch_views() && pv[k].items_view()
                == self.workers@[k].items_view() && pv[k].position() == 0 by {
                assert(pv[k].wf());
            }
            assert(pv.map_values(|p: BatchDataLoaderIterator<I, O, B>| p.remaining_chunks())
                =~= self.workers@.map_values(|w: BatchDataLoader<I, O, B>| w.chunk_seq()));
            assert(pv.map_values(|p: BatchDataLoaderIterator<I, O, B>| p.remaining_views())
                =~= self.workers@.map_values(|w: BatchDataLoader<I, O, B>| w.batch_views()));
            assert forall|k: int| 0 <= k < pv.len() implies #[trigger] pv[k].position() == 0 by {
                assert(pv[k].wf());
            }
            assert forall|k: int| 0 <= k < pv.len() implies #[trigger] pv[k].items_view()
                == self.workers@[k].items_view() by {
                assert(pv[k].wf());
            }
            lemma_pass_left_fresh(pv);
            assert(pv.map_values(|p: BatchDataLoaderIterator<I, O, B>| p.items_view())
                =~= self.workers@.map_values(|w: BatchDataLoader<I, O, B>| w.items_view()));
        }
        it
    }
}

/// A source of restartable passes of batches: the single-threaded variant
/// or the worker-pool variant, selected at construction time.
pub enum DataLoader<I, O: View, B: Batcher<I, O>> {
    Single(BatchDataLoader<I, O, B>),
    MultiThread(MultiThreadBatchDataLoader<I, O, B>),
}

impl<I, O: View, B: Batcher<I, O>> DataLoader<I, O, B> {
    pub open spec fn wf(&self) -> bool {
        match self {
            DataLoader::Single(l) => l.wf(),
            DataLoader::MultiThread(m) => m.wf(),
        }
    }

    /// The contiguous item runs, one per worker; a single-threaded loader
    /// has one run holding everything.
    pub open spec fn slices(&self) -> Seq<Seq<I>> {
        match self {
            DataLoader::Single(l) => seq![l.items_view()],
            DataLoader::MultiThread(m) => m.slices(),
        }
    }

    /// The items of one pass, in delivery order.
    pub open spec fn items_seq(&self) -> Seq<I> {
        match self {
            DataLoader::Single(l) => l.items_view(),
            DataLoader::MultiThread(m) => m.items_seq(),
        }
    }

    /// The item groups of one pass, in delivery order.
    pub open spec fn chunk_seq(&self) -> Seq<Seq<I>> {
        match self {
            DataLoader::Single(l) => l.chunk_seq(),
            DataLoader::MultiThread(m) => m.chunk_seq(),
        }
    }

    /// The batches of one pass, as views, in delivery order.
    pub open spec fn batch_views(&self) -> Seq<O::V> {
        match self {
            DataLoader::Single(l) => l.batch_views(),
            DataLoader::MultiThread(m) => m.batch_views(),
        }
    }

    /// Every worker batches with size `bs` and batcher `batcher`.
    pub open spec fn uniform(&self, bs: usize, batcher: B) -> bool {
        match self {
            DataLoader::Single(l) => l.size() == bs && l.batcher_view() == batcher,
            DataLoader::MultiThread(m) => forall|i: int|
                0 <= i < m.workers_view().len() ==> #[trigger] m.workers_view()[i].size() == bs
                    && m.workers_view()[i].batcher_view() == batcher,
        }
    }
}

impl<I: Copy, O: View, B: Batcher<I, O> + Copy> DataLoader<I, O, B> {
    /// Begins a fresh pass over the loader's batches.
    pub fn iter(&self) -> (it: DataLoaderIterator<I, O, B>)
        requires
            self.wf(),
        ensures
            it.wf(),
            it.remaining_chunks() == self.chunk_seq(),
            it.remaining_views() == self.batch_views(),
            it.processed_spec() == 0,
            it.total_spec() as int == self.items_seq().len(),
    {
        match self {
            DataLoader::Single(l) => {
                let part = l.iter();
                let total = l.items.len();
                let mut parts: Vec<BatchDataLoaderIterator<I, O, B>> = Vec::new();
                let ghost partg = part;
                parts.push(part);
                let it = DataLoaderIterator { parts, current: 0, processed: 0, total };
                proof {
                    let pv = it.parts@;
                    assert(pv.skip(0) =~= pv);
                    assert(pv.map_values(
                        |p: BatchDataLoaderIterator<I, O, B>| p.remaining_chunks(),
                    ) =~= seq![partg.remaining_chunks()]);
                    assert(pv.map_values(
                        |p: BatchDataLoaderIterator<I, O, B>| p.remaining_views(),
                    ) =~= seq![partg.remaining_views()]);
                    seq![partg.remaining_chunks()].lemma_flatten_one_element();
                    seq![partg.remaining_views()].lemma_flatten_one_element();
                    assert(pass_left(pv) == partg.items_view().len() - 0 + pass_left(
                        pv.drop_first(),
                    ));
                    assert(pv.drop_first() =~= Seq::<BatchDataLoaderIterator<I, O, B>>::empty());
                    assert(pass_left(Seq::<BatchDataLoaderIterator<I, O, B>>::empty()) == 0);
                }
                it
            },
            DataLoader::MultiThread(m) => {
                let it = m.iter();
                proof {
                    assert(m.total() as int == m.items_seq().len());
                }
                it
            },
        }
    }
}

/// Configures and creates a [`DataLoader`]: batch size, worker count and
/// shuffle seed are optional; one worker and batch size 1 are the
/// defaults.
pub struct DataLoaderBuilder<I, O: View, B: Batcher<I, O>> {
    batcher: B,
    batch_size_cfg: Option<usize>,
    num_threads: Option<usize>,
    shuffle_seed: Option<u64>,
    marker: PhantomData<(I, O)>,
}

/// The items a pass delivers: the dataset as given, or reordered by the
/// seed's permutation when shuffling is configured.
pub open spec fn loaded_items<I>(dataset: Seq<I>, seed_opt: Option<u64>) -> Seq<I> {
    match seed_opt {
        Some(seed) => crate::shuffle::shuffle_of(dataset, seed),
        None => dataset,
    }
}

impl<I, O: View, B: Batcher<I, O>> DataLoaderBuilder<I, O, B> {
    pub closed spec fn batcher_view(&self) -> B {
        self.batcher
    }

    pub closed spec fn batch_size_opt(&self) -> Option<usize> {
        self.batch_size_cfg
    }

    pub closed spec fn num_threads_opt(&self) -> Option<usize> {
        self.num_threads
    }

    pub closed spec fn shuffle_opt(&self) -> Option<u64> {
        self.shuffle_seed
    }

    /// The batch size a built loader uses: the configured one, or 1.
    pub open spec fn effective_batch_size(&self) -> usize {
        match self.batch_size_opt() {
            Some(b) => b,
            None => 1,
        }
    }

    pub open spec fn wf(&self) -> bool {
        &&& (self.batch_size_opt() matches Some(b) ==> b >= 1)
        &&& (self.num_threads_opt() matches Some(n) ==> n >= 1)
    }
}

impl<I: Copy, O: View, B: Batcher<I, O> + Copy> DataLoaderBuilder<I, O, B> {
    pub fn new(batcher: B) -> (builder: Self)
        ensures
            builder.wf(),
            builder.batcher_view() == batcher,
            builder.batch_size_opt() is None,
            builder.num_threads_opt() is None,
            builder.shuffle_opt() is None,
    {
        DataLoaderBuilder {
            batcher,
            batch_size_cfg: None,
            num_threads: None,
            shuffle_seed: None,
            marker: PhantomData,
        }
    }

    /// Configures the number of items per complete batch.
    pub fn batch_size(self, batch_size: usize) -> (builder: Self)
        requires
            self.wf(),
            batch_size >= 1,
        ensures
            builder.wf(),
            builder.batch_size_opt() == Some(batch_size),
            builder.batcher_view() == self.batcher_view(),
            builder.num_threads_opt() == self.num_threads_opt(),
            builder.shuffle_opt() == self.shuffle_opt(),
    {
        DataLoaderBuilder { batch_size_cfg: Some(batch_size), ..self }
    }

    /// Configures deterministic shuffling, keyed by `seed`.
    pub fn shuffle(self, seed: u64) -> (builder: Self)
        requires
            self.wf(),
        ensures
            builder.wf(),
            builder.shuffle_opt() == Some(seed),
            builder.batcher_view() == self.batcher_view(),
            builder.batch_size_opt() == self.batch_size_opt(),
            builder.num_threads_opt() == self.num_threads_opt(),
    {
        DataLoaderBuilder { shuffle_seed: Some(seed), ..self }
    }

    /// Configures the worker-pool size.
    pub fn num_workers(self, num_workers: usize) -> (builder: Self)
        requires
            self.wf(),
            num_workers >= 1,
        ensures
            builder.wf(),
            builder.num_threads_opt() == Some(num_workers),
            builder.batcher_view() == self.batcher_view(),
            builder.batch_size_opt() == self.batch_size_opt(),
            builder.shuffle_opt() == self.shuffle_opt(),
    {
        DataLoaderBuilder { num_threads: Some(num_workers), ..self }
    }

    /// Creates the loader: shuffles the dataset if a seed was configured,
    /// then hands it, whole or split into worker slices, to the loader.
    #[verifier::rlimit(100)]
    pub fn build(self, dataset: Vec<I>) -> (loader: DataLoader<I, O, B>)
        requires
            self.wf(),
        ensures
            loader.wf(),
            loader.items_seq() == loaded_items(dataset@, self.shuffle_opt()),
            loader.items_seq().to_multiset() == dataset@.to_multiset(),
            loader.slices() == (match self.num_threads_opt() {
                Some(n) => split_slices(loaded_items(dataset@, self.shuffle_opt()), n as nat),
                None => seq![loaded_items(dataset@, self.shuffle_opt())],
            }),
            loader.uniform(self.effective_batch_size(), self.batcher_view()),
    {
        let ghost source = dataset@;
        let items = match self.shuffle_seed {
            Some(seed) => crate::shuffle::shuffle_vec(dataset, seed),
            None => dataset,
        };
        proof {
            assert(items@ == loaded_items(source, self.shuffle_opt()));
            assert(items@.to_multiset() == source.to_multiset());
        }
        let bs: usize = match self.batch_size_cfg {
            Some(b) => b,
            None => 1,
        };
        proof {
            assert(bs == self.effective_batch_size());
        }
        let loader = match self.num_threads {
            Some(n) => DataLoader::MultiThread(
                MultiThreadBatchDataLoader::multi_thread(bs, items, self.batcher, n),
            ),
            None => DataLoader::Single(BatchDataLoader::new(bs, items, self.batcher)),
        };
        proof {
            assert(loader.items_seq() == loaded_items(source, self.shuffle_opt()));
            assert(loader.uniform(self.effective_batch_size(), self.batcher_view()));
        }
        loader
    }
}

/// The batches of a pass, as a function of the worker slices, the batch
/// size and the batcher alone.
pub open spec fn views_of_slices<I, O: View, B: Batcher<I, O>>(
    slices: Seq<Seq<I>>,
    b: nat,
    batcher: B,
) -> Seq<O::V> {
    slices.map_values(
        |sl: Seq<I>| chunks_of(sl, b).map_values(|c: Seq<I>| batcher.batch_spec(c)),
    ).flatten()
}

/// A loader's batches are a pure function of its layout: the worker
/// slices, the batch size and the batcher.
pub proof fn lemma_views_from_layout<I, O: View, B: Batcher<I, O>>(
    loader: DataLoader<I, O, B>,
    bs: usize,
    batcher: B,
)
    requires
        loader.wf(),
        loader.uniform(bs, batcher),
    ensures
        loader.batch_views() == views_of_slices::<I, O, B>(loader.slices(), bs as nat, batcher),
{
    match loader {
        DataLoader::Single(l) => {
            let inner = chunks_of(l.items_view(), bs as nat).map_values(
                |c: Seq<I>| batcher.batch_spec(c),
            );
            assert(inner =~= l.batch_views());
            let ms = loader.slices().map_values(
                |sl: Seq<I>| chunks_of(sl, bs as nat).map_values(
                    |c: Seq<I>| batcher.batch_spec(c),
                ),
            );
            assert(ms[0] =~= inner);
            assert(ms =~= seq![inner]);
            assert(views_of_slices::<I, O, B>(loader.slices(), bs as nat, batcher)
                == ms.flatten());
            seq![inner].lemma_flatten_one_element();
        },
        DataLoader::MultiThread(m) => {
            let ms = m.slices().map_values(
                |sl: Seq<I>| chunks_of(sl, bs as nat).map_values(
                    |c: Seq<I>| batcher.batch_spec(c),
                ),
            );
            let mw = m.workers_view().map_values(
                |w: BatchDataLoader<I, O, B>| w.batch_views(),
            );
            assert forall|i: int| 0 <= i < mw.len() implies mw[i] == ms[i] by {
                assert(mw[i] =~= ms[i]);
            }
            assert(mw =~= ms);
        },
    }
}

/// Two passes with the same worker layout, batch size and batcher deliver
/// the same batches in the same order; together with `build`, two loaders
/// built with the same configuration and seed over the same dataset are
/// therefore indistinguishable.
pub proof fn lemma_loader_deterministic<I, O: View, B: Batcher<I, O>>(
    l1: DataLoader<I, O, B>,
    l2: DataLoader<I, O, B>,
    bs: usize,
    batcher: B,
)
    requires
        l1.wf(),
        l2.wf(),
        l1.uniform(bs, batcher),
        l2.uniform(bs, batcher),
        l1.slices() == l2.slices(),
    ensures
        l1.batch_views() == l2.batch_views(),
{
    lemma_views_from_layout(l1, bs, batcher);
    lemma_views_from_layout(l2, bs, batcher);
}

/// A full pass delivers exactly the loaded items, however many workers
/// share it: concatenating every delivered item group, in delivery order,
/// gives the loaded item sequence back - no item lost, none duplicated.
pub proof fn lemma_pass_preserves_items<I, O: View, B: Batcher<I, O>>(loader: DataLoader<I, O, B>)
    requires
        loader.wf(),
    ensures
        loader.chunk_seq().flatten() == loader.items_seq(),
{
    match loader {
        DataLoader::Single(l) => {
            crate::strategy::lemma_chunks_of_flatten(l.items_view(), l.size() as nat);
        },
        DataLoader::MultiThread(m) => {
            lemma_workers_chunks_flatten(m.workers_view());
        },
    }
}

proof fn lemma_workers_chunks_flatten<I, O: View, B: Batcher<I, O>>(
    ws: Seq<BatchDataLoader<I, O, B>>,
)
    requires
        forall|i: int| 0 <= i < ws.len() ==> #[trigger] ws[i].wf(),
    ensures
        ws.map_values(|w: BatchDataLoader<I, O, B>| w.chunk_seq()).flatten().flatten()
            == ws.map_values(|w: BatchDataLoader<I, O, B>| w.items_view()).flatten(),
    decreases ws.len(),
{
    let mc = ws.map_values(|w: BatchDataLoader<I, O, B>| w.chunk_seq());
    let mi = ws.map_values(|w: BatchDataLoader<I, O, B>| w.items_view());
    if ws.len() == 0 {
        assert(mc.flatten() =~= Seq::<Seq<I>>::empty());
        assert(mc.flatten().flatten() =~= Seq::<I>::empty());
        assert(mi.flatten() =~= Seq::<I>::empty());
    } else {
        let rest = ws.drop_first();
        assert(ws[0].wf());
        assert(forall|i: int| 0 <= i < rest.len() ==> #[trigger] rest[i].wf());
        lemma_workers_chunks_flatten(rest);
        crate::strategy::lemma_chunks_of_flatten(ws[0].items_view(), ws[0].size() as nat);
        let mcr = rest.map_values(|w: BatchDataLoader<I, O, B>| w.chunk_seq());
        let mir = rest.map_values(|w: BatchDataLoader<I, O, B>| w.items_view());
        assert(mc.drop_first() =~= mcr);
        assert(mi.drop_first() =~= mir);
        assert(mc.flatten() =~= mc[0] + mcr.flatten());
        vstd::seq_lib::lemma_flatten_concat(mc[0], mcr.flatten());
        assert(mc.flatten().flatten() == mc[0].flatten() + mcr.flatten().flatten());
        assert(mi.flatten() =~= mi[0] + mir.flatten());
        assert(mc[0].flatten() == mi[0]);
    }
}

} // verus!
