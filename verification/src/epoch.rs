//! Epoch drivers: one full pass over a loader's batches, stepping the
//! model per batch, accumulating gradients, driving the optimizer and
//! reporting every step and the end of the pass to the observer.

use crate::batcher::Batcher;
use crate::callback::{LearnerCallback, LearnerItem};
use crate::dataloader::{lemma_pass_preserves_items, DataLoader, DataLoaderIterator};
use crate::grads::GradientsAccumulator;
use crate::grads::GradientsParams;
use crate::module::{ADModule, Module};
use crate::optim::Optimizer;
use crate::tensor::Device;
use vstd::arithmetic::div_mod::lemma_fundamental_div_mod;
use vstd::arithmetic::div_mod::lemma_fundamental_div_mod_converse;
use vstd::prelude::*;

verus! {

/// What one training step hands back: the step's output for observers,
/// and the gradients computed for the batch.
pub struct TrainOutput<TO> {
    pub item: TO,
    pub grads: GradientsParams,
}

/// One training step: computes the batch's output and its gradients.
/// What the gradients hold is the model's own affair; the engine only
/// relies on the set being well-formed.
pub trait TrainStep<TI, TO>: Sized {
    fn step(&self, item: TI) -> (out: TrainOutput<TO>)
        ensures
            out.grads.wf(),
    ;
}

/// One inference step: computes the batch's output; no gradients, no
/// parameter change.
pub trait ValidStep<VI, VO>: Sized {
    fn step(&self, item: VI) -> VO;
}

/// What a training pass did: how many batches it stepped, and how many
/// optimizer updates it applied.
#[derive(Clone, Copy, PartialEq, Eq, Structural, Debug)]
pub struct TrainReport {
    pub iterations: usize,
    pub optimizer_updates: usize,
}

/// The structural fields of the `k`-th progress record of a pass over
/// `chunks`: the epoch pair, the 1-based iteration, and progress counted
/// in raw items - exactly the items of the batches delivered up to and
/// including this one.
pub open spec fn pass_record_ok<T, I>(
    entry: LearnerItem<T>,
    epoch: usize,
    epoch_total: usize,
    k: int,
    chunks: Seq<Seq<I>>,
) -> bool {
    &&& entry.epoch == epoch
    &&& entry.epoch_total == epoch_total
    &&& entry.iteration == k + 1
    &&& entry.progress.items_total as int == chunks.flatten().len()
    &&& entry.progress.items_processed as int == chunks.take(k + 1).flatten().len()
}

/// As [`pass_record_ok`], for a record logged inside a multi-device
/// round: progress is read after the whole round was pulled, so it
/// counts at least this batch's items and at most the pass's total.
pub open spec fn pass_record_in_round<T, I>(
    entry: LearnerItem<T>,
    epoch: usize,
    epoch_total: usize,
    k: int,
    chunks: Seq<Seq<I>>,
) -> bool {
    &&& entry.epoch == epoch
    &&& entry.epoch_total == epoch_total
    &&& entry.iteration == k + 1
    &&& entry.progress.items_total as int == chunks.flatten().len()
    &&& chunks.take(k + 1).flatten().len() <= entry.progress.items_processed as int
        <= chunks.flatten().len()
}

/// One more batch adds exactly its items to the delivered count.
proof fn lemma_flatten_take_step<X>(s: Seq<Seq<X>>, k: int)
    requires
        0 <= k < s.len(),
    ensures
        s.take(k + 1).flatten().len() == s.take(k).flatten().len() + s[k].len(),
{
    assert(s.take(k + 1) =~= s.take(k).push(s[k]));
    s.take(k).lemma_flatten_push(s[k]);
}

/// The delivered count splits at any batch boundary.
proof fn lemma_flatten_take_parts<X>(s: Seq<Seq<X>>, a: int, b: int)
    requires
        0 <= a <= b <= s.len(),
    ensures
        s.take(b).flatten().len() == s.take(a).flatten().len() + s.skip(a).take(b - a)
            .flatten().len(),
{
    assert(s.take(b) =~= s.take(a) + s.skip(a).take(b - a));
    vstd::seq_lib::lemma_flatten_concat(s.take(a), s.skip(a).take(b - a));
}

/// Delivering more batches never shrinks the delivered item count.
proof fn lemma_flatten_take_mono<X>(s: Seq<Seq<X>>, a: int, b: int)
    requires
        0 <= a <= b <= s.len(),
    ensures
        s.take(a).flatten().len() <= s.take(b).flatten().len(),
{
    lemma_flatten_take_parts(s, a, b);
}

/// How the contribution counter and the update count move when one more
/// contribution arrives under threshold `k`.
proof fn lemma_counter_step(i: int, k: int)
    requires
        k >= 1,
        i >= 0,
    ensures
        i % k == k - 1 ==> ((i + 1) % k == 0 && (i + 1) / k == i / k + 1),
        i % k < k - 1 ==> ((i + 1) % k == i % k + 1 && (i + 1) / k == i / k),
{
    lemma_fundamental_div_mod(i, k);
    if i % k == k - 1 {
        assert(i + 1 == (i / k + 1) * k + 0) by (nonlinear_arith)
            requires i == k * (i / k) + i % k && i % k == k - 1;
        lemma_fundamental_div_mod_converse(i + 1, k, i / k + 1, 0);
    } else {
        assert(i + 1 == (i / k) * k + (i % k + 1)) by (nonlinear_arith)
            requires i == k * (i / k) + i % k;
        lemma_fundamental_div_mod_converse(i + 1, k, i / k, i % k + 1);
    }
}

/// A validation pass: drives the model's gradient-free projection over
/// every batch of one pass, reporting each result to the callback.
pub struct ValidEpoch<I, O: View, B: Batcher<I, O>> {
    dataloader: DataLoader<I, O, B>,
    epoch: usize,
    epoch_total: usize,
}

impl<I, O: View, B: Batcher<I, O>> ValidEpoch<I, O, B> {
    pub closed spec fn dataloader_spec(&self) -> DataLoader<I, O, B> {
        self.dataloader
    }

    pub closed spec fn epoch_spec(&self) -> usize {
        self.epoch
    }

    pub closed spec fn epoch_total_spec(&self) -> usize {
        self.epoch_total
    }

    pub open spec fn wf(&self) -> bool {
        self.dataloader_spec().wf()
    }
}

impl<I: Copy, O: View, B: Batcher<I, O> + Copy> ValidEpoch<I, O, B> {
    pub fn new(dataloader: DataLoader<I, O, B>, epoch: usize, epoch_total: usize) -> (e: Self)
        requires
            dataloader.wf(),
        ensures
            e.wf(),
            e.dataloader_spec() == dataloader,
            e.epoch_spec() == epoch,
            e.epoch_total_spec() == epoch_total,
    {
        ValidEpoch { dataloader, epoch, epoch_total }
    }

    /// Runs one read-only pass. The model is viewed through its
    /// gradient-free projection for the pass and handed back unchanged -
    /// the round trip is loss-free, no parameter is copied or mutated.
    /// Every batch of the pass is stepped exactly once: the observer
    /// receives one record per batch, in delivery order, with the pass's
    /// epoch, the 1-based iteration and exact item progress, and then one
    /// end-of-epoch notification.
    pub fn run<M, TO, VO, C>(&self, model: M, callback: &mut C) -> (m: M)
        where
            M: ADModule,
            M::InnerModule: ValidStep<O, VO>,
            C: LearnerCallback<TO, VO>,
        requires
            self.wf(),
        ensures
            m.params_view() == model.params_view(),
            final(callback).train_log() == old(callback).train_log(),
            final(callback).train_epochs_log() == old(callback).train_epochs_log(),
            final(callback).valid_epochs_log() == old(callback).valid_epochs_log().push(
                self.epoch_spec(),
            ),
            final(callback).valid_log().len() == old(callback).valid_log().len() + self
                .dataloader_spec().chunk_seq().len(),
            final(callback).valid_log().take(old(callback).valid_log().len() as int) == old(
                callback,
            ).valid_log(),
            forall|k: int|
                0 <= k < self.dataloader_spec().chunk_seq().len() ==> pass_record_ok(
                    #[trigger] final(callback).valid_log()[old(callback).valid_log().len() + k],
                    self.epoch_spec(),
                    self.epoch_total_spec(),
                    k,
                    self.dataloader_spec().chunk_seq(),
                ),
    {
        let ghost chunks0 = self.dataloader_spec().chunk_seq();
        let ghost nbatches = chunks0.len() as int;
        let ghost vl0 = callback.valid_log();
        let ghost tl0 = callback.train_log();
        let ghost tel0 = callback.train_epochs_log();
        let ghost vel0 = callback.valid_epochs_log();
        proof {
            lemma_pass_preserves_items(self.dataloader_spec());
            assert(chunks0.take(0) =~= Seq::<Seq<I>>::empty());
            assert(chunks0.take(0).flatten() =~= Seq::<I>::empty());
            assert(chunks0.skip(0) =~= chunks0);
        }
        let inner = model.inner();
        let mut iterator = self.dataloader.iter();
        let mut iteration: usize = 0;
        loop
            invariant
                self.wf(),
                iterator.wf(),
                chunks0 == self.dataloader_spec().chunk_seq(),
                nbatches == chunks0.len() as int,
                iterator.total_spec() as int == chunks0.flatten().len(),
                0 <= iteration <= nbatches,
                iteration <= iterator.processed_spec(),
                iterator.remaining_chunks() == chunks0.skip(iteration as int),
                iterator.processed_spec() as int == chunks0.take(iteration as int).flatten().len(),
                callback.train_log() == tl0,
                callback.train_epochs_log() == tel0,
                callback.valid_epochs_log() == vel0,
                callback.valid_log().len() == vl0.len() + iteration,
                callback.valid_log().take(vl0.len() as int) == vl0,
                forall|k: int|
                    0 <= k < iteration ==> pass_record_ok(
                        #[trigger] callback.valid_log()[vl0.len() + k],
                        self.epoch_spec(),
                        self.epoch_total_spec(),
                        k,
                        chunks0,
                    ),
            ensures
                iteration == nbatches,
                callback.train_log() == tl0,
                callback.train_epochs_log() == tel0,
                callback.valid_epochs_log() == vel0,
                callback.valid_log().len() == vl0.len() + nbatches,
                callback.valid_log().take(vl0.len() as int) == vl0,
                forall|k: int|
                    0 <= k < nbatches ==> pass_record_ok(
                        #[trigger] callback.valid_log()[vl0.len() + k],
                        self.epoch_spec(),
                        self.epoch_total_spec(),
                        k,
                        chunks0,
                    ),
            decreases iterator.remaining_chunks().len(),
        {
            let batch = iterator.next();
            match batch {
                None => {
                    proof {
                        assert(chunks0.skip(iteration as int).len() == 0);
                    }
                    break ;
                },
                Some(item) => {
                    proof {
                        assert(chunks0.skip(iteration as int)[0] == chunks0[iteration as int]);
                        assert(chunks0.skip(iteration as int).drop_first() =~= chunks0.skip(
                            iteration + 1,
                        ));
                        lemma_flatten_take_step(chunks0, iteration as int);
                    }
                    let progress = iterator.progress();
                    iteration = iteration + 1;
                    let out = inner.step(item);
                    let ghost before = callback.valid_log();
                    callback.on_valid_item(
                        LearnerItem::new(out, progress, self.epoch, self.epoch_total, iteration),
                    );
                    proof {
                        assert(callback.valid_log().take(vl0.len() as int) =~= vl0);
                        assert forall|k: int| 0 <= k < iteration implies pass_record_ok(
                            #[trigger] callback.valid_log()[vl0.len() + k],
                            self.epoch_spec(),
                            self.epoch_total_spec(),
                            k,
                            chunks0,
                        ) by {
                            if k < iteration - 1 {
                                assert(callback.valid_log()[vl0.len() + k] == before[vl0.len()
                                    + k]);
                            } else {
                                assert(callback.valid_log()[vl0.len() + k] == callback.valid_log()
                                    .last());
                            }
                        }
                    }
                },
            }
        }
        callback.on_valid_end_epoch(self.epoch);
        M::from_inner(inner)
    }
}

/// A training pass: steps the model over every batch of one pass,
/// accumulates gradients when a threshold is configured, and drives the
/// optimizer.
pub struct TrainEpoch<I, O: View, B: Batcher<I, O>> {
    dataloader: DataLoader<I, O, B>,
    epoch: usize,
    epoch_total: usize,
    grad_accumulation: Option<usize>,
}

impl<I, O: View, B: Batcher<I, O>> TrainEpoch<I, O, B> {
    pub closed spec fn dataloader_spec(&self) -> DataLoader<I, O, B> {
        self.dataloader
    }

    pub closed spec fn epoch_spec(&self) -> usize {
        self.epoch
    }

    pub closed spec fn epoch_total_spec(&self) -> usize {
        self.epoch_total
    }

    pub closed spec fn grad_accumulation_spec(&self) -> Option<usize> {
        self.grad_accumulation
    }

    pub open spec fn wf(&self) -> bool {
        &&& self.dataloader_spec().wf()
        &&& (self.grad_accumulation_spec() matches Some(k) ==> k >= 1)
    }
}

impl<I: Copy, O: View, B: Batcher<I, O> + Copy> TrainEpoch<I, O, B> {
    pub fn new(
        dataloader: DataLoader<I, O, B>,
        epoch: usize,
        epoch_total: usize,
        grad_accumulation: Option<usize>,
    ) -> (e: Self)
        requires
            dataloader.wf(),
            grad_accumulation matches Some(k) ==> k >= 1,
        ensures
            e.wf(),
            e.dataloader_spec() == dataloader,
            e.epoch_spec() == epoch,
            e.epoch_total_spec() == epoch_total,
            e.grad_accumulation_spec() == grad_accumulation,
    {
        TrainEpoch { dataloader, epoch, epoch_total, grad_accumulation }
    }

    /// Runs one training pass. Every batch is stepped exactly once, in
    /// the pass's delivery order. Without accumulation the optimizer is
    /// updated once per batch. With threshold `K`, gradients are summed
    /// into the accumulator and the optimizer is updated on every `K`th
    /// contribution with the drained totals, so a pass of `P` batches
    /// applies exactly `P / K` (rounded down) updates; a trailing partial
    /// group is not applied and is discarded with the pass. The observer
    /// receives one record per batch, in delivery order, with the pass's
    /// epoch, the 1-based iteration and exact item progress, and then one
    /// end-of-epoch notification.
    pub fn run<M, Opt, TO, VO, C>(&self, model: M, optim: Opt, callback: &mut C) -> (r: (
        M,
        Opt,
        TrainReport,
    ))
        where
            M: Module + TrainStep<O, TO>,
            Opt: Optimizer<M>,
            C: LearnerCallback<TO, VO>,
        requires
            self.wf(),
        ensures
            r.2.iterations as int == self.dataloader_spec().chunk_seq().len(),
            (match self.grad_accumulation_spec() {
                Some(k) => r.2.optimizer_updates as int == r.2.iterations as int / (k as int),
                None => r.2.optimizer_updates == r.2.iterations,
            }),
            final(callback).valid_log() == old(callback).valid_log(),
            final(callback).valid_epochs_log() == old(callback).valid_epochs_log(),
            final(callback).train_epochs_log() == old(callback).train_epochs_log().push(
                self.epoch_spec(),
            ),
            final(callback).train_log().len() == old(callback).train_log().len() + self
                .dataloader_spec().chunk_seq().len(),
            final(callback).train_log().take(old(callback).train_log().len() as int) == old(
                callback,
            ).train_log(),
            forall|k: int|
                0 <= k < self.dataloader_spec().chunk_seq().len() ==> pass_record_ok(
                    #[trigger] final(callback).train_log()[old(callback).train_log().len() + k],
                    self.epoch_spec(),
                    self.epoch_total_spec(),
                    k,
                    self.dataloader_spec().chunk_seq(),
                ),
    {
        let ghost chunks0 = self.dataloader_spec().chunk_seq();
        let ghost nbatches = chunks0.len() as int;
        let ghost tl0 = callback.train_log();
        let ghost vl0 = callback.valid_log();
        let ghost tel0 = callback.train_epochs_log();
        let ghost vel0 = callback.valid_epochs_log();
        proof {
            lemma_pass_preserves_items(self.dataloader_spec());
            assert(chunks0.take(0) =~= Seq::<Seq<I>>::empty());
            assert(chunks0.take(0).flatten() =~= Seq::<I>::empty());
            assert(chunks0.skip(0) =~= chunks0);
        }
        let mut iterator = self.dataloader.iter();
        let mut iteration: usize = 0;
        let mut updates: usize = 0;
        let mut accumulator = GradientsAccumulator::new();
        let mut accumulation_current: usize = 0;
        let mut model = model;
        let mut optim = optim;
        loop
            invariant
                self.wf(),
                iterator.wf(),
                accumulator.wf(),
                chunks0 == self.dataloader_spec().chunk_seq(),
                nbatches == chunks0.len() as int,
                iterator.total_spec() as int == chunks0.flatten().len(),
                0 <= iteration <= nbatches,
                iteration <= iterator.processed_spec(),
                iterator.remaining_chunks() == chunks0.skip(iteration as int),
                iterator.processed_spec() as int == chunks0.take(iteration as int).flatten().len(),
                (match self.grad_accumulation_spec() {
                    Some(k) => accumulation_current as int == iteration as int % (k as int)
                        && updates as int == iteration as int / (k as int),
                    None => updates == iteration && accumulation_current == 0,
                }),
                callback.valid_log() == vl0,
                callback.train_epochs_log() == tel0,
                callback.valid_epochs_log() == vel0,
                callback.train_log().len() == tl0.len() + iteration,
                callback.train_log().take(tl0.len() as int) == tl0,
                forall|k: int|
                    0 <= k < iteration ==> pass_record_ok(
                        #[trigger] callback.train_log()[tl0.len() + k],
                        self.epoch_spec(),
                        self.epoch_total_spec(),
                        k,
                        chunks0,
                    ),
            ensures
                iteration == nbatches,
                (match self.grad_accumulation_spec() {
                    Some(k) => updates as int == iteration as int / (k as int),
                    None => updates == iteration,
                }),
                callback.valid_log() == vl0,
                callback.train_epochs_log() == tel0,
                callback.valid_epochs_log() == vel0,
                callback.train_log().len() == tl0.len() + nbatches,
                callback.train_log().take(tl0.len() as int) == tl0,
                forall|k: int|
                    0 <= k < nbatches ==> pass_record_ok(
                        #[trigger] callback.train_log()[tl0.len() + k],
                        self.epoch_spec(),
                        self.epoch_total_spec(),
                        k,
                        chunks0,
                    ),
            decreases iterator.remaining_chunks().len(),
        {
            let batch = iterator.next();
            match batch {
                None => {
                    proof {
                        assert(chunks0.skip(iteration as int).len() == 0);
                    }
                    break ;
                },
                Some(item) => {
                    proof {
                        assert(chunks0.skip(iteration as int)[0] == chunks0[iteration as int]);
                        assert(chunks0.skip(iteration as int).drop_first() =~= chunks0.skip(
                            iteration + 1,
                        ));
                        lemma_flatten_take_step(chunks0, iteration as int);
                    }
                    iteration = iteration + 1;
                    let progress = iterator.progress();
                    let out = model.step(item);
                    match self.grad_accumulation {
                        Some(accumulation) => {
                            proof {
                                lemma_counter_step(iteration as int - 1, accumulation as int);
                            }
                            accumulator.accumulate(out.grads);
                            accumulation_current = accumulation_current + 1;
                            if accumulation <= accumulation_current {
                                let grads = accumulator.grads();
                                model = optim.update_module(model, grads);
                                updates = updates + 1;
                                accumulation_current = 0;
                            }
                        },
                        None => {
                            model = optim.update_module(model, out.grads);
                            updates = updates + 1;
                        },
                    }
                    let ghost before = callback.train_log();
                    callback.on_train_item(
                        LearnerItem::new(
                            out.item,
                            progress,
                            self.epoch,
                            self.epoch_total,
                            iteration,
                        ),
                    );
                    proof {
                        assert(callback.train_log().take(tl0.len() as int) =~= tl0);
                        assert forall|k: int| 0 <= k < iteration implies pass_record_ok(
                            #[trigger] callback.train_log()[tl0.len() + k],
                            self.epoch_spec(),
                            self.epoch_total_spec(),
                            k,
                            chunks0,
                        ) by {
                            if k < iteration - 1 {
                                assert(callback.train_log()[tl0.len() + k] == before[tl0.len()
                                    + k]);
                            } else {
                                assert(callback.train_log()[tl0.len() + k] == callback.train_log()
                                    .last());
                            }
                        }
                    }
                },
            }
        }
        callback.on_train_end_epoch(self.epoch);
        (model, optim, TrainReport { iterations: iteration, optimizer_updates: updates })
    }
}

/// Fans one round of batches out across the devices: pulls up to one
/// batch per device from the shared pass and steps the model once per
/// pulled batch. Device placement is not represented in this model of
/// tensors; the device list fixes the fan-out width, and device 0 is the
/// reduction target the gradients conceptually gather on.
pub struct MultiDevicesTrainStep {
    devices: Vec<Device>,
}

impl MultiDevicesTrainStep {
    pub closed spec fn devices_spec(&self) -> Seq<Device> {
        self.devices@
    }

    pub fn new(devices: &Vec<Device>) -> (s: Self)
        ensures
            s.devices_spec() == devices@,
    {
        let mut copy: Vec<Device> = Vec::new();
        let mut i: usize = 0;
        while i < devices.len()
            invariant
                i <= devices@.len(),
                copy@ == devices@.take(i as int),
            decreases devices@.len() - i,
        {
            copy.push(devices[i]);
            proof {
                assert(devices@.take(i + 1) =~= devices@.take(i as int).push(devices@[i as int]));
            }
            i = i + 1;
        }
        proof {
            assert(devices@.take(devices@.len() as int) =~= devices@);
        }
        MultiDevicesTrainStep { devices: copy }
    }

    /// One round: pulls up to one batch per device and steps each; when
    /// the pass runs dry mid-round, only the outputs actually produced
    /// come back, and an empty round signals end-of-pass.
    pub fn step<I, O, B, M, TO>(&self, iterator: &mut DataLoaderIterator<I, O, B>, model: &M) -> (
        outs: Vec<TrainOutput<TO>>)
        where
            I: Copy,
            O: View,
            B: Batcher<I, O> + Copy,
            M: Module + TrainStep<O, TO>,
        requires
            old(iterator).wf(),
        ensures
            final(iterator).wf(),
            final(iterator).total_spec() == old(iterator).total_spec(),
            outs@.len() == (if old(iterator).remaining_chunks().len()
                < self.devices_spec().len() {
                old(iterator).remaining_chunks().len() as int
            } else {
                self.devices_spec().len() as int
            }),
            final(iterator).remaining_chunks() == old(iterator).remaining_chunks().skip(
                outs@.len() as int,
            ),
            final(iterator).processed_spec() >= old(iterator).processed_spec() + outs@.len(),
            final(iterator).processed_spec() as int == old(iterator).processed_spec() + old(
                iterator,
            ).remaining_chunks().take(outs@.len() as int).flatten().len(),
            forall|k: int| 0 <= k < outs@.len() ==> (#[trigger] outs@[k]).grads.wf(),
    {
        let mut outs: Vec<TrainOutput<TO>> = Vec::new();
        let mut d: usize = 0;
        let width = self.devices.len();
        let ghost rc0 = iterator.remaining_chunks();
        let ghost processed0 = iterator.processed_spec();
        let ghost total0 = iterator.total_spec();
        proof {
            assert(rc0.take(0) =~= Seq::<Seq<I>>::empty());
            assert(rc0.take(0).flatten() =~= Seq::<I>::empty());
        }
        while d < width
            invariant
                iterator.wf(),
                iterator.total_spec() == total0,
                d <= width,
                outs@.len() == d,
                iterator.remaining_chunks() == rc0.skip(d as int),
                iterator.processed_spec() >= processed0 + d,
                iterator.processed_spec() as int == processed0 + rc0.take(d as int)
                    .flatten().len(),
                rc0.len() >= d,
                forall|k: int| 0 <= k < outs@.len() ==> (#[trigger] outs@[k]).grads.wf(),
            ensures
                iterator.wf(),
                iterator.total_spec() == total0,
                outs@.len() == (if rc0.len() < width {
                    rc0.len() as int
                } else {
                    width as int
                }),
                iterator.remaining_chunks() == rc0.skip(outs@.len() as int),
                iterator.processed_spec() >= processed0 + outs@.len(),
                iterator.processed_spec() as int == processed0 + rc0.take(outs@.len() as int)
                    .flatten().len(),
                forall|k: int| 0 <= k < outs@.len() ==> (#[trigger] outs@[k]).grads.wf(),
            decreases width - d,
        {
            let batch = iterator.next();
            match batch {
                None => {
                    proof {
                        assert(rc0.skip(d as int).len() == 0);
                        assert(rc0.len() == d);
                    }
                    break ;
                },
                Some(item) => {
                    proof {
                        assert(rc0.skip(d as int)[0] == rc0[d as int]);
                        assert(rc0.skip(d as int).drop_first() =~= rc0.skip(d + 1));
                        lemma_flatten_take_step(rc0, d as int);
                    }
                    let out = model.step(item);
                    outs.push(out);
                    d = d + 1;
                },
            }
        }
        proof {
            assert(rc0.skip(outs@.len() as int) == iterator.remaining_chunks());
        }
        outs
    }
}

impl<I: Copy, O: View, B: Batcher<I, O> + Copy> TrainEpoch<I, O, B> {
    /// Runs one training pass fanned out across `devices`. Rounds of up
    /// to one batch per device are stepped; every contribution counts one
    /// unit toward the shared accumulation target, which is the
    /// configured threshold (1 when none is set) times the number of
    /// devices. A pass of `P` batches therefore applies exactly
    /// `P / (K * D)` (rounded down) optimizer updates, each using the
    /// summed gradients of one full group; the trailing partial group is
    /// not applied. The observer receives one record per batch, in
    /// delivery order, with the pass's epoch, the 1-based iteration and
    /// progress as read at the end of the record's round, and then one
    /// end-of-epoch notification.
    pub fn run_multi_device<M, Opt, TO, VO, C>(
        &self,
        model: M,
        optim: Opt,
        callback: &mut C,
        devices: Vec<Device>,
    ) -> (r: (M, Opt, TrainReport))
        where
            M: Module + TrainStep<O, TO>,
            Opt: Optimizer<M>,
            C: LearnerCallback<TO, VO>,
        requires
            self.wf(),
            devices@.len() >= 1,
            (match self.grad_accumulation_spec() {
                Some(k) => k as int,
                None => 1int,
            }) * devices@.len() <= usize::MAX,
        ensures
            r.2.iterations as int == self.dataloader_spec().chunk_seq().len(),
            r.2.optimizer_updates as int == r.2.iterations as int / (
            (match self.grad_accumulation_spec() {
                Some(k) => k as int,
                None => 1int,
            }) * devices@.len() as int),
            final(callback).valid_log() == old(callback).valid_log(),
            final(callback).valid_epochs_log() == old(callback).valid_epochs_log(),
            final(callback).train_epochs_log() == old(callback).train_epochs_log().push(
                self.epoch_spec(),
            ),
            final(callback).train_log().len() == old(callback).train_log().len() + self
                .dataloader_spec().chunk_seq().len(),
            final(callback).train_log().take(old(callback).train_log().len() as int) == old(
                callback,
            ).train_log(),
            forall|k: int|
                0 <= k < self.dataloader_spec().chunk_seq().len() ==> pass_record_in_round(
                    #[trigger] final(callback).train_log()[old(callback).train_log().len() + k],
                    self.epoch_spec(),
                    self.epoch_total_spec(),
                    k,
                    self.dataloader_spec().chunk_seq(),
                ),
    {
        let ghost chunks0 = self.dataloader_spec().chunk_seq();
        let ghost nbatches = chunks0.len() as int;
        let ghost tl0 = callback.train_log();
        let ghost vl0 = callback.valid_log();
        let ghost tel0 = callback.train_epochs_log();
        let ghost vel0 = callback.valid_epochs_log();
        proof {
            lemma_pass_preserves_items(self.dataloader_spec());
            assert(chunks0.take(0) =~= Seq::<Seq<I>>::empty());
            assert(chunks0.take(0).flatten() =~= Seq::<I>::empty());
            assert(chunks0.skip(0) =~= chunks0);
        }
        let mut iterator = self.dataloader.iter();
        let mut iteration: usize = 0;
        let mut updates: usize = 0;
        let mut accumulator = GradientsAccumulator::new();
        let mut accumulation_current: usize = 0;
        let mut model = model;
        let mut optim = optim;
        let base: usize = match self.grad_accumulation {
            Some(k) => k,
            None => 1,
        };
        let accumulation: usize = base * devices.len();
        let step = MultiDevicesTrainStep::new(&devices);
        proof {
            assert(accumulation >= 1) by (nonlinear_arith)
                requires
                    accumulation == base * devices@.len() && base >= 1 && devices@.len() >= 1,
            ;
        }
        loop
            invariant
                self.wf(),
                iterator.wf(),
                accumulator.wf(),
                accumulation >= 1,
                step.devices_spec().len() >= 1,
                chunks0 == self.dataloader_spec().chunk_seq(),
                nbatches == chunks0.len() as int,
                iterator.total_spec() as int == chunks0.flatten().len(),
                0 <= iteration <= nbatches,
                iteration <= iterator.processed_spec(),
                iterator.remaining_chunks() == chunks0.skip(iteration as int),
                iterator.processed_spec() as int == chunks0.take(iteration as int).flatten().len(),
                accumulation_current as int == iteration as int % (accumulation as int),
                updates as int == iteration as int / (accumulation as int),
                callback.valid_log() == vl0,
                callback.train_epochs_log() == tel0,
                callback.valid_epochs_log() == vel0,
                callback.train_log().len() == tl0.len() + iteration,
                callback.train_log().take(tl0.len() as int) == tl0,
                forall|k: int|
                    0 <= k < iteration ==> pass_record_in_round(
                        #[trigger] callback.train_log()[tl0.len() + k],
                        self.epoch_spec(),
                        self.epoch_total_spec(),
                        k,
                        chunks0,
                    ),
            ensures
                iteration == nbatches,
                updates as int == iteration as int / (accumulation as int),
                callback.valid_log() == vl0,
                callback.train_epochs_log() == tel0,
                callback.valid_epochs_log() == vel0,
                callback.train_log().len() == tl0.len() + nbatches,
                callback.train_log().take(tl0.len() as int) == tl0,
                forall|k: int|
                    0 <= k < nbatches ==> pass_record_in_round(
                        #[trigger] callback.train_log()[tl0.len() + k],
                        self.epoch_spec(),
                        self.epoch_total_spec(),
                        k,
                        chunks0,
                    ),
            decreases iterator.remaining_chunks().len(),
        {
            let mut items = step.step(&mut iterator, &model);
            if items.len() == 0 {
                proof {
                    assert(iterator.remaining_chunks().len() == 0);
                    assert(chunks0.skip(iteration as int).len() == 0);
                }
                break ;
            }
            let ghost round = items@.len() as int;
            proof {
                assert(chunks0.skip(iteration as int).skip(round) =~= chunks0.skip(
                    iteration + round,
                ));
                lemma_flatten_take_parts(chunks0, iteration as int, iteration + round);
            }
            let mut j: usize = 0;
            while items.len() > 0
                invariant
                    self.wf(),
                    iterator.wf(),
                    accumulator.wf(),
                    accumulation >= 1,
                    chunks0 == self.dataloader_spec().chunk_seq(),
                    nbatches == chunks0.len() as int,
                    iterator.total_spec() as int == chunks0.flatten().len(),
                    j <= round <= usize::MAX,
                    items@.len() == round - j,
                    0 <= iteration,
                    iteration + (round - j) <= nbatches,
                    iteration + (round - j) <= iterator.processed_spec(),
                    iterator.remaining_chunks() == chunks0.skip(iteration + (round - j)),
                    iterator.processed_spec() as int == chunks0.take(iteration + (round - j))
                        .flatten().len(),
                    accumulation_current as int == iteration as int % (accumulation as int),
                    updates as int == iteration as int / (accumulation as int),
                    forall|k: int| 0 <= k < items@.len() ==> (#[trigger] items@[k]).grads.wf(),
                    callback.valid_log() == vl0,
                    callback.train_epochs_log() == tel0,
                    callback.valid_epochs_log() == vel0,
                    callback.train_log().len() == tl0.len() + iteration,
                    callback.train_log().take(tl0.len() as int) == tl0,
                    forall|k: int|
                        0 <= k < iteration ==> pass_record_in_round(
                            #[trigger] callback.train_log()[tl0.len() + k],
                            self.epoch_spec(),
                            self.epoch_total_spec(),
                            k,
                            chunks0,
                        ),
                decreases items@.len(),
            {
                let ghost items0 = items@;
                let out = items.remove(0);
                proof {
                    assert(out == items0[0]);
                    assert(items@ =~= items0.drop_first());
                    assert forall|k: int| 0 <= k < items@.len() implies (#[trigger] items@[k])
                        .grads.wf() by {
                        assert(items@[k] == items0[k + 1]);
                    }
                    lemma_counter_step(iteration as int, accumulation as int);
                    lemma_flatten_take_mono(chunks0, iteration as int + 1, iteration + (round
                        - j));
                    lemma_flatten_take_mono(chunks0, iteration + (round - j), nbatches);
                    assert(chunks0.take(nbatches) =~= chunks0);
                }
                iteration = iteration + 1;
                let progress = iterator.progress();
                accumulator.accumulate(out.grads);
                accumulation_current = accumulation_current + 1;
                if accumulation <= accumulation_current {
                    let grads = accumulator.grads();
                    model = optim.update_module(model, grads);
                    updates = updates + 1;
                    accumulation_current = 0;
                }
                let ghost before = callback.train_log();
                callback.on_train_item(
                    LearnerItem::new(out.item, progress, self.epoch, self.epoch_total, iteration),
                );
                j = j + 1;
                proof {
                    assert(callback.train_log().take(tl0.len() as int) =~= tl0);
                    assert forall|k: int| 0 <= k < iteration implies pass_record_in_round(
                        #[trigger] callback.train_log()[tl0.len() + k],
                        self.epoch_spec(),
                        self.epoch_total_spec(),
                        k,
                        chunks0,
                    ) by {
                        if k < iteration - 1 {
                            assert(callback.train_log()[tl0.len() + k] == before[tl0.len() + k]);
                        } else {
                            assert(callback.train_log()[tl0.len() + k] == callback.train_log()
                                .last());
                        }
                    }
                }
            }
        }
        callback.on_train_end_epoch(self.epoch);
        (model, optim, TrainReport { iterations: iteration, optimizer_updates: updates })
    }
}

} // verus!
