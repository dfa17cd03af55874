//! Progress notifications: what the engine reports to its observer.

use crate::dataloader::Progress;
use vstd::prelude::*;

verus! {

/// One progress record: the step's output together with where the pass
/// stands - items processed out of the total, the current epoch out of
/// all epochs, and the iteration within the epoch.
pub struct LearnerItem<T> {
    pub item: T,
    pub progress: Progress,
    pub epoch: usize,
    pub epoch_total: usize,
    pub iteration: usize,
}

impl<T> LearnerItem<T> {
    pub fn new(
        item: T,
        progress: Progress,
        epoch: usize,
        epoch_total: usize,
        iteration: usize,
    ) -> (r: Self)
        ensures
            r.item == item,
            r.progress == progress,
            r.epoch == epoch,
            r.epoch_total == epoch_total,
            r.iteration == iteration,
    {
        LearnerItem { item, progress, epoch, epoch_total, iteration }
    }
}

/// The observability sink the engine reports to, injected at
/// construction: per-item records during training and validation, and an
/// end-of-epoch notification for each pass. Notifications never steer
/// control flow.
///
/// The four log views say what the sink has received, in arrival order;
/// each notification appends to exactly one of them. A sink that does
/// not keep its records carries the logs as ghost state.
pub trait LearnerCallback<T, V> {
    /// Training records received, in arrival order.
    spec fn train_log(&self) -> Seq<LearnerItem<T>>;

    /// Validation records received, in arrival order.
    spec fn valid_log(&self) -> Seq<LearnerItem<V>>;

    /// Epochs whose training pass has ended, in arrival order.
    spec fn train_epochs_log(&self) -> Seq<usize>;

    /// Epochs whose validation pass has ended, in arrival order.
    spec fn valid_epochs_log(&self) -> Seq<usize>;

    fn on_train_item(&mut self, item: LearnerItem<T>)
        ensures
            final(self).train_log() == old(self).train_log().push(item),
            final(self).valid_log() == old(self).valid_log(),
            final(self).train_epochs_log() == old(self).train_epochs_log(),
            final(self).valid_epochs_log() == old(self).valid_epochs_log(),
    ;

    fn on_valid_item(&mut self, item: LearnerItem<V>)
        ensures
            final(self).valid_log() == old(self).valid_log().push(item),
            final(self).train_log() == old(self).train_log(),
            final(self).train_epochs_log() == old(self).train_epochs_log(),
            final(self).valid_epochs_log() == old(self).valid_epochs_log(),
    ;

    fn on_train_end_epoch(&mut self, epoch: usize)
        ensures
            final(self).train_epochs_log() == old(self).train_epochs_log().push(epoch),
            final(self).train_log() == old(self).train_log(),
            final(self).valid_log() == old(self).valid_log(),
            final(self).valid_epochs_log() == old(self).valid_epochs_log(),
    ;

    fn on_valid_end_epoch(&mut self, epoch: usize)
        ensures
            final(self).valid_epochs_log() == old(self).valid_epochs_log().push(epoch),
            final(self).train_log() == old(self).train_log(),
            final(self).valid_log() == old(self).valid_log(),
            final(self).train_epochs_log() == old(self).train_epochs_log(),
    ;
}

/// A sink that keeps every notification it receives, in arrival order;
/// what a caller inspects after a run.
pub struct RecordingCallback<T, V> {
    pub train_items: Vec<LearnerItem<T>>,
    pub valid_items: Vec<LearnerItem<V>>,
    pub train_epochs_ended: Vec<usize>,
    pub valid_epochs_ended: Vec<usize>,
}

impl<T, V> RecordingCallback<T, V> {
    pub fn new() -> (c: Self)
        ensures
            c.train_log() == Seq::<LearnerItem<T>>::empty(),
            c.valid_log() == Seq::<LearnerItem<V>>::empty(),
            c.train_epochs_log() == Seq::<usize>::empty(),
            c.valid_epochs_log() == Seq::<usize>::empty(),
    {
        let c = RecordingCallback {
            train_items: Vec::new(),
            valid_items: Vec::new(),
            train_epochs_ended: Vec::new(),
            valid_epochs_ended: Vec::new(),
        };
        proof {
            assert(c.train_items@ =~= Seq::<LearnerItem<T>>::empty());
            assert(c.valid_items@ =~= Seq::<LearnerItem<V>>::empty());
            assert(c.train_epochs_ended@ =~= Seq::<usize>::empty());
            assert(c.valid_epochs_ended@ =~= Seq::<usize>::empty());
        }
        c
    }
}

impl<T, V> LearnerCallback<T, V> for RecordingCallback<T, V> {
    open spec fn train_log(&self) -> Seq<LearnerItem<T>> {
        self.train_items@
    }

    open spec fn valid_log(&self) -> Seq<LearnerItem<V>> {
        self.valid_items@
    }

    open spec fn train_epochs_log(&self) -> Seq<usize> {
        self.train_epochs_ended@
    }

    open spec fn valid_epochs_log(&self) -> Seq<usize> {
        self.valid_epochs_ended@
    }

    fn on_train_item(&mut self, item: LearnerItem<T>) {
        self.train_items.push(item);
    }

    fn on_valid_item(&mut self, item: LearnerItem<V>) {
        self.valid_items.push(item);
    }

    fn on_train_end_epoch(&mut self, epoch: usize) {
        self.train_epochs_ended.push(epoch);
    }

    fn on_valid_end_epoch(&mut self, epoch: usize) {
        self.valid_epochs_ended.push(epoch);
    }
}

} // verus!
