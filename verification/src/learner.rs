//! Assembling a training run: the builder gathers configuration - epochs,
//! devices, accumulation, checkpointing, metrics - and builds a learner
//! holding the model, the optimizer and the injected observability sink.

use crate::checkpoint::{AsyncCheckpointer, Checkpointer};
use crate::module::{ADModule, State};
use crate::tensor::Device;
use vstd::prelude::*;

verus! {

/// A metric an observer tracks: named, so the dashboard can key its
/// series. The computed value is the observer's affair.
pub trait Metric: Sized {
    /// The metric's name.
    spec fn name_spec(&self) -> Seq<char>;

    fn name(&self) -> (r: String)
        ensures
            r@ == self.name_spec(),
    ;
}

/// The training-loss metric.
pub struct LossMetric;

impl Metric for LossMetric {
    open spec fn name_spec(&self) -> Seq<char> {
        "Loss"@
    }

    fn name(&self) -> (r: String) {
        "Loss".to_owned()
    }
}

/// The names of a list of registered metrics.
pub open spec fn names_of(v: Seq<String>) -> Seq<Seq<char>> {
    v.map_values(|s: String| s@)
}

/// A configured training run: the model and optimizer to drive, the
/// observability sink, and the run's settings.
pub struct Learner<M, Opt, C> {
    pub model: M,
    pub optim: Opt,
    pub num_epochs: usize,
    pub callback: C,
    pub checkpoint: Option<usize>,
    pub checkpointer_model: Option<AsyncCheckpointer<State>>,
    pub checkpointer_optimizer: Option<AsyncCheckpointer<State>>,
    pub grad_accumulation: Option<usize>,
    pub devices: Vec<Device>,
}

/// Configures and creates a [`Learner`].
pub struct LearnerBuilder {
    directory: String,
    train_metrics: Vec<String>,
    valid_metrics: Vec<String>,
    train_metric_plots: Vec<String>,
    valid_metric_plots: Vec<String>,
    num_epochs: usize,
    checkpoint: Option<usize>,
    grad_accumulation: Option<usize>,
    devices: Vec<Device>,
    num_keep: Option<usize>,
}

impl LearnerBuilder {
    /// Where the run's artifacts (logs, checkpoints) belong.
    pub closed spec fn directory_spec(&self) -> Seq<char> {
        self.directory@
    }

    /// The registered training metrics, by name, in registration order.
    pub closed spec fn train_metrics_spec(&self) -> Seq<Seq<char>> {
        names_of(self.train_metrics@)
    }

    /// The registered validation metrics, by name.
    pub closed spec fn valid_metrics_spec(&self) -> Seq<Seq<char>> {
        names_of(self.valid_metrics@)
    }

    /// The training metrics also shown on a plot, by name.
    pub closed spec fn train_metric_plots_spec(&self) -> Seq<Seq<char>> {
        names_of(self.train_metric_plots@)
    }

    /// The validation metrics also shown on a plot, by name.
    pub closed spec fn valid_metric_plots_spec(&self) -> Seq<Seq<char>> {
        names_of(self.valid_metric_plots@)
    }

    pub closed spec fn num_epochs_spec(&self) -> usize {
        self.num_epochs
    }

    pub closed spec fn checkpoint_spec(&self) -> Option<usize> {
        self.checkpoint
    }

    pub closed spec fn grad_accumulation_spec(&self) -> Option<usize> {
        self.grad_accumulation
    }

    pub closed spec fn devices_spec(&self) -> Seq<Device> {
        self.devices@
    }

    pub closed spec fn num_keep_spec(&self) -> Option<usize> {
        self.num_keep
    }

    pub open spec fn wf(&self) -> bool {
        &&& (self.grad_accumulation_spec() matches Some(k) ==> k >= 1)
        &&& (self.num_keep_spec() matches Some(k) ==> k >= 1)
        &&& self.devices_spec().len() >= 1
    }

    /// A builder for a run whose artifacts live under `directory`: one
    /// epoch, the default device, no accumulation, no checkpointing.
    /// Logging sinks are injected by the caller, not opened here.
    pub fn new(directory: &str) -> (b: Self)
        ensures
            b.wf(),
            b.directory_spec() == directory@,
            b.train_metrics_spec().len() == 0,
            b.valid_metrics_spec().len() == 0,
            b.train_metric_plots_spec().len() == 0,
            b.valid_metric_plots_spec().len() == 0,
            b.num_epochs_spec() == 1,
            b.checkpoint_spec() is None,
            b.grad_accumulation_spec() is None,
            b.devices_spec() == seq![Device(0)],
            b.num_keep_spec() is None,
    {
        let mut devices: Vec<Device> = Vec::new();
        devices.push(Device::default());
        let b = LearnerBuilder {
            directory: directory.to_owned(),
            train_metrics: Vec::new(),
            valid_metrics: Vec::new(),
            train_metric_plots: Vec::new(),
            valid_metric_plots: Vec::new(),
            num_epochs: 1,
            checkpoint: None,
            grad_accumulation: None,
            devices,
            num_keep: None,
        };
        proof {
            assert(b.devices@ =~= seq![Device(0)]);
            assert(names_of(b.train_metrics@) =~= Seq::<Seq<char>>::empty());
            assert(names_of(b.valid_metrics@) =~= Seq::<Seq<char>>::empty());
            assert(names_of(b.train_metric_plots@) =~= Seq::<Seq<char>>::empty());
            assert(names_of(b.valid_metric_plots@) =~= Seq::<Seq<char>>::empty());
        }
        b
    }

    /// Registers a training metric.
    pub fn metric_train<Me: Metric>(self, metric: Me) -> (b: Self)
        requires
            self.wf(),
        ensures
            b.wf(),
            b.train_metrics_spec() == self.train_metrics_spec().push(metric.name_spec()),
            b.valid_metrics_spec() == self.valid_metrics_spec(),
            b.train_metric_plots_spec() == self.train_metric_plots_spec(),
            b.valid_metric_plots_spec() == self.valid_metric_plots_spec(),
            b.num_epochs_spec() == self.num_epochs_spec(),
            b.checkpoint_spec() == self.checkpoint_spec(),
            b.grad_accumulation_spec() == self.grad_accumulation_spec(),
            b.devices_spec() == self.devices_spec(),
            b.num_keep_spec() == self.num_keep_spec(),
            b.directory_spec() == self.directory_spec(),
    {
        let ghost before = self.train_metrics@;
        let mut b = self;
        let name = metric.name();
        b.train_metrics.push(name);
        proof {
            assert(names_of(b.train_metrics@) =~= names_of(before).push(metric.name_spec()));
        }
        b
    }

    /// Registers a validation metric.
    pub fn metric_valid<Me: Metric>(self, metric: Me) -> (b: Self)
        requires
            self.wf(),
        ensures
            b.wf(),
            b.valid_metrics_spec() == self.valid_metrics_spec().push(metric.name_spec()),
            b.train_metrics_spec() == self.train_metrics_spec(),
            b.train_metric_plots_spec() == self.train_metric_plots_spec(),
            b.valid_metric_plots_spec() == self.valid_metric_plots_spec(),
            b.num_epochs_spec() == self.num_epochs_spec(),
            b.checkpoint_spec() == self.checkpoint_spec(),
            b.grad_accumulation_spec() == self.grad_accumulation_spec(),
            b.devices_spec() == self.devices_spec(),
            b.num_keep_spec() == self.num_keep_spec(),
            b.directory_spec() == self.directory_spec(),
    {
        let ghost before = self.valid_metrics@;
        let mut b = self;
        let name = metric.name();
        b.valid_metrics.push(name);
        proof {
            assert(names_of(b.valid_metrics@) =~= names_of(before).push(metric.name_spec()));
        }
        b
    }

    /// Registers a training metric that is also shown on a plot.
    pub fn metric_train_plot<Me: Metric>(self, metric: Me) -> (b: Self)
        requires
            self.wf(),
        ensures
            b.wf(),
            b.train_metric_plots_spec() == self.train_metric_plots_spec().push(
                metric.name_spec(),
            ),
            b.train_metrics_spec() == self.train_metrics_spec(),
            b.valid_metrics_spec() == self.valid_metrics_spec(),
            b.valid_metric_plots_spec() == self.valid_metric_plots_spec(),
            b.num_epochs_spec() == self.num_epochs_spec(),
            b.checkpoint_spec() == self.checkpoint_spec(),
            b.grad_accumulation_spec() == self.grad_accumulation_spec(),
            b.devices_spec() == self.devices_spec(),
            b.num_keep_spec() == self.num_keep_spec(),
            b.directory_spec() == self.directory_spec(),
    {
        let ghost before = self.train_metric_plots@;
        let mut b = self;
        let name = metric.name();
        b.train_metric_plots.push(name);
        proof {
            assert(names_of(b.train_metric_plots@) =~= names_of(before).push(
                metric.name_spec(),
            ));
        }
        b
    }

    /// Registers a validation metric that is also shown on a plot.
    pub fn metric_valid_plot<Me: Metric>(self, metric: Me) -> (b: Self)
        requires
            self.wf(),
        ensures
            b.wf(),
            b.valid_metric_plots_spec() == self.valid_metric_plots_spec().push(
                metric.name_spec(),
            ),
            b.train_metrics_spec() == self.train_metrics_spec(),
            b.valid_metrics_spec() == self.valid_metrics_spec(),
            b.train_metric_plots_spec() == self.train_metric_plots_spec(),
            b.num_epochs_spec() == self.num_epochs_spec(),
            b.checkpoint_spec() == self.checkpoint_spec(),
            b.grad_accumulation_spec() == self.grad_accumulation_spec(),
            b.devices_spec() == self.devices_spec(),
            b.num_keep_spec() == self.num_keep_spec(),
            b.directory_spec() == self.directory_spec(),
    {
        let ghost before = self.valid_metric_plots@;
        let mut b = self;
        let name = metric.name();
        b.valid_metric_plots.push(name);
        proof {
            assert(names_of(b.valid_metric_plots@) =~= names_of(before).push(
                metric.name_spec(),
            ));
        }
        b
    }

    /// Enables gradient accumulation: the optimizer is updated with the
    /// summed gradients of every `accumulation` steps.
    pub fn grads_accumulation(self, accumulation: usize) -> (b: Self)
        requires
            self.wf(),
            accumulation >= 1,
        ensures
            b.wf(),
            b.grad_accumulation_spec() == Some(accumulation),
            b.num_epochs_spec() == self.num_epochs_spec(),
            b.checkpoint_spec() == self.checkpoint_spec(),
            b.devices_spec() == self.devices_spec(),
            b.num_keep_spec() == self.num_keep_spec(),
            b.directory_spec() == self.directory_spec(),
            b.train_metrics_spec() == self.train_metrics_spec(),
            b.valid_metrics_spec() == self.valid_metrics_spec(),
            b.train_metric_plots_spec() == self.train_metric_plots_spec(),
            b.valid_metric_plots_spec() == self.valid_metric_plots_spec(),
    {
        LearnerBuilder { grad_accumulation: Some(accumulation), ..self }
    }

    /// The number of epochs the training should last.
    pub fn num_epochs(self, num_epochs: usize) -> (b: Self)
        requires
            self.wf(),
        ensures
            b.wf(),
            b.num_epochs_spec() == num_epochs,
            b.checkpoint_spec() == self.checkpoint_spec(),
            b.grad_accumulation_spec() == self.grad_accumulation_spec(),
            b.devices_spec() == self.devices_spec(),
            b.num_keep_spec() == self.num_keep_spec(),
            b.directory_spec() == self.directory_spec(),
            b.train_metrics_spec() == self.train_metrics_spec(),
            b.valid_metrics_spec() == self.valid_metrics_spec(),
            b.train_metric_plots_spec() == self.train_metric_plots_spec(),
            b.valid_metric_plots_spec() == self.valid_metric_plots_spec(),
    {
        LearnerBuilder { num_epochs, ..self }
    }

    /// Runs the training loop on the given devices; device 0 of the list
    /// is the reduction target.
    pub fn devices(self, devices: Vec<Device>) -> (b: Self)
        requires
            self.wf(),
            devices@.len() >= 1,
        ensures
            b.wf(),
            b.devices_spec() == devices@,
            b.num_epochs_spec() == self.num_epochs_spec(),
            b.checkpoint_spec() == self.checkpoint_spec(),
            b.grad_accumulation_spec() == self.grad_accumulation_spec(),
            b.num_keep_spec() == self.num_keep_spec(),
            b.directory_spec() == self.directory_spec(),
            b.train_metrics_spec() == self.train_metrics_spec(),
            b.valid_metrics_spec() == self.valid_metrics_spec(),
            b.train_metric_plots_spec() == self.train_metric_plots_spec(),
            b.valid_metric_plots_spec() == self.valid_metric_plots_spec(),
    {
        LearnerBuilder { devices, ..self }
    }

    /// The epoch from which the training must resume.
    pub fn checkpoint(self, checkpoint: usize) -> (b: Self)
        requires
            self.wf(),
        ensures
            b.wf(),
            b.checkpoint_spec() == Some(checkpoint),
            b.num_epochs_spec() == self.num_epochs_spec(),
            b.grad_accumulation_spec() == self.grad_accumulation_spec(),
            b.devices_spec() == self.devices_spec(),
            b.num_keep_spec() == self.num_keep_spec(),
            b.directory_spec() == self.directory_spec(),
            b.train_metrics_spec() == self.train_metrics_spec(),
            b.valid_metrics_spec() == self.valid_metrics_spec(),
            b.train_metric_plots_spec() == self.train_metric_plots_spec(),
            b.valid_metric_plots_spec() == self.valid_metric_plots_spec(),
    {
        LearnerBuilder { checkpoint: Some(checkpoint), ..self }
    }

    /// Registers checkpointing of the model and optimizer states with a
    /// retention limit of `num_keep` snapshots each. Keep at least two to
    /// be safe: snapshots are persisted asynchronously, and a crash while
    /// one is in flight can leave it unusable.
    pub fn with_checkpointer(self, num_keep: usize) -> (b: Self)
        requires
            self.wf(),
            num_keep >= 1,
        ensures
            b.wf(),
            b.num_keep_spec() == Some(num_keep),
            b.num_epochs_spec() == self.num_epochs_spec(),
            b.checkpoint_spec() == self.checkpoint_spec(),
            b.grad_accumulation_spec() == self.grad_accumulation_spec(),
            b.devices_spec() == self.devices_spec(),
            b.directory_spec() == self.directory_spec(),
            b.train_metrics_spec() == self.train_metrics_spec(),
            b.valid_metrics_spec() == self.valid_metrics_spec(),
            b.train_metric_plots_spec() == self.train_metric_plots_spec(),
            b.valid_metric_plots_spec() == self.valid_metric_plots_spec(),
    {
        LearnerBuilder { num_keep: Some(num_keep), ..self }
    }

    /// Creates the learner: detaches the model (loss-free) and wires in
    /// the injected callback and, when configured, one asynchronous
    /// checkpointer each for model and optimizer state.
    pub fn build<M: ADModule, Opt, C>(self, model: M, optim: Opt, callback: C) -> (learner:
        Learner<M, Opt, C>)
        requires
            self.wf(),
        ensures
            learner.model.params_view() == model.params_view(),
            learner.optim == optim,
            learner.callback == callback,
            learner.num_epochs == self.num_epochs_spec(),
            learner.checkpoint == self.checkpoint_spec(),
            learner.grad_accumulation == self.grad_accumulation_spec(),
            learner.devices@ == self.devices_spec(),
            (match self.num_keep_spec() {
                Some(keep) => learner.checkpointer_model matches Some(c) && c.wf()
                    && c.num_keep_spec() == keep && c.stored().len() == 0 && c.queue_view().len()
                    == 0 && (learner.checkpointer_optimizer matches Some(c2) && c2.wf()
                    && c2.num_keep_spec() == keep && c2.stored().len() == 0
                    && c2.queue_view().len() == 0),
                None => learner.checkpointer_model is None && learner.checkpointer_optimizer
                    is None,
            }),
    {
        let (checkpointer_model, checkpointer_optimizer) = match self.num_keep {
            Some(keep) => {
                let cm = AsyncCheckpointer::new(Checkpointer::new(keep));
                let co = AsyncCheckpointer::new(Checkpointer::new(keep));
                (Some(cm), Some(co))
            },
            None => (None, None),
        };
        let model = model.detach();
        Learner {
            model,
            optim,
            num_epochs: self.num_epochs,
            callback,
            checkpoint: self.checkpoint,
            checkpointer_model,
            checkpointer_optimizer,
            grad_accumulation: self.grad_accumulation,
            devices: self.devices,
        }
    }
}

} // verus!
