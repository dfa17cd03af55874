use burn_train::batcher::VecBatcher;
use burn_train::callback::RecordingCallback;
use burn_train::dataloader::{DataLoader, DataLoaderBuilder};
use burn_train::epoch::{TrainEpoch, ValidEpoch};
use burn_train::simple::{Sgd, SumModel};
use burn_train::tensor::Device;

fn loader_over(
    items: Vec<i64>,
    batch_size: usize,
) -> DataLoader<i64, Vec<i64>, VecBatcher> {
    let builder: DataLoaderBuilder<i64, Vec<i64>, VecBatcher> =
        DataLoaderBuilder::new(VecBatcher);
    builder.batch_size(batch_size).build(items)
}

#[test]
fn no_accumulation_updates_once_per_batch() {
    // 4 batches of one item each: every batch triggers an update.
    let loader = loader_over(vec![1, 2, 3, 4], 1);
    let epoch = TrainEpoch::new(loader, 1, 1, None);
    let model = SumModel { weight: 0, device: Device(0) };
    let mut cb: RecordingCallback<i64, i64> = RecordingCallback::new();
    let (model, _optim, report) = epoch.run(model, Sgd, &mut cb);
    assert_eq!(report.iterations, 4);
    assert_eq!(report.optimizer_updates, 4);
    // each update subtracts that batch's sum: 1 + 2 + 3 + 4 = 10
    assert_eq!(model.weight, -10);
    assert_eq!(cb.train_items.len(), 4);
    assert_eq!(cb.train_epochs_ended, vec![1]);
}

#[test]
fn accumulation_threshold_updates_floor_p_over_k() {
    // threshold 3 over 10 single-item batches: exactly 3 updates from the
    // full groups; the trailing partial group (the item 10) is not applied.
    let loader = loader_over((1..=10).collect(), 1);
    let epoch = TrainEpoch::new(loader, 1, 1, Some(3));
    let model = SumModel { weight: 0, device: Device(0) };
    let mut cb: RecordingCallback<i64, i64> = RecordingCallback::new();
    let (model, _optim, report) = epoch.run(model, Sgd, &mut cb);
    assert_eq!(report.iterations, 10);
    assert_eq!(report.optimizer_updates, 3);
    // groups: 1+2+3, 4+5+6, 7+8+9 -> 6 + 15 + 24 = 45 subtracted
    assert_eq!(model.weight, -45);
}

#[test]
fn accumulation_exact_multiple_applies_every_group() {
    let loader = loader_over((1..=6).collect(), 1);
    let epoch = TrainEpoch::new(loader, 1, 1, Some(2));
    let model = SumModel { weight: 0, device: Device(0) };
    let mut cb: RecordingCallback<i64, i64> = RecordingCallback::new();
    let (model, _optim, report) = epoch.run(model, Sgd, &mut cb);
    assert_eq!(report.iterations, 6);
    assert_eq!(report.optimizer_updates, 3);
    assert_eq!(model.weight, -21);
}

#[test]
fn accumulator_resets_between_groups() {
    // if the totals were not drained on each update, the second group
    // would double-count the first: weight would be -(6 + 6+15) = -27.
    let loader = loader_over((1..=6).collect(), 1);
    let epoch = TrainEpoch::new(loader, 1, 1, Some(3));
    let model = SumModel { weight: 0, device: Device(0) };
    let mut cb: RecordingCallback<i64, i64> = RecordingCallback::new();
    let (model, _optim, report) = epoch.run(model, Sgd, &mut cb);
    assert_eq!(report.optimizer_updates, 2);
    assert_eq!(model.weight, -(6 + 15));
}

#[test]
fn two_devices_threshold_one_pairs_batches() {
    // 2 devices, configured threshold 1, effective threshold 2, 8 batches:
    // exactly 4 updates, each the summed gradients of one pair.
    let loader = loader_over((1..=8).collect(), 1);
    let epoch = TrainEpoch::new(loader, 1, 1, Some(1));
    let model = SumModel { weight: 0, device: Device(0) };
    let mut cb: RecordingCallback<i64, i64> = RecordingCallback::new();
    let devices = vec![Device(0), Device(1)];
    let (model, _optim, report) = epoch.run_multi_device(model, Sgd, &mut cb, devices);
    assert_eq!(report.iterations, 8);
    assert_eq!(report.optimizer_updates, 4);
    // pairs: 1+2, 3+4, 5+6, 7+8 -> 36 subtracted in total
    assert_eq!(model.weight, -36);
    assert_eq!(cb.train_items.len(), 8);
}

#[test]
fn multi_device_partial_final_round() {
    // 3 devices over 7 batches, no configured threshold: effective
    // threshold 3; the last round produces just one gradient, which stays
    // in the trailing partial group.
    let loader = loader_over((1..=7).collect(), 1);
    let epoch = TrainEpoch::new(loader, 1, 1, None);
    let model = SumModel { weight: 0, device: Device(0) };
    let mut cb: RecordingCallback<i64, i64> = RecordingCallback::new();
    let devices = vec![Device(0), Device(1), Device(2)];
    let (model, _optim, report) = epoch.run_multi_device(model, Sgd, &mut cb, devices);
    assert_eq!(report.iterations, 7);
    assert_eq!(report.optimizer_updates, 2);
    assert_eq!(model.weight, -(6 + 15));
}

#[test]
fn valid_epoch_is_read_only_and_reports_every_batch() {
    let loader = loader_over((0..9).collect(), 2);
    let epoch = ValidEpoch::new(loader, 2, 5);
    let model = SumModel { weight: 77, device: Device(0) };
    let mut cb: RecordingCallback<i64, i64> = RecordingCallback::new();
    let model = epoch.run(model, &mut cb);
    assert_eq!(model.weight, 77);
    assert_eq!(cb.valid_items.len(), 5);
    assert_eq!(cb.valid_epochs_ended, vec![2]);
    assert_eq!(cb.valid_items[0].epoch, 2);
    assert_eq!(cb.valid_items[0].epoch_total, 5);
    assert_eq!(cb.valid_items[0].iteration, 1);
    assert_eq!(cb.valid_items[4].iteration, 5);
    // outputs are the per-batch sums
    assert_eq!(cb.valid_items[0].item, 0 + 1);
    assert_eq!(cb.valid_items[4].item, 8);
}

#[test]
fn train_items_carry_progress() {
    let loader = loader_over((0..10).collect(), 4);
    let epoch = TrainEpoch::new(loader, 3, 4, None);
    let model = SumModel { weight: 0, device: Device(0) };
    let mut cb: RecordingCallback<i64, i64> = RecordingCallback::new();
    let (_model, _optim, report) = epoch.run(model, Sgd, &mut cb);
    assert_eq!(report.iterations, 3);
    assert_eq!(cb.train_items[0].progress.items_processed, 4);
    assert_eq!(cb.train_items[1].progress.items_processed, 8);
    assert_eq!(cb.train_items[2].progress.items_processed, 10);
    assert_eq!(cb.train_items[2].progress.items_total, 10);
    assert_eq!(cb.train_items[2].epoch, 3);
    assert_eq!(cb.train_items[2].epoch_total, 4);
}
