use burn_train::grads::{GradientsAccumulator, GradientsParams, ParamId};
use burn_train::learner::{LearnerBuilder, LossMetric};
use burn_train::simple::{Sgd, SumModel};
use burn_train::tensor::Device;
use burn_train::tensor::{BoolTensor, Data};
use burn_train::transformer::{TransformerEncoder, TransformerEncoderConfig};

fn grads_of(entries: &[(u64, Vec<i64>)]) -> GradientsParams {
    let mut g = GradientsParams::new();
    for (id, v) in entries {
        g.register(ParamId(*id), v.clone());
    }
    g
}

fn drain_sorted(acc: &mut GradientsAccumulator) -> Vec<(u64, Vec<i64>)> {
    let totals = acc.grads();
    let mut ids: Vec<u64> = totals.ids().iter().map(|id| id.0).collect();
    ids.sort();
    ids.iter()
        .map(|id| (*id, totals.get(ParamId(*id)).unwrap().clone()))
        .collect()
}

#[test]
fn accumulate_is_commutative() {
    let g1 = grads_of(&[(0, vec![1, 2]), (1, vec![10])]);
    let g2 = grads_of(&[(0, vec![3, 4]), (2, vec![-5])]);
    let mut a = GradientsAccumulator::new();
    a.accumulate(g1);
    a.accumulate(g2);
    let g1 = grads_of(&[(0, vec![1, 2]), (1, vec![10])]);
    let g2 = grads_of(&[(0, vec![3, 4]), (2, vec![-5])]);
    let mut b = GradientsAccumulator::new();
    b.accumulate(g2);
    b.accumulate(g1);
    assert_eq!(drain_sorted(&mut a), drain_sorted(&mut b));
}

#[test]
fn accumulate_sums_elementwise_per_param() {
    let mut acc = GradientsAccumulator::new();
    acc.accumulate(grads_of(&[(0, vec![1, 2, 3])]));
    acc.accumulate(grads_of(&[(0, vec![10, 20, 30]), (1, vec![7])]));
    acc.accumulate(grads_of(&[(1, vec![-2])]));
    assert_eq!(
        drain_sorted(&mut acc),
        vec![(0, vec![11, 22, 33]), (1, vec![5])]
    );
    // draining resets the totals
    assert!(acc.is_empty());
}

#[test]
fn accumulate_three_orders_agree() {
    let orders: [[i64; 3]; 3] = [[1, 2, 4], [4, 1, 2], [2, 4, 1]];
    for order in orders.iter() {
        let mut acc = GradientsAccumulator::new();
        for v in order.iter() {
            acc.accumulate(grads_of(&[(0, vec![*v])]));
        }
        assert_eq!(drain_sorted(&mut acc), vec![(0, vec![7])]);
    }
}

#[test]
fn builder_wires_the_configuration() {
    let builder = LearnerBuilder::new("artifacts")
        .metric_train(LossMetric)
        .metric_valid(LossMetric)
        .metric_train_plot(LossMetric)
        .metric_valid_plot(LossMetric)
        .num_epochs(4)
        .grads_accumulation(2)
        .devices(vec![Device(0), Device(1)])
        .checkpoint(3)
        .with_checkpointer(2);
    let model = SumModel { weight: 5, device: Device(0) };
    let learner = builder.build(
        model,
        Sgd,
        burn_train::callback::RecordingCallback::<i64, i64>::new(),
    );
    assert_eq!(learner.num_epochs, 4);
    assert_eq!(learner.grad_accumulation, Some(2));
    assert_eq!(learner.checkpoint, Some(3));
    assert_eq!(learner.devices, vec![Device(0), Device(1)]);
    assert_eq!(learner.model.weight, 5);
    let cp = learner.checkpointer_model.expect("model checkpointer configured");
    assert_eq!(cp.stored_epochs().len(), 0);
    assert!(learner.checkpointer_optimizer.is_some());
}

#[test]
fn encoder_cache_has_one_slot_per_layer() {
    let config = TransformerEncoderConfig::new(12, 24, 2, 3).with_norm_first(true);
    assert!(config.norm_first);
    let encoder = TransformerEncoder::new(&config);
    let cache = encoder.new_autoregressive_cache();
    assert_eq!(cache.layers.len(), 3);
    assert!(cache.layers[0].mha_key.cached.is_none());
    assert!(cache.layers[2].norm_2.cached.is_none());
}

#[test]
fn bool_tensor_ops() {
    let data = Data::new(vec![true, false, true, true], vec![2, 2]);
    let t = BoolTensor::from_data(data, Device(1));
    assert_eq!(t.device(), Device(1));
    assert_eq!(t.shape(), &vec![2, 2]);
    let t = t.to_device(Device(0));
    assert_eq!(t.device(), Device(0));
    let t = t.reshape(vec![4]);
    assert_eq!(t.shape(), &vec![4]);
    let eq = t.equal_elem(true);
    assert_eq!(eq.into_data().value, vec![true, false, true, true]);
    let a = BoolTensor::from_data(Data::new(vec![true, false], vec![2]), Device(0));
    let b = BoolTensor::from_data(Data::new(vec![true, true], vec![2]), Device(0));
    let e = a.equal(b);
    assert_eq!(e.into_data().value, vec![true, false]);
    let c = BoolTensor::from_data(Data::new(vec![true, false], vec![2]), Device(0));
    let ints = c.into_int();
    assert_eq!(ints.values, vec![1, 0]);
    let empty = BoolTensor::empty(vec![3], Device(0));
    assert_eq!(empty.into_data().value, vec![false, false, false]);
}
