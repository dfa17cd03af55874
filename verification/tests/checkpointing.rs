use burn_train::checkpoint::{AsyncCheckpointer, Checkpointer, CheckpointerError};
use burn_train::module::Module;
use burn_train::grads::{GradientsParams, ParamId};
use burn_train::module::{State, StateEntry, StateNamed};
use burn_train::optim::{load_state_gradients, register_state_gradients, Optimizer};
use burn_train::simple::{Sgd, SumModel};
use burn_train::tensor::Device;

#[test]
fn retention_keeps_the_most_recent() {
    // 5 saves with num_keep = 2: exactly the 2 most recently submitted
    // snapshots remain.
    let mut cp: Checkpointer<State> = Checkpointer::new(2);
    for epoch in 1..=5u64 {
        cp.save(epoch, State::Data(vec![epoch as i64]));
    }
    assert_eq!(cp.stored_epochs(), vec![4, 5]);
    assert!(cp.restore(5).is_ok());
    assert!(cp.restore(3).is_err());
    assert_eq!(cp.restore(1).err(), Some(CheckpointerError::NotFound));
}

#[test]
fn async_saves_apply_in_submission_order() {
    let mut acp: AsyncCheckpointer<State> = AsyncCheckpointer::new(Checkpointer::new(3));
    for epoch in 1..=7u64 {
        acp.save(epoch, State::Data(vec![epoch as i64 * 10]));
    }
    // nothing is stored until the background driver runs the queue
    assert_eq!(acp.stored_epochs().len(), 0);
    acp.process_all();
    assert_eq!(acp.stored_epochs(), vec![5, 6, 7]);
    match acp.restore(6) {
        Ok(State::Data(d)) => assert_eq!(d, &vec![60]),
        _ => panic!("expected the applied snapshot"),
    }
    assert!(acp.restore(4).is_err());
}

#[test]
fn async_retention_across_several_flushes() {
    let mut acp: AsyncCheckpointer<State> = AsyncCheckpointer::new(Checkpointer::new(2));
    acp.save(1, State::Data(vec![1]));
    acp.process_all();
    assert_eq!(acp.stored_epochs(), vec![1]);
    acp.save(2, State::Data(vec![2]));
    acp.save(3, State::Data(vec![3]));
    acp.process_all();
    assert_eq!(acp.stored_epochs(), vec![2, 3]);
}

#[test]
fn optimizer_load_rejects_non_named_state() {
    let mut optim = Sgd;
    let model = SumModel { weight: 3, device: Device(0) };
    let named = Optimizer::state(&optim, &model);
    assert!(optim.load(&model, &named).is_ok());
    let raw = State::Data(vec![1, 2]);
    let r = optim.load(&model, &raw);
    assert!(r.is_err());
    assert_eq!(
        r.err().unwrap().message(),
        "can't load state wrapper to fetch id and data"
    );
}

#[test]
fn model_state_round_trip() {
    let model = SumModel { weight: -12, device: Device(0) };
    let state = model.state();
    let blank = SumModel { weight: 0, device: Device(0) };
    let restored = blank.load(&state).unwrap();
    assert_eq!(restored.weight, -12);
    // a raw data snapshot is not a named one: rejected
    let bad = SumModel { weight: 0, device: Device(0) }.load(&State::Data(vec![5]));
    assert_eq!(bad.err().unwrap().message(), "expected named state");
}

#[test]
fn state_gradients_round_trip() {
    let mut grads = GradientsParams::new();
    grads.register(ParamId(9), vec![4, 5, 6]);
    let mut named = StateNamed::new();
    register_state_gradients(ParamId(9), &mut named, &grads, "w9".to_owned());
    match named.get(&"w9".to_owned()) {
        Some(StateEntry::Data(d)) => assert_eq!(d, &vec![4, 5, 6]),
        _ => panic!("expected the serialized gradient"),
    }
    let mut restored = GradientsParams::new();
    load_state_gradients(ParamId(9), &named, &mut restored, &"w9".to_owned());
    assert_eq!(restored.get(ParamId(9)).unwrap(), &vec![4, 5, 6]);
    // a key that holds nothing leaves the gradients untouched
    load_state_gradients(ParamId(1), &named, &mut restored, &"absent".to_owned());
    assert!(restored.get(ParamId(1)).is_none());
}
