//! A minimal model and optimizer that implement the engine's contracts:
//! one scalar weight, gradients equal to the batch's wrapped item sum, an
//! update that subtracts the gradient. They give the engine's generic
//! drivers something concrete to run against.

use crate::epoch::{TrainOutput, TrainStep, ValidStep};
use crate::grads::{GradientsParams, ParamId};
use crate::module::{
    ADModule, LoadingError, Module, State, StateEntry, StateEntryView, StateNamed,
};
use crate::optim::Optimizer;
use crate::tensor::Device;
use vstd::prelude::*;

verus! {

/// The wrapped sum of a batch's items.
pub open spec fn wrapped_sum(s: Seq<i64>) -> i64
    decreases s.len(),
{
    if s.len() == 0 {
        0
    } else {
        wrapped_sum(s.drop_last()).wrapping_add(s.last())
    }
}

/// Sums a batch's items, wrapping on overflow.
pub fn sum_items(items: &Vec<i64>) -> (s: i64)
    ensures
        s == wrapped_sum(items@),
{
    let mut s: i64 = 0;
    let mut i: usize = 0;
    while i < items.len()
        invariant
            i <= items@.len(),
            s == wrapped_sum(items@.take(i as int)),
        decreases items@.len() - i,
    {
        proof {
            assert(items@.take(i + 1).drop_last() =~= items@.take(i as int));
            assert(items@.take(i + 1).last() == items@[i as int]);
        }
        s = s.wrapping_add(items[i]);
        i = i + 1;
    }
    proof {
        assert(items@.take(items@.len() as int) =~= items@);
    }
    s
}

/// A model of one scalar weight under [`ParamId`] 0.
pub struct SumModel {
    pub weight: i64,
    pub device: Device,
}

/// The gradient-free projection of [`SumModel`].
pub struct InnerSumModel {
    pub weight: i64,
    pub device: Device,
}

impl Module for SumModel {
    open spec fn params_view(&self) -> Map<ParamId, Seq<i64>> {
        map![ParamId(0) => seq![self.weight]]
    }

    /// A well-formed named snapshot whose `weight` entry holds one value.
    open spec fn decode_state(state: State) -> Option<Map<ParamId, Seq<i64>>> {
        match state {
            State::StateNamed(named) => if named.wf() && named@.dom().contains("weight"@) && (
            named@["weight"@] is Data) && (named@["weight"@]->Data_0).len() == 1 {
                Some(map![ParamId(0) => named@["weight"@]->Data_0])
            } else {
                None
            },
            _ => None,
        }
    }

    fn num_params(&self) -> usize {
        1
    }

    fn to_device(self, device: &Device) -> (m: Self) {
        SumModel { weight: self.weight, device: *device }
    }

    fn detach(self) -> (m: Self) {
        self
    }

    fn state(&self) -> (s: State) {
        let mut named = StateNamed::new();
        let mut values: Vec<i64> = Vec::new();
        values.push(self.weight);
        proof {
            assert(values@ =~= seq![self.weight]);
        }
        named.register_state("weight".to_owned(), StateEntry::Data(values));
        let s = State::StateNamed(named);
        proof {
            assert(named@["weight"@] == StateEntryView::Data(seq![self.weight]));
            assert(map![ParamId(0) => seq![self.weight]] =~= Self::decode_state(s)->Some_0);
        }
        s
    }

    fn load(self, state: &State) -> (r: Result<Self, LoadingError>) {
        match state {
            State::StateNamed(named) => {
                if named.is_wf() {
                    if let Some(entry) = named.get(&"weight".to_owned()) {
                        if let StateEntry::Data(d) = entry {
                            if d.len() == 1 {
                                let m = SumModel { weight: d[0], device: self.device };
                                proof {
                                    assert(d@ =~= seq![d@[0]]);
                                    assert(m.params_view() =~= Self::decode_state(
                                        *state,
                                    )->Some_0);
                                }
                                return Ok(m);
                            }
                        }
                    }
                }
                Err(LoadingError::new("expected a one-value weight entry".to_owned()))
            },
            _ => Err(LoadingError::new("expected named state".to_owned())),
        }
    }
}

impl ADModule for SumModel {
    type InnerModule = InnerSumModel;

    fn inner(self) -> (m: InnerSumModel) {
        InnerSumModel { weight: self.weight, device: self.device }
    }

    fn from_inner(module: InnerSumModel) -> (m: Self) {
        SumModel { weight: module.weight, device: module.device }
    }
}

impl Module for InnerSumModel {
    open spec fn params_view(&self) -> Map<ParamId, Seq<i64>> {
        map![ParamId(0) => seq![self.weight]]
    }

    /// A raw data snapshot of exactly one value.
    open spec fn decode_state(state: State) -> Option<Map<ParamId, Seq<i64>>> {
        match state {
            State::Data(d) => if d@.len() == 1 {
                Some(map![ParamId(0) => d@])
            } else {
                None
            },
            _ => None,
        }
    }

    fn num_params(&self) -> usize {
        1
    }

    fn to_device(self, device: &Device) -> (m: Self) {
        InnerSumModel { weight: self.weight, device: *device }
    }

    fn detach(self) -> (m: Self) {
        self
    }

    fn state(&self) -> (s: State) {
        let mut values: Vec<i64> = Vec::new();
        values.push(self.weight);
        proof {
            assert(values@ =~= seq![self.weight]);
        }
        let s = State::Data(values);
        proof {
            assert(map![ParamId(0) => seq![self.weight]] =~= Self::decode_state(s)->Some_0);
        }
        s
    }

    fn load(self, state: &State) -> (r: Result<Self, LoadingError>) {
        match state {
            State::Data(d) => {
                if d.len() == 1 {
                    let m = InnerSumModel { weight: d[0], device: self.device };
                    proof {
                        assert(d@ =~= seq![d@[0]]);
                        assert(m.params_view() =~= Self::decode_state(*state)->Some_0);
                    }
                    Ok(m)
                } else {
                    Err(LoadingError::new("expected a one-value entry".to_owned()))
                }
            },
            _ => Err(LoadingError::new("expected raw data state".to_owned())),
        }
    }
}

impl TrainStep<Vec<i64>, i64> for SumModel {
    /// The step's output and gradient are both the batch's wrapped sum.
    fn step(&self, item: Vec<i64>) -> (out: TrainOutput<i64>) {
        let s = sum_items(&item);
        let mut grads = GradientsParams::new();
        let mut values: Vec<i64> = Vec::new();
        values.push(s);
        grads.register(ParamId(0), values);
        TrainOutput { item: s, grads }
    }
}

impl ValidStep<Vec<i64>, i64> for InnerSumModel {
    fn step(&self, item: Vec<i64>) -> i64 {
        sum_items(&item)
    }
}

/// Plain gradient descent on [`SumModel`]: subtracts each update's
/// gradient from the weight (wrapping on overflow). It keeps no state of
/// its own, so its snapshot is an empty named mapping.
pub struct Sgd;

impl Optimizer<SumModel> for Sgd {
    fn update_module(&mut self, module: SumModel, grads: GradientsParams) -> (m: SumModel) {
        let m = match grads.get(ParamId(0)) {
            Some(g) => {
                if g.len() == 1 {
                    SumModel {
                        weight: module.weight.wrapping_sub(g[0]),
                        device: module.device,
                    }
                } else {
                    SumModel { weight: module.weight, device: module.device }
                }
            },
            None => SumModel { weight: module.weight, device: module.device },
        };
        proof {
            assert(m.params_view() =~= module.params_view().insert(
                ParamId(0),
                seq![m.weight],
            ));
            assert(m.params_view().dom() =~= module.params_view().dom());
            if !grads@.dom().contains(ParamId(0)) {
                assert(m.weight == module.weight);
                assert(m.params_view()[ParamId(0)] == module.params_view()[ParamId(0)]);
            }
        }
        m
    }

    fn state(&self, module: &SumModel) -> (s: State) {
        State::StateNamed(StateNamed::new())
    }

    fn load(&mut self, module: &SumModel, state: &State) -> (r: Result<(), LoadingError>) {
        match state {
            State::StateNamed(named) => Ok(()),
            _ => Err(LoadingError::new("can't load state wrapper to fetch id and data".to_owned())),
        }
    }
}

} // verus!
