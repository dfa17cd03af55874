//! Optimizers: consume gradient sets and update module parameters.

use crate::grads::{GradientsParams, ParamId};
use crate::module::{LoadingError, Module, State, StateEntry, StateEntryView, StateNamed};
use vstd::prelude::*;

verus! {

/// Drives parameter updates from gradient sets, and exposes its own state
/// for checkpoint round-tripping.
pub trait Optimizer<M: Module>: Sized {
    /// Consumes one gradient set and returns the updated module. The
    /// module keeps its parameter layout - the same identities, each
    /// carrying a vector of the same length - and a parameter for which
    /// the set holds no gradient comes back unchanged.
    fn update_module(&mut self, module: M, grads: GradientsParams) -> (m: M)
        requires
            grads.wf(),
        ensures
            m.params_view().dom() == module.params_view().dom(),
            forall|id: ParamId|
                m.params_view().dom().contains(id) ==> (#[trigger] m.params_view()[id]).len()
                    == module.params_view()[id].len(),
            forall|id: ParamId|
                m.params_view().dom().contains(id) && !grads@.dom().contains(id) ==> (
                #[trigger] m.params_view()[id]) == module.params_view()[id],
    ;

    /// The optimizer's state snapshot for the given module: always the
    /// named form, so it can be loaded back.
    fn state(&self, module: &M) -> (s: State)
        ensures
            s is StateNamed,
    ;

    /// Loads optimizer state: exactly the named form is accepted, and any
    /// other stored representation is rejected with a [`LoadingError`].
    fn load(&mut self, module: &M, state: &State) -> (r: Result<(), LoadingError>)
        ensures
            r is Ok <==> state is StateNamed,
    ;
}

/// Copies a vector of gradient values.
fn copy_values(v: &Vec<i64>) -> (r: Vec<i64>)
    ensures
        r@ == v@,
{
    let mut r: Vec<i64> = Vec::new();
    let mut i: usize = 0;
    while i < v.len()
        invariant
            i <= v@.len(),
            r@ == v@.take(i as int),
        decreases v@.len() - i,
    {
        r.push(v[i]);
        proof {
            assert(v@.take(i + 1) =~= v@.take(i as int).push(v@[i as int]));
        }
        i = i + 1;
    }
    proof {
        assert(v@.take(v@.len() as int) =~= v@);
    }
    r
}

/// Serializes the gradient stored for `id` into `state` under `key`;
/// leaves the state untouched when no gradient is stored for `id`.
pub fn register_state_gradients(
    id: ParamId,
    state: &mut StateNamed,
    grads: &GradientsParams,
    key: String,
)
    requires
        old(state).wf(),
        grads.wf(),
    ensures
        final(state).wf(),
        grads@.dom().contains(id) ==> final(state)@ == old(state)@.insert(
            key@,
            StateEntryView::Data(grads@[id]),
        ),
        !grads@.dom().contains(id) ==> final(state)@ == old(state)@,
{
    if let Some(g) = grads.get(id) {
        let data = copy_values(g);
        state.register_state(key, StateEntry::Data(data));
    }
}

/// Restores the gradient stored under `key` into `grads` for `id`;
/// leaves the gradients untouched when nothing usable is stored there.
pub fn load_state_gradients(
    id: ParamId,
    state: &StateNamed,
    grads: &mut GradientsParams,
    key: &String,
)
    requires
        state.wf(),
        old(grads).wf(),
    ensures
        final(grads).wf(),
        (state@.dom().contains(key@) && state@[key@] is Data) ==> final(grads)@ == old(
            grads,
        )@.insert(id, state@[key@]->Data_0),
        !(state@.dom().contains(key@) && state@[key@] is Data) ==> final(grads)@ == old(grads)@,
{
    if let Some(entry) = state.get(key) {
        if let StateEntry::Data(d) = entry {
            let data = copy_values(d);
            grads.register(id, data);
        }
    }
}

} // verus!
