//! Modules: the parameter-bearing units the engine trains, and the state
//! snapshots they persist.

use crate::grads::ParamId;
use crate::tensor::Device;
use vstd::prelude::*;

verus! {

/// Raised when stored state cannot be loaded: the stored representation
/// does not match what the loader expects.
#[derive(Debug)]
pub struct LoadingError {
    message: String,
}

impl LoadingError {
    /// The error's description.
    pub closed spec fn message_view(&self) -> Seq<char> {
        self.message@
    }

    pub fn new(message: String) -> (e: Self)
        ensures
            e.message_view() == message@,
    {
        LoadingError { message }
    }

    /// The error's description, for reporting.
    pub fn message(&self) -> (m: &String)
        ensures
            m@ == self.message_view(),
    {
        &self.message
    }
}

/// One named piece of persisted state: raw values, or a parameter
/// identity.
pub enum StateEntry {
    Data(Vec<i64>),
    Id(ParamId),
}

/// What a piece of persisted state holds, at the specification level.
pub enum StateEntryView {
    Data(Seq<i64>),
    Id(ParamId),
}

impl View for StateEntry {
    type V = StateEntryView;

    open spec fn view(&self) -> StateEntryView {
        match self {
            StateEntry::Data(v) => StateEntryView::Data(v@),
            StateEntry::Id(id) => StateEntryView::Id(*id),
        }
    }
}

/// Distinct state names: no name occurs twice.
pub open spec fn distinct_names(es: Seq<(String, StateEntry)>) -> bool {
    forall|i: int, j: int| 0 <= i < j < es.len() ==> (#[trigger] es[i]).0@ != (#[trigger] es[j]).0@
}

/// The mapping a named-state entry list stands for; later entries win.
pub open spec fn named_map_of(es: Seq<(String, StateEntry)>) -> Map<Seq<char>, StateEntryView>
    decreases es.len(),
{
    if es.len() == 0 {
        Map::empty()
    } else {
        named_map_of(es.drop_last()).insert(es.last().0@, es.last().1@)
    }
}

proof fn lemma_named_map_of_index(es: Seq<(String, StateEntry)>, k: int)
    requires
        distinct_names(es),
        0 <= k < es.len(),
    ensures
        named_map_of(es).dom().contains(es[k].0@),
        named_map_of(es)[es[k].0@] == es[k].1@,
    decreases es.len(),
{
    if k == es.len() - 1 {
    } else {
        assert(distinct_names(es.drop_last()));
        assert(es.drop_last()[k] == es[k]);
        lemma_named_map_of_index(es.drop_last(), k);
        assert(es.last().0@ != es[k].0@);
    }
}

proof fn lemma_named_map_of_absent(es: Seq<(String, StateEntry)>, name: Seq<char>)
    requires
        forall|k: int| 0 <= k < es.len() ==> (#[trigger] es[k]).0@ != name,
    ensures
        !named_map_of(es).dom().contains(name),
    decreases es.len(),
{
    if es.len() > 0 {
        assert(forall|k: int|
            0 <= k < es.drop_last().len() ==> (#[trigger] es.drop_last()[k]).0@ != name);
        lemma_named_map_of_absent(es.drop_last(), name);
    }
}

proof fn lemma_named_map_of_update(
    es: Seq<(String, StateEntry)>,
    k: int,
    n2: String,
    v: StateEntry,
)
    requires
        distinct_names(es),
        0 <= k < es.len(),
        n2@ == es[k].0@,
    ensures
        named_map_of(es.update(k, (n2, v))) == named_map_of(es).insert(es[k].0@, v@),
        distinct_names(es.update(k, (n2, v))),
    decreases es.len(),
{
    let u = es.update(k, (n2, v));
    assert(forall|i: int| 0 <= i < es.len() ==> (#[trigger] u[i]).0@ == es[i].0@);
    if k == es.len() - 1 {
        assert(u.drop_last() =~= es.drop_last());
        assert(named_map_of(u) =~= named_map_of(es).insert(es[k].0@, v@));
    } else {
        assert(distinct_names(es.drop_last()));
        assert(u.drop_last() =~= es.drop_last().update(k, (n2, v)));
        assert(es.drop_last()[k] == es[k]);
        lemma_named_map_of_update(es.drop_last(), k, n2, v);
        assert(es.last().0@ != es[k].0@);
        assert(named_map_of(u) =~= named_map_of(es).insert(es[k].0@, v@));
    }
}

/// A snapshot of named state: a mapping from names to state entries.
pub struct StateNamed {
    entries: Vec<(String, StateEntry)>,
}

impl View for StateNamed {
    type V = Map<Seq<char>, StateEntryView>;

    closed spec fn view(&self) -> Map<Seq<char>, StateEntryView> {
        named_map_of(self.entries@)
    }
}

impl StateNamed {
    pub closed spec fn wf(&self) -> bool {
        distinct_names(self.entries@)
    }

    /// An empty snapshot.
    pub fn new() -> (s: Self)
        ensures
            s.wf(),
            s@ == Map::<Seq<char>, StateEntryView>::empty(),
    {
        StateNamed { entries: Vec::new() }
    }

    /// The position of `name`, if it is present.
    fn find(&self, name: &String) -> (r: Option<usize>)
        requires
            self.wf(),
        ensures
            r is None ==> !self@.dom().contains(name@),
            r matches Some(k) ==> k < self.entries@.len() && self.entries@[k as int].0@ == name@
                && self@.dom().contains(name@) && self@[name@] == self.entries@[k as int].1@,
    {
        let mut k: usize = 0;
        while k < self.entries.len()
            invariant
                self.wf(),
                k <= self.entries@.len(),
                forall|j: int| 0 <= j < k ==> (#[trigger] self.entries@[j]).0@ != name@,
            decreases self.entries@.len() - k,
        {
            if self.entries[k].0 == *name {
                proof {
                    lemma_named_map_of_index(self.entries@, k as int);
                }
                return Some(k);
            }
            k = k + 1;
        }
        proof {
            lemma_named_map_of_absent(self.entries@, name@);
        }
        None
    }

    /// Stores `entry` under `name`, replacing what was there.
    pub fn register_state(&mut self, name: String, entry: StateEntry)
        requires
            old(self).wf(),
        ensures
            final(self).wf(),
            final(self)@ == old(self)@.insert(name@, entry@),
    {
        let ghost es0 = self.entries@;
        match self.find(&name) {
            Some(k) => {
                proof {
                    lemma_named_map_of_update(es0, k as int, name, entry);
                }
                self.entries.set(k, (name, entry));
            },
            None => {
                proof {
                    assert forall|i: int| 0 <= i < es0.len() implies (#[trigger] es0[i]).0@
                        != name@ by {
                        if es0[i].0@ == name@ {
                            lemma_named_map_of_index(es0, i);
                        }
                    }
                }
                self.entries.push((name, entry));
                proof {
                    assert(self.entries@.drop_last() =~= es0);
                }
            },
        }
    }

    /// The entry stored under `name`, if any.
    pub fn get(&self, name: &String) -> (r: Option<&StateEntry>)
        requires
            self.wf(),
        ensures
            r is None ==> !self@.dom().contains(name@),
            r matches Some(e) ==> self@.dom().contains(name@) && e@ == self@[name@],
    {
        match self.find(name) {
            Some(k) => Some(&self.entries[k].1),
            None => None,
        }
    }

    /// Whether the snapshot is well formed: no name stored twice. A
    /// loader handed a snapshot of unknown provenance checks this first.
    pub fn is_wf(&self) -> (r: bool)
        ensures
            r == self.wf(),
    {
        let n = self.entries.len();
        let mut i: usize = 0;
        while i < n
            invariant
                n == self.entries@.len(),
                i <= n,
                forall|a: int, b: int|
                    0 <= a < b < n && a < i ==> (#[trigger] self.entries@[a]).0@ != (
                    #[trigger] self.entries@[b]).0@,
            decreases n - i,
        {
            let mut j: usize = i + 1;
            while j < n
                invariant
                    n == self.entries@.len(),
                    i < n,
                    i + 1 <= j <= n,
                    forall|b: int|
                        i < b < j ==> (#[trigger] self.entries@[b]).0@ != self.entries@[
                            i as int
                        ].0@,
                decreases n - j,
            {
                if self.entries[i].0 == self.entries[j].0 {
                    proof {
                        assert(!distinct_names(self.entries@));
                    }
                    return false;
                }
                j = j + 1;
            }
            i = i + 1;
        }
        proof {
            assert(distinct_names(self.entries@));
        }
        true
    }
}

/// A persisted snapshot: a named mapping, raw values, or one parameter
/// identity. Checkpoints carry these; loaders check the variant they
/// expect and reject the rest.
pub enum State {
    StateNamed(StateNamed),
    Data(Vec<i64>),
    ParamId(ParamId),
}

/// A parameter-bearing unit: exposes its parameter values keyed by
/// identity, and the projections the engine needs.
pub trait Module: Sized {
    /// The parameter values, one flat integer vector per identity.
    spec fn params_view(&self) -> Map<ParamId, Seq<i64>>;

    /// The parameter values a snapshot stands for under this module
    /// type's encoding, or nothing when the stored representation does
    /// not match.
    spec fn decode_state(state: State) -> Option<Map<ParamId, Seq<i64>>>;

    /// The number of parameters.
    fn num_params(&self) -> usize;

    /// Moves the module to `device`; no parameter value changes.
    fn to_device(self, device: &Device) -> (m: Self)
        ensures
            m.params_view() == self.params_view(),
    ;

    /// Detaches the module from the gradient graph; no parameter value
    /// changes and nothing is copied.
    fn detach(self) -> (m: Self)
        ensures
            m.params_view() == self.params_view(),
    ;

    /// The module's state snapshot; it decodes back to exactly the
    /// module's parameters, so a state/load round trip restores them.
    fn state(&self) -> (s: State)
        ensures
            Self::decode_state(s) == Some(self.params_view()),
    ;

    /// Loads a snapshot: succeeds exactly on the snapshots this module
    /// type can decode, restoring the decoded parameters; any other
    /// stored representation is rejected.
    fn load(self, state: &State) -> (r: Result<Self, LoadingError>)
        ensures
            (Self::decode_state(*state) matches Some(p) ==> (r matches Ok(m) && m.params_view()
                == p)),
            Self::decode_state(*state) is None ==> r is Err,
    ;
}

/// A module that supports automatic differentiation: it can be projected
/// to its gradient-free form and recovered, loss-free - no parameter is
/// copied or changed by either conversion.
pub trait ADModule: Module {
    type InnerModule: Module;

    /// The gradient-free projection of the module.
    fn inner(self) -> (m: Self::InnerModule)
        ensures
            m.params_view() == self.params_view(),
    ;

    /// Recovers the gradient-capable module from its projection.
    fn from_inner(module: Self::InnerModule) -> (m: Self)
        ensures
            m.params_view() == module.params_view(),
    ;
}

} // verus!
