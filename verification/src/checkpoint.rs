//! Checkpointing: numbered snapshots with bounded retention, and the
//! asynchronous wrapper that applies saves strictly in submission order.

use vstd::prelude::*;

verus! {

/// Why a checkpoint operation failed.
#[derive(Clone, Copy, PartialEq, Eq, Structural, Debug)]
pub enum CheckpointerError {
    NotFound,
}

/// Snapshot numbers strictly increase along the sequence.
pub open spec fn ids_increasing<S>(records: Seq<(u64, S)>) -> bool {
    forall|i: int, j: int|
        0 <= i < j < records.len() ==> (#[trigger] records[i]).0 < (#[trigger] records[j]).0
}

/// What one save leaves behind: the new snapshot appended, and the
/// oldest one dropped if the store would exceed its retention limit.
pub open spec fn save_step<S>(records: Seq<(u64, S)>, record: (u64, S), keep: int) -> Seq<
    (u64, S),
> {
    let grown = records.push(record);
    if grown.len() > keep {
        grown.drop_first()
    } else {
        grown
    }
}

/// What a run of saves, applied in submission order, leaves behind.
pub open spec fn apply_saves<S>(records: Seq<(u64, S)>, saves: Seq<(u64, S)>, keep: int) -> Seq<
    (u64, S),
>
    decreases saves.len(),
{
    if saves.len() == 0 {
        records
    } else {
        apply_saves(save_step(records, saves[0], keep), saves.drop_first(), keep)
    }
}

/// Retention: a run of `N` saves into an empty store with retention `K`
/// leaves exactly the `min(N, K)` most recently submitted snapshots, in
/// submission order - the outcome is fixed by the submission order alone.
pub proof fn lemma_retention<S>(saves: Seq<(u64, S)>, keep: int)
    requires
        keep >= 1,
    ensures
        apply_saves(Seq::<(u64, S)>::empty(), saves, keep) == (if saves.len() > keep {
            saves.skip(saves.len() - keep)
        } else {
            saves
        }),
{
    lemma_retention_general(Seq::<(u64, S)>::empty(), saves, keep);
    if saves.len() > keep {
        assert((Seq::<(u64, S)>::empty() + saves).skip(saves.len() - keep) =~= saves.skip(
            saves.len() - keep,
        ));
    } else {
        assert(Seq::<(u64, S)>::empty() + saves =~= saves);
    }
}

proof fn lemma_retention_general<S>(records: Seq<(u64, S)>, saves: Seq<(u64, S)>, keep: int)
    requires
        keep >= 1,
        records.len() <= keep,
    ensures
        apply_saves(records, saves, keep) == (if records.len() + saves.len() > keep {
            (records + saves).skip(records.len() + saves.len() - keep)
        } else {
            records + saves
        }),
    decreases saves.len(),
{
    if saves.len() == 0 {
        assert(records + saves =~= records);
    } else {
        let stepped = save_step(records, saves[0], keep);
        assert(stepped.len() <= keep);
        lemma_retention_general(stepped, saves.drop_first(), keep);
        if records.len() + 1 > keep {
            assert(stepped =~= (records + saves).subrange(
                records.len() + 1 - keep,
                records.len() as int + 1,
            ));
        } else {
            assert(stepped =~= (records + saves).take(records.len() as int + 1));
        }
        if records.len() + saves.len() > keep {
            if records.len() + 1 > keep {
                assert(stepped + saves.drop_first() =~= (records + saves).skip(
                    records.len() + 1 - keep,
                ));
                if saves.len() > 1 {
                    assert(stepped.len() + saves.drop_first().len() - keep == saves.len() - 1);
                    assert((stepped + saves.drop_first()).skip(saves.len() - 1) =~= (records
                        + saves).skip(records.len() + saves.len() - keep));
                }
            } else {
                assert(stepped + saves.drop_first() =~= records + saves);
            }
        } else {
            assert(stepped + saves.drop_first() =~= records + saves);
        }
    }
}

/// A synchronous checkpointer over in-memory storage: persists numbered
/// snapshots and keeps only the `num_keep` most recent.
pub struct Checkpointer<S> {
    records: Vec<(u64, S)>,
    num_keep: usize,
}

impl<S> Checkpointer<S> {
    /// The stored snapshots, oldest first.
    pub closed spec fn records_view(&self) -> Seq<(u64, S)> {
        self.records@
    }

    /// The retention limit.
    pub closed spec fn num_keep_spec(&self) -> usize {
        self.num_keep
    }

    pub open spec fn wf(&self) -> bool {
        &&& self.num_keep_spec() >= 1
        &&& self.records_view().len() <= self.num_keep_spec()
        &&& ids_increasing(self.records_view())
    }

    /// An empty store retaining at most `num_keep` snapshots.
    pub fn new(num_keep: usize) -> (c: Self)
        requires
            num_keep >= 1,
        ensures
            c.wf(),
            c.records_view() == Seq::<(u64, S)>::empty(),
            c.num_keep_spec() == num_keep,
    {
        Checkpointer { records: Vec::new(), num_keep }
    }

    /// Persists snapshot `epoch`; once the store exceeds its limit, the
    /// oldest snapshot is deleted - only after the new one is stored.
    pub fn save(&mut self, epoch: u64, state: S)
        requires
            old(self).wf(),
            forall|i: int|
                0 <= i < old(self).records_view().len() ==> (#[trigger] old(self).records_view()[i]).0
                    < epoch,
        ensures
            final(self).wf(),
            final(self).num_keep_spec() == old(self).num_keep_spec(),
            final(self).records_view() == save_step(
                old(self).records_view(),
                (epoch, state),
                old(self).num_keep_spec() as int,
            ),
    {
        let ghost recs0 = self.records@;
        self.records.push((epoch, state));
        if self.records.len() > self.num_keep {
            self.records.remove(0);
            proof {
                assert(self.records@ =~= recs0.push((epoch, state)).drop_first());
            }
        }
        proof {
            assert(ids_increasing(self.records@));
        }
    }

    /// The snapshot saved as `epoch`, if it is still retained.
    pub fn restore(&self, epoch: u64) -> (r: Result<&S, CheckpointerError>)
        requires
            self.wf(),
        ensures
            (exists|i: int|
                0 <= i < self.records_view().len() && (#[trigger] self.records_view()[i]).0
                    == epoch) <==> r is Ok,
            r matches Ok(s) ==> exists|i: int|
                0 <= i < self.records_view().len() && #[trigger] self.records_view()[i] == (
                epoch,
                *s,
                ),
    {
        let mut i: usize = 0;
        while i < self.records.len()
            invariant
                i <= self.records@.len(),
                forall|j: int| 0 <= j < i ==> (#[trigger] self.records@[j]).0 != epoch,
            decreases self.records@.len() - i,
        {
            if self.records[i].0 == epoch {
                proof {
                    assert(self.records_view()[i as int].0 == epoch);
                    assert(self.records_view()[i as int] == (epoch, self.records@[i as int].1));
                }
                return Ok(&self.records[i].1);
            }
            i = i + 1;
        }
        Err(CheckpointerError::NotFound)
    }

    /// The numbers of the retained snapshots, oldest first.
    pub fn stored_epochs(&self) -> (r: Vec<u64>)
        ensures
            r@.len() == self.records_view().len(),
            forall|i: int|
                0 <= i < r@.len() ==> #[trigger] r@[i] == self.records_view()[i].0,
    {
        let mut r: Vec<u64> = Vec::new();
        let mut i: usize = 0;
        while i < self.records.len()
            invariant
                i <= self.records@.len(),
                r@.len() == i,
                forall|j: int| 0 <= j < i ==> #[trigger] r@[j] == self.records@[j].0,
            decreases self.records@.len() - i,
        {
            r.push(self.records[i].0);
            i = i + 1;
        }
        r
    }
}

/// Wraps a synchronous checkpointer behind a submission queue so the
/// caller never blocks on persistence: `save` only enqueues, and a
/// background driver applies queued saves strictly in submission order.
/// Retention pruning therefore never runs ahead of an earlier save still
/// in flight, whatever the wall-clock timing.
pub struct AsyncCheckpointer<S> {
    inner: Checkpointer<S>,
    queue: Vec<(u64, S)>,
}

impl<S> AsyncCheckpointer<S> {
    /// Saves applied to durable storage, oldest first.
    pub open spec fn stored(&self) -> Seq<(u64, S)> {
        self.inner_spec().records_view()
    }

    pub closed spec fn inner_spec(&self) -> Checkpointer<S> {
        self.inner
    }

    /// Saves submitted and not yet applied, in submission order.
    pub closed spec fn queue_view(&self) -> Seq<(u64, S)> {
        self.queue@
    }

    /// The retention limit.
    pub open spec fn num_keep_spec(&self) -> usize {
        self.inner_spec().num_keep_spec()
    }

    pub open spec fn wf(&self) -> bool {
        &&& self.inner_spec().wf()
        &&& ids_increasing(self.stored() + self.queue_view())
    }

    /// Wraps `inner`: submitted saves flow to it in submission order.
    pub fn new(inner: Checkpointer<S>) -> (c: Self)
        requires
            inner.wf(),
        ensures
            c.wf(),
            c.stored() == inner.records_view(),
            c.queue_view() == Seq::<(u64, S)>::empty(),
            c.num_keep_spec() == inner.num_keep_spec(),
    {
        let ghost recs = inner.records_view();
        let c = AsyncCheckpointer { inner, queue: Vec::new() };
        proof {
            assert(c.stored() + c.queue_view() =~= recs);
        }
        c
    }

    /// Submits snapshot `epoch` for persistence and returns at once; the
    /// save is applied when the background driver reaches it.
    pub fn save(&mut self, epoch: u64, state: S)
        requires
            old(self).wf(),
            forall|i: int|
                0 <= i < (old(self).stored() + old(self).queue_view()).len() ==> (#[trigger] (old(
                    self,
                ).stored() + old(self).queue_view())[i]).0 < epoch,
        ensures
            final(self).wf(),
            final(self).stored() == old(self).stored(),
            final(self).num_keep_spec() == old(self).num_keep_spec(),
            final(self).queue_view() == old(self).queue_view().push((epoch, state)),
    {
        self.queue.push((epoch, state));
        proof {
            assert(self.stored() + self.queue@ =~= (old(self).stored()
                + old(self).queue_view()).push((epoch, state)));
        }
    }

    /// Applies every queued save to durable storage, in submission
    /// order; what the background driver does between submissions.
    pub fn process_all(&mut self)
        requires
            old(self).wf(),
        ensures
            final(self).wf(),
            final(self).num_keep_spec() == old(self).num_keep_spec(),
            final(self).queue_view() == Seq::<(u64, S)>::empty(),
            final(self).stored() == apply_saves(
                old(self).stored(),
                old(self).queue_view(),
                old(self).num_keep_spec() as int,
            ),
    {
        let ghost keep = self.inner.num_keep_spec() as int;
        let ghost goal = apply_saves(self.stored(), self.queue@, keep);
        while self.queue.len() > 0
            invariant
                self.inner.wf(),
                ids_increasing(self.stored() + self.queue@),
                self.inner.num_keep_spec() as int == keep,
                apply_saves(self.stored(), self.queue@, keep) == goal,
            decreases self.queue@.len(),
        {
            let ghost stored0 = self.stored();
            let ghost queue0 = self.queue@;
            let (epoch, state) = self.queue.remove(0);
            proof {
                assert(queue0[0] == (epoch, state));
                assert(self.queue@ =~= queue0.drop_first());
                assert forall|i: int|
                    0 <= i < stored0.len() implies (#[trigger] stored0[i]).0 < epoch by {
                    assert((stored0 + queue0)[i] == stored0[i]);
                    assert((stored0 + queue0)[stored0.len() as int] == queue0[0]);
                }
            }
            self.inner.save(epoch, state);
            proof {
                assert(self.stored() == save_step(stored0, (epoch, state), keep));
                assert(ids_increasing(self.stored() + self.queue@)) by {
                    let cur = self.stored() + self.queue@;
                    let orig = stored0 + queue0;
                    assert forall|i: int, j: int|
                        0 <= i < j < cur.len() implies (#[trigger] cur[i]).0 < (
                    #[trigger] cur[j]).0 by {
                        if stored0.len() + 1 > keep {
                            assert(cur[i] == orig[i + 1]);
                            assert(cur[j] == orig[j + 1]);
                        } else {
                            assert(cur[i] == orig[i]);
                            assert(cur[j] == orig[j]);
                        }
                    }
                }
            }
        }
        proof {
            assert(self.queue@ =~= Seq::<(u64, S)>::empty());
        }
    }

    /// The snapshot saved as `epoch`, if already applied and retained.
    pub fn restore(&self, epoch: u64) -> (r: Result<&S, CheckpointerError>)
        requires
            self.wf(),
        ensures
            (exists|i: int|
                0 <= i < self.stored().len() && (#[trigger] self.stored()[i]).0 == epoch) <==> r
                is Ok,
            r matches Ok(s) ==> exists|i: int|
                0 <= i < self.stored().len() && #[trigger] self.stored()[i] == (epoch, *s),
    {
        self.inner.restore(epoch)
    }

    /// The numbers of the applied, retained snapshots, oldest first.
    pub fn stored_epochs(&self) -> (r: Vec<u64>)
        ensures
            r@.len() == self.stored().len(),
            forall|i: int| 0 <= i < r@.len() ==> #[trigger] r@[i] == self.stored()[i].0,
    {
        self.inner.stored_epochs()
    }
}

} // verus!
