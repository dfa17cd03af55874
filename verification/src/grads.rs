//! Gradient sets keyed by parameter identity, and their accumulation.
//!
//! A gradient set maps each [`ParamId`] to a flat vector of integer
//! gradient values. The accumulator sums contributions elementwise per
//! parameter; summation wraps on overflow, so it stays commutative and
//! associative, and it equals the exact sum whenever that sum fits.

use vstd::prelude::*;

verus! {

/// The stable identity of one trainable parameter for the lifetime of its
/// module: the key under which gradients, accumulated totals and optimizer
/// state meet.
#[derive(Clone, Copy, PartialEq, Eq, Structural, Debug)]
pub struct ParamId(pub u64);

/// The elementwise wrapped sum of two equally long gradient vectors.
pub open spec fn add_grad_seqs(a: Seq<i64>, b: Seq<i64>) -> Seq<i64> {
    Seq::new(a.len(), |i: int| a[i].wrapping_add(b[i]))
}

/// How a fresh contribution `g` combines with what is stored for its
/// parameter: matching shapes are summed elementwise; a first contribution
/// is taken as it is. A contribution whose shape differs replaces the
/// stored one - a well-formed run never reaches that case, since one
/// [`ParamId`] keeps one shape.
pub open spec fn merge_entry(cur: Option<Seq<i64>>, g: Seq<i64>) -> Seq<i64> {
    match cur {
        Some(v) => if v.len() == g.len() {
            add_grad_seqs(v, g)
        } else {
            g
        },
        None => g,
    }
}

/// The mapping after the gradient set `g` is accumulated into `acc`.
pub open spec fn merge_grads(
    acc: Map<ParamId, Seq<i64>>,
    g: Map<ParamId, Seq<i64>>,
) -> Map<ParamId, Seq<i64>> {
    Map::new(
        |id: ParamId| acc.dom().contains(id) || g.dom().contains(id),
        |id: ParamId|
            if g.dom().contains(id) {
                merge_entry(
                    if acc.dom().contains(id) {
                        Some(acc[id])
                    } else {
                        None
                    },
                    g[id],
                )
            } else {
                acc[id]
            },
    )
}

/// Two gradient mappings agree on shapes: parameters they share carry
/// equally long vectors.
pub open spec fn shapes_agree(a: Map<ParamId, Seq<i64>>, b: Map<ParamId, Seq<i64>>) -> bool {
    forall|id: ParamId|
        a.dom().contains(id) && b.dom().contains(id) ==> #[trigger] a[id].len()
            == #[trigger] b[id].len()
}

proof fn lemma_wrap_add_comm(a: i64, b: i64)
    ensures
        a.wrapping_add(b) == b.wrapping_add(a),
{
}

proof fn lemma_wrap_add_assoc(a: i64, b: i64, c: i64)
    ensures
        a.wrapping_add(b).wrapping_add(c) == a.wrapping_add(b.wrapping_add(c)),
{
}

proof fn lemma_add_grad_seqs_comm(a: Seq<i64>, b: Seq<i64>)
    requires
        a.len() == b.len(),
    ensures
        add_grad_seqs(a, b) == add_grad_seqs(b, a),
{
    assert(add_grad_seqs(a, b) =~= add_grad_seqs(b, a));
}

proof fn lemma_add_grad_seqs_assoc(a: Seq<i64>, b: Seq<i64>, c: Seq<i64>)
    requires
        a.len() == b.len(),
        b.len() == c.len(),
    ensures
        add_grad_seqs(add_grad_seqs(a, b), c) == add_grad_seqs(a, add_grad_seqs(b, c)),
{
    assert forall|i: int| 0 <= i < a.len() implies add_grad_seqs(add_grad_seqs(a, b), c)[i]
        == add_grad_seqs(a, add_grad_seqs(b, c))[i] by {
        lemma_wrap_add_assoc(a[i], b[i], c[i]);
    }
    assert(add_grad_seqs(add_grad_seqs(a, b), c) =~= add_grad_seqs(a, add_grad_seqs(b, c)));
}

/// Accumulation is commutative: two gradient sets of agreeing shapes may
/// be accumulated in either order; per parameter, the summed vectors are
/// identical.
pub proof fn lemma_accumulate_commutative(
    acc: Map<ParamId, Seq<i64>>,
    g1: Map<ParamId, Seq<i64>>,
    g2: Map<ParamId, Seq<i64>>,
)
    requires
        shapes_agree(acc, g1),
        shapes_agree(acc, g2),
        shapes_agree(g1, g2),
    ensures
        merge_grads(merge_grads(acc, g1), g2) == merge_grads(merge_grads(acc, g2), g1),
{
    let l = merge_grads(merge_grads(acc, g1), g2);
    let r = merge_grads(merge_grads(acc, g2), g1);
    assert forall|id: ParamId| l.dom().contains(id) implies l[id] == r[id] by {
        if g1.dom().contains(id) && g2.dom().contains(id) {
            if acc.dom().contains(id) {
                lemma_add_grad_seqs_assoc(acc[id], g1[id], g2[id]);
                lemma_add_grad_seqs_assoc(acc[id], g2[id], g1[id]);
                lemma_add_grad_seqs_comm(g1[id], g2[id]);
            } else {
                lemma_add_grad_seqs_comm(g1[id], g2[id]);
            }
        }
    }
    assert(l =~= r);
}

/// Accumulation is associative: accumulating `g1` then `g2` equals
/// accumulating their own merged set in one step.
pub proof fn lemma_accumulate_associative(
    acc: Map<ParamId, Seq<i64>>,
    g1: Map<ParamId, Seq<i64>>,
    g2: Map<ParamId, Seq<i64>>,
)
    requires
        shapes_agree(acc, g1),
        shapes_agree(acc, g2),
        shapes_agree(g1, g2),
    ensures
        merge_grads(merge_grads(acc, g1), g2) == merge_grads(acc, merge_grads(g1, g2)),
{
    let l = merge_grads(merge_grads(acc, g1), g2);
    let r = merge_grads(acc, merge_grads(g1, g2));
    assert forall|id: ParamId| l.dom().contains(id) implies l[id] == r[id] by {
        if acc.dom().contains(id) && g1.dom().contains(id) && g2.dom().contains(id) {
            lemma_add_grad_seqs_assoc(acc[id], g1[id], g2[id]);
        }
    }
    assert(l =~= r);
}

/// Every set of `gs`, and `acc`, agrees on shapes with every other:
/// one parameter, one shape, throughout an accumulation group.
pub open spec fn all_shapes_agree(
    acc: Map<ParamId, Seq<i64>>,
    gs: Seq<Map<ParamId, Seq<i64>>>,
) -> bool {
    &&& forall|i: int| 0 <= i < gs.len() ==> shapes_agree(acc, #[trigger] gs[i])
    &&& forall|i: int, j: int|
        0 <= i < j < gs.len() ==> shapes_agree(#[trigger] gs[i], #[trigger] gs[j])
}

/// The totals after accumulating the sets of `gs`, in order, into `acc`:
/// what one accumulation group leaves for the optimizer.
pub open spec fn accumulate_all(
    acc: Map<ParamId, Seq<i64>>,
    gs: Seq<Map<ParamId, Seq<i64>>>,
) -> Map<ParamId, Seq<i64>>
    decreases gs.len(),
{
    if gs.len() == 0 {
        acc
    } else {
        accumulate_all(merge_grads(acc, gs[0]), gs.drop_first())
    }
}

/// Accumulating a shape-agreeing set keeps the shape agreement with any
/// third set.
proof fn lemma_merge_shapes_agree(
    acc: Map<ParamId, Seq<i64>>,
    g: Map<ParamId, Seq<i64>>,
    h: Map<ParamId, Seq<i64>>,
)
    requires
        shapes_agree(acc, g),
        shapes_agree(acc, h),
        shapes_agree(g, h),
    ensures
        shapes_agree(merge_grads(acc, g), h),
{
    let m = merge_grads(acc, g);
    assert forall|id: ParamId|
        m.dom().contains(id) && h.dom().contains(id) implies #[trigger] m[id].len()
        == #[trigger] h[id].len() by {
        if g.dom().contains(id) {
            if acc.dom().contains(id) {
                assert(m[id] == add_grad_seqs(acc[id], g[id]));
            } else {
                assert(m[id] == g[id]);
            }
        } else {
            assert(m[id] == acc[id]);
        }
    }
}

/// Within one accumulation group, the order of contributions never
/// changes the drained totals: exchanging two adjacent contributions -
/// and so, applying any permutation, which is a product of such
/// exchanges - yields the same summed gradient set per parameter.
pub proof fn lemma_group_order_irrelevant(
    acc: Map<ParamId, Seq<i64>>,
    gs: Seq<Map<ParamId, Seq<i64>>>,
    i: int,
)
    requires
        0 <= i < gs.len() - 1,
        all_shapes_agree(acc, gs),
    ensures
        accumulate_all(acc, gs) == accumulate_all(
            acc,
            crate::shuffle::seq_swap(gs, i, i + 1),
        ),
    decreases i,
{
    let sw = crate::shuffle::seq_swap(gs, i, i + 1);
    if i == 0 {
        let a01 = merge_grads(merge_grads(acc, gs[0]), gs[1]);
        let a10 = merge_grads(merge_grads(acc, gs[1]), gs[0]);
        lemma_accumulate_commutative(acc, gs[0], gs[1]);
        assert(sw[0] == gs[1] && sw[1] == gs[0]);
        assert(gs.drop_first().drop_first() =~= sw.drop_first().drop_first());
        assert(accumulate_all(acc, gs) == accumulate_all(merge_grads(acc, gs[0]), gs.drop_first()));
        assert(gs.drop_first()[0] == gs[1]);
        assert(accumulate_all(merge_grads(acc, gs[0]), gs.drop_first()) == accumulate_all(
            a01,
            gs.drop_first().drop_first(),
        ));
        assert(accumulate_all(acc, sw) == accumulate_all(merge_grads(acc, sw[0]), sw.drop_first()));
        assert(sw.drop_first()[0] == gs[0]);
        assert(accumulate_all(merge_grads(acc, sw[0]), sw.drop_first()) == accumulate_all(
            a10,
            sw.drop_first().drop_first(),
        ));
    } else {
        let acc2 = merge_grads(acc, gs[0]);
        let rest = gs.drop_first();
        assert(sw[0] == gs[0]);
        assert(sw.drop_first() =~= crate::shuffle::seq_swap(rest, i - 1, i));
        assert(all_shapes_agree(acc2, rest)) by {
            assert forall|a: int| 0 <= a < rest.len() implies shapes_agree(
                acc2,
                #[trigger] rest[a],
            ) by {
                assert(rest[a] == gs[a + 1]);
                lemma_merge_shapes_agree(acc, gs[0], gs[a + 1]);
            }
            assert forall|a: int, b: int| 0 <= a < b < rest.len() implies shapes_agree(
                #[trigger] rest[a],
                #[trigger] rest[b],
            ) by {
                assert(rest[a] == gs[a + 1] && rest[b] == gs[b + 1]);
            }
        }
        lemma_group_order_irrelevant(acc2, rest, i - 1);
        assert(accumulate_all(acc, gs) == accumulate_all(acc2, rest));
        assert(accumulate_all(acc, sw) == accumulate_all(acc2, sw.drop_first()));
    }
}

/// Distinct parameter identities: no id occurs twice.
pub open spec fn distinct_ids(es: Seq<(ParamId, Vec<i64>)>) -> bool {
    forall|i: int, j: int| 0 <= i < j < es.len() ==> (#[trigger] es[i]).0 != (#[trigger] es[j]).0
}

/// The mapping an entry list stands for; later entries win.
pub open spec fn map_of(es: Seq<(ParamId, Vec<i64>)>) -> Map<ParamId, Seq<i64>>
    decreases es.len(),
{
    if es.len() == 0 {
        Map::empty()
    } else {
        map_of(es.drop_last()).insert(es.last().0, es.last().1@)
    }
}

proof fn lemma_map_of_index(es: Seq<(ParamId, Vec<i64>)>, k: int)
    requires
        distinct_ids(es),
        0 <= k < es.len(),
    ensures
        map_of(es).dom().contains(es[k].0),
        map_of(es)[es[k].0] == es[k].1@,
    decreases es.len(),
{
    if k == es.len() - 1 {
    } else {
        assert(distinct_ids(es.drop_last()));
        assert(es.drop_last()[k] == es[k]);
        lemma_map_of_index(es.drop_last(), k);
        assert(es.last().0 != es[k].0);
    }
}

proof fn lemma_map_of_absent(es: Seq<(ParamId, Vec<i64>)>, id: ParamId)
    requires
        forall|k: int| 0 <= k < es.len() ==> (#[trigger] es[k]).0 != id,
    ensures
        !map_of(es).dom().contains(id),
    decreases es.len(),
{
    if es.len() > 0 {
        assert(forall|k: int|
            0 <= k < es.drop_last().len() ==> (#[trigger] es.drop_last()[k]).0 != id);
        lemma_map_of_absent(es.drop_last(), id);
    }
}

proof fn lemma_map_of_dom(es: Seq<(ParamId, Vec<i64>)>, id: ParamId)
    requires
        map_of(es).dom().contains(id),
    ensures
        exists|k: int| 0 <= k < es.len() && (#[trigger] es[k]).0 == id,
    decreases es.len(),
{
    if es.len() > 0 {
        if es.last().0 == id {
            assert(es[es.len() - 1].0 == id);
        } else {
            lemma_map_of_dom(es.drop_last(), id);
            let k = choose|k: int| 0 <= k < es.drop_last().len() && (#[trigger] es.drop_last()[k]).0
                == id;
            assert(es[k].0 == id);
        }
    }
}

proof fn lemma_map_of_update(es: Seq<(ParamId, Vec<i64>)>, k: int, v: Vec<i64>)
    requires
        distinct_ids(es),
        0 <= k < es.len(),
    ensures
        map_of(es.update(k, (es[k].0, v))) == map_of(es).insert(es[k].0, v@),
        distinct_ids(es.update(k, (es[k].0, v))),
    decreases es.len(),
{
    let id = es[k].0;
    let u = es.update(k, (id, v));
    assert(forall|i: int| 0 <= i < es.len() ==> (#[trigger] u[i]).0 == es[i].0);
    if k == es.len() - 1 {
        assert(u.drop_last() =~= es.drop_last());
        assert(map_of(u) =~= map_of(es).insert(id, v@));
    } else {
        assert(distinct_ids(es.drop_last()));
        assert(u.drop_last() =~= es.drop_last().update(k, (id, v)));
        assert(es.drop_last()[k] == es[k]);
        lemma_map_of_update(es.drop_last(), k, v);
        assert(es.last().0 != id);
        assert(map_of(u) =~= map_of(es).insert(id, v@));
    }
}

/// A set of gradients, one flat integer vector per parameter.
pub struct GradientsParams {
    entries: Vec<(ParamId, Vec<i64>)>,
}

impl View for GradientsParams {
    type V = Map<ParamId, Seq<i64>>;

    closed spec fn view(&self) -> Map<ParamId, Seq<i64>> {
        map_of(self.entries@)
    }
}

impl GradientsParams {
    pub closed spec fn wf(&self) -> bool {
        distinct_ids(self.entries@)
    }

    /// An empty gradient set.
    pub fn new() -> (g: Self)
        ensures
            g.wf(),
            g@ == Map::<ParamId, Seq<i64>>::empty(),
    {
        GradientsParams { entries: Vec::new() }
    }

    /// The position of `id` in the entry list, if it is present.
    fn find(&self, id: ParamId) -> (r: Option<usize>)
        requires
            self.wf(),
        ensures
            r is None ==> !self@.dom().contains(id),
            r matches Some(k) ==> k < self.entries@.len() && self.entries@[k as int].0 == id
                && self@.dom().contains(id) && self@[id] == self.entries@[k as int].1@,
    {
        let mut k: usize = 0;
        while k < self.entries.len()
            invariant
                self.wf(),
                k <= self.entries@.len(),
                forall|j: int| 0 <= j < k ==> (#[trigger] self.entries@[j]).0 != id,
            decreases self.entries@.len() - k,
        {
            if self.entries[k].0.0 == id.0 {
                proof {
                    assert(self.entries@[k as int].0 == id);
                    lemma_map_of_index(self.entries@, k as int);
                }
                return Some(k);
            }
            k = k + 1;
        }
        proof {
            lemma_map_of_absent(self.entries@, id);
        }
        None
    }

    /// Whether a gradient is stored for `id`.
    pub fn contains(&self, id: ParamId) -> (r: bool)
        requires
            self.wf(),
        ensures
            r == self@.dom().contains(id),
    {
        self.find(id).is_some()
    }

    /// The gradient stored for `id`, if any.
    pub fn get(&self, id: ParamId) -> (r: Option<&Vec<i64>>)
        requires
            self.wf(),
        ensures
            r is None ==> !self@.dom().contains(id),
            r matches Some(v) ==> self@.dom().contains(id) && v@ == self@[id],
    {
        match self.find(id) {
            Some(k) => Some(&self.entries[k].1),
            None => None,
        }
    }

    /// Stores `value` as the gradient of `id`, replacing what was there.
    pub fn register(&mut self, id: ParamId, value: Vec<i64>)
        requires
            old(self).wf(),
        ensures
            final(self).wf(),
            final(self)@ == old(self)@.insert(id, value@),
    {
        let ghost es0 = self.entries@;
        match self.find(id) {
            Some(k) => {
                proof {
                    lemma_map_of_update(es0, k as int, value);
                }
                self.entries.set(k, (id, value));
            },
            None => {
                proof {
                    assert forall|i: int| 0 <= i < es0.len() implies (#[trigger] es0[i]).0
                        != id by {
                        if es0[i].0 == id {
                            lemma_map_of_index(es0, i);
                        }
                    }
                }
                self.entries.push((id, value));
                proof {
                    assert(self.entries@.drop_last() =~= es0);
                }
            },
        }
    }

    /// The stored parameter identities, in storage order, without
    /// duplicates; exactly the domain of the mapping.
    pub fn ids(&self) -> (r: Vec<ParamId>)
        requires
            self.wf(),
        ensures
            r@.len() == self.len_spec(),
            forall|k: int| 0 <= k < r@.len() ==> self@.dom().contains(#[trigger] r@[k]),
            forall|id: ParamId| self@.dom().contains(id) ==> r@.contains(id),
            forall|i: int, j: int| 0 <= i < j < r@.len() ==> r@[i] != r@[j],
    {
        let mut r: Vec<ParamId> = Vec::new();
        let mut k: usize = 0;
        while k < self.entries.len()
            invariant
                self.wf(),
                k <= self.entries@.len(),
                r@.len() == k,
                forall|j: int| 0 <= j < k ==> #[trigger] r@[j] == self.entries@[j].0,
            decreases self.entries@.len() - k,
        {
            r.push(self.entries[k].0);
            k = k + 1;
        }
        proof {
            assert forall|k2: int| 0 <= k2 < r@.len() implies self@.dom().contains(
                #[trigger] r@[k2],
            ) by {
                lemma_map_of_index(self.entries@, k2);
            }
            assert forall|id: ParamId| self@.dom().contains(id) implies r@.contains(id) by {
                lemma_map_of_dom(self.entries@, id);
                let j = choose|j: int|
                    0 <= j < self.entries@.len() && (#[trigger] self.entries@[j]).0 == id;
                assert(r@[j] == id);
            }
        }
        r
    }

    /// How many parameters carry a gradient.
    pub closed spec fn len_spec(&self) -> int {
        self.entries@.len() as int
    }

    /// Whether the set is empty.
    pub fn is_empty(&self) -> (r: bool)
        requires
            self.wf(),
        ensures
            r == (self@ == Map::<ParamId, Seq<i64>>::empty()),
    {
        let e = self.entries.len() == 0;
        proof {
            if self.entries@.len() == 0 {
                assert(self@ =~= Map::<ParamId, Seq<i64>>::empty());
            } else {
                lemma_map_of_index(self.entries@, 0);
                assert(self@.dom().contains(self.entries@[0].0));
            }
        }
        e
    }
}

/// The elementwise wrapped sum of two equally long gradient vectors.
fn add_vecs(a: &Vec<i64>, b: &Vec<i64>) -> (r: Vec<i64>)
    requires
        a@.len() == b@.len(),
    ensures
        r@ == add_grad_seqs(a@, b@),
{
    let mut r: Vec<i64> = Vec::new();
    let mut i: usize = 0;
    while i < a.len()
        invariant
            a@.len() == b@.len(),
            i <= a@.len(),
            r@.len() == i,
            forall|j: int| 0 <= j < i ==> #[trigger] r@[j] == a@[j].wrapping_add(b@[j]),
        decreases a@.len() - i,
    {
        r.push(a[i].wrapping_add(b[i]));
        i = i + 1;
    }
    proof {
        assert(r@ =~= add_grad_seqs(a@, b@));
    }
    r
}

/// Accumulates gradient sets: a running elementwise total per parameter,
/// created on the first contribution.
///
/// Draining the totals with [`GradientsAccumulator::grads`] resets the
/// accumulator (reset-on-flush), so the next accumulation window never
/// double-counts earlier contributions.
pub struct GradientsAccumulator {
    grads: GradientsParams,
}

impl View for GradientsAccumulator {
    type V = Map<ParamId, Seq<i64>>;

    closed spec fn view(&self) -> Map<ParamId, Seq<i64>> {
        self.grads@
    }
}

impl GradientsAccumulator {
    pub closed spec fn wf(&self) -> bool {
        self.grads.wf()
    }

    /// An empty accumulator.
    pub fn new() -> (a: Self)
        ensures
            a.wf(),
            a@ == Map::<ParamId, Seq<i64>>::empty(),
    {
        GradientsAccumulator { grads: GradientsParams::new() }
    }

    /// Adds every parameter's contribution in `grads` into the running
    /// totals, elementwise, creating entries on first contribution.
    pub fn accumulate(&mut self, grads: GradientsParams)
        requires
            old(self).wf(),
            grads.wf(),
        ensures
            final(self).wf(),
            final(self)@ == merge_grads(old(self)@, grads@),
    {
        let ghost acc0 = self.grads@;
        let ghost gs = grads.entries@;
        let mut incoming = grads;
        let ghost d: int = 0;
        while incoming.entries.len() > 0
            invariant
                self.grads.wf(),
                distinct_ids(gs),
                0 <= d <= gs.len(),
                incoming.entries@ == gs.skip(d),
                self.grads@ == merge_grads(acc0, map_of(gs.take(d))),
            decreases incoming.entries@.len(),
        {
            let ghost rest0 = incoming.entries@;
            let (id, v) = incoming.entries.remove(0);
            proof {
                assert(rest0[0] == gs[d]);
                assert(id == gs[d].0 && v == gs[d].1);
                assert(incoming.entries@ =~= gs.skip(d + 1));
                assert(gs.take(d + 1) =~= gs.take(d).push(gs[d]));
                assert(gs.take(d + 1).drop_last() =~= gs.take(d));
                assert forall|i: int| 0 <= i < gs.take(d).len() implies (#[trigger] gs.take(
                    d,
                )[i]).0 != id by {
                    assert(gs[i] == gs.take(d)[i]);
                }
                lemma_map_of_absent(gs.take(d), id);
                assert(map_of(gs.take(d + 1)) == map_of(gs.take(d)).insert(id, v@));
            }
            let merged: Vec<i64> = match self.grads.get(id) {
                Some(cur) => {
                    if cur.len() == v.len() {
                        add_vecs(cur, &v)
                    } else {
                        v
                    }
                },
                None => v,
            };
            self.grads.register(id, merged);
            proof {
                d = d + 1;
                assert(self.grads@ =~= merge_grads(acc0, map_of(gs.take(d))));
            }
        }
        proof {
            assert(gs.take(d) =~= gs);
            assert(map_of(gs.take(d)) == grads@);
        }
    }

    /// Whether nothing has been accumulated since the last drain.
    pub fn is_empty(&self) -> (r: bool)
        requires
            self.wf(),
        ensures
            r == (self@ == Map::<ParamId, Seq<i64>>::empty()),
    {
        self.grads.is_empty()
    }

    /// Drains the accumulated totals: returns the current sums and resets
    /// the accumulator to empty, so the next window starts from zero.
    pub fn grads(&mut self) -> (r: GradientsParams)
        requires
            old(self).wf(),
        ensures
            r.wf(),
            r@ == old(self)@,
            final(self).wf(),
            final(self)@ == Map::<ParamId, Seq<i64>>::empty(),
    {
        let mut out = GradientsParams::new();
        core::mem::swap(&mut self.grads, &mut out);
        out
    }
}

} // verus!
