//! One layer of the hierarchical routing table.
//!
//! A `Table` for layer `L` has 256 destination slots; the route towards a
//! node goes through slot `node.layer(L)`. The slot of the table's own
//! node is the *self slot*: it is listed from construction on and no sync
//! from a neighbour ever touches it. A sorted `slots` vector mirrors
//! which slots are populated.

use vstd::prelude::*;

use crate::addr::{eq_util_layer, node_layer, spec_eq_util_layer, spec_node_layer, ConnId, NodeId};
use crate::dest::{
    spec_best_for, spec_del_path, spec_next, spec_set_path, dest_paths_wf, lemma_best_for_avoids,
    lemma_del_path_absent, lemma_del_path_elems, lemma_del_path_removes, lemma_next_in_dest,
    lemma_set_path_elems, lemma_set_path_idempotent, Dest, Path, PathV,
};
use crate::metric::{seq_no_dup, spec_metric_add, Metric, MetricV};

verus! {

/// One layer's advertisement to a neighbour: for each slot, the metric
/// of the best route that does not traverse the neighbour.
#[derive(Debug)]
pub struct TableSync(pub Vec<(u8, Metric)>);

impl View for TableSync {
    type V = Seq<(u8, MetricV)>;

    open spec fn view(&self) -> Seq<(u8, MetricV)> {
        Seq::new(self.0@.len(), |i: int| (self.0@[i].0, self.0@[i].1@))
    }
}

impl Clone for TableSync {
    /// An equal advertisement.
    fn clone(&self) -> (r: Self)
        ensures
            r@ == self@,
    {
        let mut entries: Vec<(u8, Metric)> = Vec::new();
        let mut i: usize = 0;
        while i < self.0.len()
            invariant
                i <= self.0.len(),
                entries@.len() == i,
                forall|j: int| 0 <= j < i ==> entries@[j].0 == self.0@[j].0 && entries@[j].1@
                    == self.0@[j].1@,
            decreases self.0.len() - i,
        {
            let e = &self.0[i];
            entries.push((e.0, e.1.clone()));
            i += 1;
        }
        let r = TableSync(entries);
        proof {
            assert(r@ =~= self@);
        }
        r
    }
}

impl PartialEq for TableSync {
    fn eq(&self, other: &Self) -> (r: bool) {
        if self.0.len() != other.0.len() {
            proof {
                assert(self@.len() != other@.len());
            }
            return false;
        }
        let mut i: usize = 0;
        while i < self.0.len()
            invariant
                i <= self.0.len(),
                self.0@.len() == other.0@.len(),
                forall|j: int| 0 <= j < i ==> self@[j] == other@[j],
            decreases self.0.len() - i,
        {
            if self.0[i].0 != other.0[i].0 || !(self.0[i].1 == other.0[i].1) {
                proof {
                    assert(self@[i as int] != other@[i as int]);
                }
                return false;
            }
            proof {
                assert(self@[i as int] == other@[i as int]);
            }
            i += 1;
        }
        proof {
            assert(self@ =~= other@);
        }
        true
    }
}

impl vstd::std_specs::cmp::PartialEqSpecImpl for TableSync {
    open spec fn obeys_eq_spec() -> bool {
        true
    }

    open spec fn eq_spec(&self, other: &TableSync) -> bool {
        self@ == other@
    }
}

impl Eq for TableSync {

}

/// Mathematical value of a `Table`: the node, the layer, and the paths of
/// each of the 256 slots. The `slots` vector is derived state and is
/// pinned by the table's well-formedness.
#[verifier::ext_equal]
pub struct TableV {
    pub node: NodeId,
    pub layer: u8,
    pub dests: Seq<Seq<PathV>>,
}

/// The metric a sync from a neighbour leaves for slot `i`: the
/// concatenation with `sm` of the last advertised metric for `i` that
/// concatenates without forming a loop.
pub open spec fn spec_sync_lookup(sync: Seq<(u8, MetricV)>, i: u8, sm: MetricV) -> Option<MetricV>
    decreases sync.len(),
{
    if sync.len() == 0 {
        None
    } else if sync.last().0 == i && spec_metric_add(sync.last().1, sm) is Some {
        spec_metric_add(sync.last().1, sm)
    } else {
        spec_sync_lookup(sync.drop_last(), i, sm)
    }
}

/// What `apply_sync` leaves in slot `i`: the self slot is untouched; a
/// slot the sync advertises (without a loop) gets the concatenated path;
/// any other slot loses the path learned over `conn`, except the
/// neighbour's own slot.
pub open spec fn spec_apply_sync_slot(
    t: TableV,
    conn: ConnId,
    src: NodeId,
    sm: MetricV,
    sync: Seq<(u8, MetricV)>,
    i: int,
) -> Seq<PathV> {
    let self_slot = spec_node_layer(t.node, t.layer) as int;
    let src_slot = spec_node_layer(src, t.layer) as int;
    if i == self_slot {
        t.dests[i]
    } else {
        match spec_sync_lookup(sync, i as u8, sm) {
            Some(m) => spec_set_path(t.dests[i], PathV { conn, next: src, metric: m }),
            None => if i != src_slot {
                spec_del_path(t.dests[i], conn)
            } else {
                t.dests[i]
            },
        }
    }
}

/// Value of `Table::apply_sync`.
pub open spec fn spec_apply_sync(
    t: TableV,
    conn: ConnId,
    src: NodeId,
    sm: MetricV,
    sync: Seq<(u8, MetricV)>,
) -> TableV {
    TableV {
        node: t.node,
        layer: t.layer,
        dests: Seq::new(256, |i: int| spec_apply_sync_slot(t, conn, src, sm, sync, i)),
    }
}

/// Value of `Table::sync_for` from slot `i` up: one entry per populated
/// non-self slot whose best route avoids `remote`.
pub open spec fn spec_sync_entries(t: TableV, remote: NodeId, i: int) -> Seq<(u8, MetricV)>
    decreases 256 - i,
{
    if i < 0 || i >= 256 {
        Seq::empty()
    } else {
        let rest = spec_sync_entries(t, remote, i + 1);
        match spec_best_for(t.dests[i], remote) {
            Some(p) => if i != spec_node_layer(t.node, t.layer) as int {
                seq![(i as u8, p.metric)] + rest
            } else {
                rest
            },
            None => rest,
        }
    }
}

/// A route this node may hold or advertise: a non-empty hop list without
/// repeated nodes whose last element is this node. Since no node repeats,
/// this node never stands anywhere but at the end: the node never relays
/// through itself.
pub open spec fn spec_metric_proper(m: MetricV, node: NodeId) -> bool {
    &&& m.hops.len() > 0
    &&& seq_no_dup(m.hops)
    &&& m.hops.last() == node
}

/// Every route the table holds is proper for its own node.
pub open spec fn spec_table_proper(t: TableV) -> bool {
    forall|i: int, j: int| 0 <= i < 256 && 0 <= j < t.dests[i].len() ==> spec_metric_proper(
        (#[trigger] t.dests[i][j]).metric,
        t.node,
    )
}

/// A proper route never relays through this node: the node stands only at
/// the very end of the hop list.
pub proof fn lemma_proper_no_self_relay(m: MetricV, node: NodeId)
    requires
        spec_metric_proper(m, node),
    ensures
        forall|k: int| 0 <= k < m.hops.len() - 1 ==> m.hops[k] != node,
{
}

/// Whatever `spec_sync_lookup` returns came from concatenating one of the
/// advertised metrics with the local metric to the advertiser.
proof fn lemma_sync_lookup_from_add(sync: Seq<(u8, MetricV)>, i: u8, sm: MetricV)
    ensures
        spec_sync_lookup(sync, i, sm) matches Some(m) ==> exists|a: MetricV|
            spec_metric_add(a, sm) == Some(m),
    decreases sync.len(),
{
    if sync.len() > 0 {
        if sync.last().0 == i && spec_metric_add(sync.last().1, sm) is Some {
            let a = sync.last().1;
            assert(spec_metric_add(a, sm) == spec_sync_lookup(sync, i, sm));
        } else {
            lemma_sync_lookup_from_add(sync.drop_last(), i, sm);
        }
    }
}

/// A metric concatenated from a loop-free advertisement and a proper
/// local metric to a neighbour other than this node is proper again.
proof fn lemma_add_proper(a: MetricV, sm: MetricV, node: NodeId, m: MetricV)
    requires
        spec_metric_proper(sm, node),
        sm.hops[0] != node,
        spec_metric_add(a, sm) == Some(m),
    ensures
        spec_metric_proper(m, node),
{
    assert(sm.hops.len() >= 2);
    assert(m.hops == a.hops + sm.hops.skip(1));
    assert(m.hops.last() == sm.hops.skip(1).last());
    assert(sm.hops.skip(1).last() == sm.hops.last());
}

/// Loop freedom, preserved by `add_direct`: recording a proper direct
/// route keeps every route in the table proper.
pub proof fn lemma_add_direct_proper(t: TableV, conn: ConnId, src: NodeId, m: MetricV)
    requires
        t.dests.len() == 256,
        spec_table_proper(t),
        spec_metric_proper(m, t.node),
    ensures
        spec_table_proper(
            TableV {
                node: t.node,
                layer: t.layer,
                dests: t.dests.update(
                    spec_node_layer(src, t.layer) as int,
                    spec_set_path(
                        t.dests[spec_node_layer(src, t.layer) as int],
                        (PathV { conn, next: src, metric: m }),
                    ),
                ),
            },
        ),
{
    let slot = spec_node_layer(src, t.layer) as int;
    let p = PathV { conn, next: src, metric: m };
    lemma_set_path_elems(t.dests[slot], p);
    let r = spec_set_path(t.dests[slot], p);
    let t2 = TableV { node: t.node, layer: t.layer, dests: t.dests.update(slot, r) };
    assert forall|i: int, j: int| 0 <= i < 256 && 0 <= j < t2.dests[i].len() implies
        spec_metric_proper((#[trigger] t2.dests[i][j]).metric, t.node) by {
        if i == slot {
            if r[j] != p {
                let k = choose|k: int| 0 <= k < t.dests[slot].len() && t.dests[slot][k] == r[j];
                assert(spec_metric_proper(t.dests[slot][k].metric, t.node));
            }
        } else {
            assert(spec_metric_proper(t.dests[i][j].metric, t.node));
        }
    }
}

/// Loop freedom, preserved by `del_direct`: forgetting a connection keeps
/// every route in the table proper.
pub proof fn lemma_del_direct_proper(t: TableV, conn: ConnId)
    requires
        t.dests.len() == 256,
        spec_table_proper(t),
    ensures
        spec_table_proper(
            TableV {
                node: t.node,
                layer: t.layer,
                dests: Seq::new(256, |i: int| spec_del_path(t.dests[i], conn)),
            },
        ),
{
    let t2 = TableV {
        node: t.node,
        layer: t.layer,
        dests: Seq::new(256, |i: int| spec_del_path(t.dests[i], conn)),
    };
    assert forall|i: int, j: int| 0 <= i < 256 && 0 <= j < t2.dests[i].len() implies
        spec_metric_proper((#[trigger] t2.dests[i][j]).metric, t.node) by {
        lemma_del_path_elems(t.dests[i], conn);
        let e = t2.dests[i][j];
        let k = choose|k: int| 0 <= k < t.dests[i].len() && t.dests[i][k] == e;
        assert(spec_metric_proper(t.dests[i][k].metric, t.node));
    }
}

/// Loop freedom, preserved by `apply_sync`: merging any advertisement
/// over a proper local metric keeps every route in the table proper, so
/// no route the table ever emits relays through this node.
pub proof fn lemma_apply_sync_proper(
    t: TableV,
    conn: ConnId,
    src: NodeId,
    sm: MetricV,
    sync: Seq<(u8, MetricV)>,
)
    requires
        t.dests.len() == 256,
        spec_table_proper(t),
        spec_metric_proper(sm, t.node),
        sm.hops[0] == src,
        src != t.node,
    ensures
        spec_table_proper(spec_apply_sync(t, conn, src, sm, sync)),
{
    let t2 = spec_apply_sync(t, conn, src, sm, sync);
    assert forall|i: int, j: int| 0 <= i < 256 && 0 <= j < t2.dests[i].len() implies
        spec_metric_proper((#[trigger] t2.dests[i][j]).metric, t.node) by {
        let self_slot = spec_node_layer(t.node, t.layer) as int;
        let src_slot = spec_node_layer(src, t.layer) as int;
        assert(t2.dests[i] == spec_apply_sync_slot(t, conn, src, sm, sync, i));
        if i == self_slot {
            assert(spec_metric_proper(t.dests[i][j].metric, t.node));
        } else {
            match spec_sync_lookup(sync, i as u8, sm) {
                Some(m) => {
                    let p = PathV { conn, next: src, metric: m };
                    lemma_sync_lookup_from_add(sync, i as u8, sm);
                    let a = choose|a: MetricV| spec_metric_add(a, sm) == Some(m);
                    lemma_add_proper(a, sm, t.node, m);
                    lemma_set_path_elems(t.dests[i], p);
                    let e = t2.dests[i][j];
                    if e != p {
                        let k = choose|k: int| 0 <= k < t.dests[i].len() && t.dests[i][k] == e;
                        assert(spec_metric_proper(t.dests[i][k].metric, t.node));
                    }
                },
                None => {
                    if i != src_slot {
                        lemma_del_path_elems(t.dests[i], conn);
                        let e = t2.dests[i][j];
                        let k = choose|k: int| 0 <= k < t.dests[i].len() && t.dests[i][k] == e;
                        assert(spec_metric_proper(t.dests[i][k].metric, t.node));
                    } else {
                        assert(spec_metric_proper(t.dests[i][j].metric, t.node));
                    }
                },
            }
        }
    }
}

/// Loop freedom, at the point of use: in a proper table, a route handed
/// out for any slot never relays through this node.
pub proof fn lemma_loop_freedom(t: TableV, slot: int, excepts: Seq<NodeId>)
    requires
        t.dests.len() == 256,
        0 <= slot < 256,
        spec_table_proper(t),
    ensures
        spec_next(t.dests[slot], excepts) matches Some(p) ==> forall|k: int|
            0 <= k < p.metric.hops.len() - 1 ==> p.metric.hops[k] != t.node,
{
    lemma_next_in_dest(t.dests[slot], excepts);
    match spec_next(t.dests[slot], excepts) {
        Some(p) => {
            let j = choose|j: int| 0 <= j < t.dests[slot].len() && t.dests[slot][j] == p;
            assert(spec_metric_proper(t.dests[slot][j].metric, t.node));
            lemma_proper_no_self_relay(p.metric, t.node);
        },
        None => {},
    }
}

/// Self-slot invariance: no `apply_sync` ever changes the slot of the
/// table's own node.
pub proof fn lemma_apply_sync_self_slot(
    t: TableV,
    conn: ConnId,
    src: NodeId,
    sm: MetricV,
    sync: Seq<(u8, MetricV)>,
)
    requires
        t.dests.len() == 256,
    ensures
        spec_apply_sync(t, conn, src, sm, sync).dests[spec_node_layer(t.node, t.layer) as int]
            == t.dests[spec_node_layer(t.node, t.layer) as int],
{
}

/// Poisoned reverse: no advertisement built for `remote` carries a
/// metric whose hop list holds `remote`.
pub proof fn lemma_sync_poisoned_reverse(t: TableV, remote: NodeId, i: int)
    ensures
        forall|k: int| 0 <= k < spec_sync_entries(t, remote, i).len() ==> !(
        #[trigger] spec_sync_entries(t, remote, i)[k]).1.hops.contains(remote),
    decreases 256 - i,
{
    if 0 <= i < 256 {
        lemma_sync_poisoned_reverse(t, remote, i + 1);
        lemma_best_for_avoids(t.dests[i], remote);
        let rest = spec_sync_entries(t, remote, i + 1);
        match spec_best_for(t.dests[i], remote) {
            Some(p) => {
                if i != spec_node_layer(t.node, t.layer) as int {
                    let whole = seq![(i as u8, p.metric)] + rest;
                    assert forall|k: int| 0 <= k < whole.len() implies !(
                    #[trigger] whole[k]).1.hops.contains(remote) by {
                        if k > 0 {
                            assert(whole[k] == rest[k - 1]);
                        }
                    }
                }
            },
            None => {},
        }
    }
}

/// Idempotence of `apply_sync`: applying the same advertisement twice,
/// with the same local metric, leaves exactly the state the first
/// application left.
pub proof fn lemma_apply_sync_idempotent(
    t: TableV,
    conn: ConnId,
    src: NodeId,
    sm: MetricV,
    sync: Seq<(u8, MetricV)>,
)
    requires
        Table::view_wf(t),
    ensures
        spec_apply_sync(spec_apply_sync(t, conn, src, sm, sync), conn, src, sm, sync)
            == spec_apply_sync(t, conn, src, sm, sync),
{
    let t1 = spec_apply_sync(t, conn, src, sm, sync);
    let t2 = spec_apply_sync(t1, conn, src, sm, sync);
    let self_slot = spec_node_layer(t.node, t.layer) as int;
    let src_slot = spec_node_layer(src, t.layer) as int;
    assert forall|i: int| 0 <= i < 256 implies t2.dests[i] == t1.dests[i] by {
        assert(t1.dests[i] == spec_apply_sync_slot(t, conn, src, sm, sync, i));
        assert(t2.dests[i] == spec_apply_sync_slot(t1, conn, src, sm, sync, i));
        if i != self_slot {
            match spec_sync_lookup(sync, i as u8, sm) {
                Some(m) => {
                    lemma_set_path_idempotent(t.dests[i], PathV { conn, next: src, metric: m });
                },
                None => {
                    if i != src_slot {
                        lemma_del_path_removes(t.dests[i], conn);
                        lemma_del_path_absent(spec_del_path(t.dests[i], conn), conn);
                    }
                },
            }
        }
    }
    assert(t2.dests =~= t1.dests);
    assert(t2 =~= t1);
}

/// A mutable borrow of slot `i`.
fn dest_at_mut(v: &mut Vec<Dest>, i: usize) -> (element: &mut Dest)
    requires
        i < old(v).len(),
    ensures
        *element == old(v)@[i as int],
        final(v)@ == old(v)@.update(i as int, *final(element)),
{
    &mut v[i]
}

/// The per-layer routing table.
#[derive(Debug)]
pub struct Table {
    node_id: NodeId,
    layer: u8,
    dests: Vec<Dest>,
    slots: Vec<u8>,
}

impl View for Table {
    type V = TableV;

    closed spec fn view(&self) -> TableV {
        TableV {
            node: self.node_id,
            layer: self.layer,
            dests: Seq::new(self.dests@.len(), |i: int| self.dests@[i]@),
        }
    }
}

/// How many of the first `i` slots hold at least one path.
pub open spec fn spec_populated_count(t: TableV, i: int) -> int
    decreases i,
{
    if i <= 0 {
        0
    } else {
        spec_populated_count(t, i - 1) + (if t.dests[i - 1].len() > 0 {
            1int
        } else {
            0int
        })
    }
}

/// Strictly ascending, so also free of duplicates.
pub open spec fn spec_slots_sorted(s: Seq<u8>) -> bool {
    forall|i: int, j: int| 0 <= i < j < s.len() ==> s[i] < s[j]
}

/// The slot vector lists exactly the self slot and the populated slots.
pub open spec fn spec_slots_complete(t: TableV, slots: Seq<u8>) -> bool {
    forall|s: u8| slots.contains(s) <==> (s == spec_node_layer(t.node, t.layer) || t.dests[
        s as int
    ].len() > 0)
}

impl Table {
    /// The slot this table's own node falls into.
    pub open spec fn spec_self_slot(&self) -> u8 {
        spec_node_layer(self@.node, self@.layer)
    }

    /// Internal invariant: four layers, 256 well-formed slots, and a
    /// sorted slot vector that lists exactly the self slot and the
    /// populated slots.
    pub closed spec fn wf(&self) -> bool {
        &&& self.layer < 4
        &&& self.dests@.len() == 256
        &&& (forall|i: int| 0 <= i < 256 ==> dest_paths_wf(#[trigger] self@.dests[i]))
        &&& spec_slots_sorted(self.slots@)
        &&& spec_slots_complete(self@, self.slots@)
    }

    /// The well-formedness of the view that `wf` maintains.
    pub open spec fn view_wf(t: TableV) -> bool {
        &&& t.layer < 4
        &&& t.dests.len() == 256
        &&& (forall|i: int| 0 <= i < 256 ==> dest_paths_wf(#[trigger] t.dests[i]))
    }

    /// An empty table for `node_id` at `layer`: every slot empty, only
    /// the self slot listed.
    pub fn new(node_id: NodeId, layer: u8) -> (r: Table)
        requires
            layer < 4,
        ensures
            r.wf(),
            Table::view_wf(r@),
            r@.node == node_id,
            r@.layer == layer,
            r@.dests == Seq::new(256, |i: int| Seq::<PathV>::empty()),
    {
        let node_index = node_layer(node_id, layer);
        let mut dests: Vec<Dest> = Vec::new();
        let mut i: usize = 0;
        while i < 256
            invariant
                i <= 256,
                dests@.len() == i,
                forall|j: int| 0 <= j < i ==> (#[trigger] dests@[j])@.len() == 0,
            decreases 256 - i,
        {
            dests.push(Dest::new());
            i += 1;
        }
        let slots: Vec<u8> = vec![node_index];
        let r = Table { node_id, layer, dests, slots };
        proof {
            assert(r@.dests =~~= Seq::new(256, |i: int| Seq::<PathV>::empty()));
            assert forall|s: u8| r.slots@.contains(s) <==> (s == spec_node_layer(
                r@.node,
                r@.layer,
            ) || r@.dests[s as int].len() > 0) by {
                if s == node_index {
                    assert(r.slots@[0] == s);
                }
            }
        }
        r
    }

    /// The listed slots: the self slot and every populated slot, in
    /// ascending order.
    pub fn slots(&self) -> (r: Vec<u8>)
        requires
            self.wf(),
        ensures
            spec_slots_sorted(r@),
            spec_slots_complete(self@, r@),
    {
        let mut r: Vec<u8> = Vec::new();
        let mut i: usize = 0;
        while i < self.slots.len()
            invariant
                i <= self.slots.len(),
                r@ == self.slots@.take(i as int),
            decreases self.slots.len() - i,
        {
            r.push(self.slots[i]);
            i += 1;
            proof {
                assert(r@ =~= self.slots@.take(i as int));
            }
        }
        proof {
            assert(r@ =~= self.slots@);
        }
        r
    }

    /// How many slots are populated.
    pub fn size(&self) -> (r: usize)
        requires
            self.wf(),
        ensures
            r == spec_populated_count(self@, 256),
    {
        let mut size: usize = 0;
        let mut i: usize = 0;
        while i < 256
            invariant
                i <= 256,
                size <= i,
                self.wf(),
                size == spec_populated_count(self@, i as int),
            decreases 256 - i,
        {
            proof {
                assert(self@.dests[i as int] == self.dests@[i as int]@);
            }
            if !self.dests[i].is_empty() {
                size += 1;
            }
            i += 1;
        }
        size
    }

    /// Rebuilds the slot vector from the destinations.
    fn rebuild_slots(&mut self)
        requires
            old(self).layer < 4,
            old(self).dests@.len() == 256,
            forall|i: int| 0 <= i < 256 ==> dest_paths_wf(#[trigger] old(self)@.dests[i]),
        ensures
            final(self).wf(),
            final(self)@ == old(self)@,
    {
        let self_slot = node_layer(self.node_id, self.layer);
        let mut slots: Vec<u8> = Vec::new();
        let mut i: usize = 0;
        while i < 256
            invariant
                i <= 256,
                self.dests@.len() == 256,
                self_slot == self.spec_self_slot(),
                spec_slots_sorted(slots@),
                forall|j: int| 0 <= j < slots@.len() ==> (#[trigger] slots@[j]) < i,
                forall|s: u8| s < i ==> (slots@.contains(s) <==> (s == self_slot || self@.dests[
                    s as int
                ].len() > 0)),
            decreases 256 - i,
        {
            let s = i as u8;
            proof {
                assert(self@.dests[i as int] == self.dests@[i as int]@);
                if slots@.contains(s) {
                    let k = choose|k: int| 0 <= k < slots@.len() && slots@[k] == s;
                    assert(slots@[k] < i as u8);
                    assert(false);
                }
            }
            let ghost pre = slots@;
            let pushed = s == self_slot || !self.dests[i].is_empty();
            if pushed {
                slots.push(s);
            }
            i += 1;
            proof {
                if pushed {
                    assert forall|x: u8| slots@.contains(x) <==> (pre.contains(x) || x == s) by {
                        if slots@.contains(x) {
                            let k = choose|k: int| 0 <= k < slots@.len() && slots@[k] == x;
                            if k < pre.len() {
                                assert(pre[k] == x);
                            }
                        }
                        if pre.contains(x) {
                            let k = choose|k: int| 0 <= k < pre.len() && pre[k] == x;
                            assert(slots@[k] == x);
                        }
                        if x == s {
                            assert(slots@[slots@.len() - 1] == s);
                        }
                    }
                }
                assert forall|x: u8| x < i implies (slots@.contains(x) <==> (x == self_slot
                    || self@.dests[x as int].len() > 0)) by {
                    if (x as int) + 1 < i as int {
                        assert(pre.contains(x) <==> (x == self_slot || self@.dests[
                            x as int
                        ].len() > 0));
                    } else {
                        assert(x == s);
                        if pushed {
                            assert(slots@.contains(x));
                        } else {
                            assert(!pre.contains(s));
                            assert(!slots@.contains(x));
                        }
                    }
                }
            }
        }
        self.slots = slots;
    }

    /// Records a route measured directly to the neighbour `src`, reached
    /// over `src_conn`: slot `src.layer(L)` gains (or replaces) the path
    /// of that connection. Every other slot is untouched.
    pub fn add_direct(&mut self, src_conn: ConnId, src: NodeId, src_send_metric: Metric)
        requires
            old(self).wf(),
            src_send_metric@.hops.len() > 0,
            src_send_metric@.hops[0] == src,
        ensures
            final(self).wf(),
            Table::view_wf(final(self)@),
            final(self)@.node == old(self)@.node,
            final(self)@.layer == old(self)@.layer,
            final(self)@.dests == old(self)@.dests.update(
                spec_node_layer(src, old(self)@.layer) as int,
                spec_set_path(
                    old(self)@.dests[spec_node_layer(src, old(self)@.layer) as int],
                    (PathV { conn: src_conn, next: src, metric: src_send_metric@ }),
                ),
            ),
    {
        let index = node_layer(src, self.layer);
        let ghost pre = self@;
        proof {
            assert(pre.dests[index as int] == self.dests@[index as int]@);
        }
        let dest = dest_at_mut(&mut self.dests, index as usize);
        dest.set_path(src_conn, src, src_send_metric);
        proof {
            assert(self@.dests =~= pre.dests.update(
                index as int,
                spec_set_path(
                    pre.dests[index as int],
                    (PathV { conn: src_conn, next: src, metric: src_send_metric@ }),
                ),
            ));
        }
        self.rebuild_slots();
    }

    /// Forgets the connection `src_conn`: every slot loses its path, if
    /// it had one.
    pub fn del_direct(&mut self, src_conn: ConnId)
        requires
            old(self).wf(),
        ensures
            final(self).wf(),
            Table::view_wf(final(self)@),
            final(self)@.node == old(self)@.node,
            final(self)@.layer == old(self)@.layer,
            final(self)@.dests == Seq::new(
                256,
                |i: int| spec_del_path(old(self)@.dests[i], src_conn),
            ),
    {
        let ghost pre = self@;
        proof {
            assert(pre.dests =~= Seq::new(256, |j: int| old(self).dests@[j]@));
            assert forall|j: int| 0 <= j < 256 implies dest_paths_wf(
                (#[trigger] old(self).dests@[j])@,
            ) by {
                assert(old(self)@.dests[j] == old(self).dests@[j]@);
            }
        }
        let mut i: usize = 0;
        while i < 256
            invariant
                i <= 256,
                self.node_id == pre.node,
                self.layer == pre.layer,
                self.dests@.len() == 256,
                old(self).dests@.len() == 256,
                pre.dests.len() == 256,
                pre.dests == Seq::new(256, |j: int| old(self).dests@[j]@),
                forall|j: int| i <= j < 256 ==> #[trigger] self.dests@[j] == old(self).dests@[j],
                forall|j: int| 0 <= j < i ==> (#[trigger] self.dests@[j])@ == spec_del_path(
                    old(self).dests@[j]@,
                    src_conn,
                ),
                forall|j: int| 0 <= j < 256 ==> dest_paths_wf((#[trigger] old(self).dests@[j])@),
                forall|j: int| 0 <= j < 256 ==> dest_paths_wf((#[trigger] self.dests@[j])@),
            decreases 256 - i,
        {
            let dest = dest_at_mut(&mut self.dests, i);
            dest.del_path(src_conn);
            i += 1;
        }
        proof {
            assert forall|j: int| 0 <= j < 256 implies dest_paths_wf(#[trigger] self@.dests[j]) by {
                assert(self@.dests[j] == self.dests@[j]@);
            }
            assert(self@.dests =~~= Seq::new(
                256,
                |j: int| spec_del_path(pre.dests[j], src_conn),
            ));
        }
        self.rebuild_slots();
    }

    /// The preferred next hop towards `dest`, avoiding the nodes in
    /// `excepts`.
    pub fn next(&self, dest: NodeId, excepts: &Vec<NodeId>) -> (r: Option<(ConnId, NodeId)>)
        requires
            self.wf(),
        ensures
            match r {
                Some(pair) => {
                    &&& spec_next(
                        self@.dests[spec_node_layer(dest, self@.layer) as int],
                        excepts@,
                    ) matches Some(p)
                    &&& pair.0 == p.conn
                    &&& pair.1 == p.next
                },
                None => spec_next(
                    self@.dests[spec_node_layer(dest, self@.layer) as int],
                    excepts@,
                ) is None,
            },
    {
        let index = node_layer(dest, self.layer);
        self.dests[index as usize].next(excepts)
    }

    /// The preferred path towards `dest`, avoiding the nodes in
    /// `excepts`.
    pub fn next_path(&self, dest: NodeId, excepts: &Vec<NodeId>) -> (r: Option<Path>)
        requires
            self.wf(),
        ensures
            match r {
                Some(p) => spec_next(
                    self@.dests[spec_node_layer(dest, self@.layer) as int],
                    excepts@,
                ) == Some(p@),
                None => spec_next(
                    self@.dests[spec_node_layer(dest, self@.layer) as int],
                    excepts@,
                ) is None,
            },
    {
        let index = node_layer(dest, self.layer);
        self.dests[index as usize].next_path(excepts)
    }

    /// The preferred next hop of one slot, avoiding the nodes in
    /// `excepts`.
    pub fn slot_next(&self, slot: u8, excepts: &Vec<NodeId>) -> (r: Option<(ConnId, NodeId)>)
        requires
            self.wf(),
        ensures
            match r {
                Some(pair) => {
                    &&& spec_next(self@.dests[slot as int], excepts@) matches Some(p)
                    &&& pair.0 == p.conn
                    &&& pair.1 == p.next
                },
                None => spec_next(self@.dests[slot as int], excepts@) is None,
            },
    {
        self.dests[slot as usize].next(excepts)
    }

    /// Merges a neighbour's advertisement: each advertised slot gains the
    /// advertised route concatenated with the locally measured metric to
    /// the neighbour (unless that would form a loop); each slot the sync
    /// no longer mentions loses the path learned over `src_conn`, except
    /// the neighbour's own slot; the self slot is never touched.
    pub fn apply_sync(&mut self, src_conn: ConnId, src: NodeId, src_send_metric: Metric, sync: &TableSync)
        requires
            old(self).wf(),
            src_send_metric@.hops.len() > 0,
            src_send_metric@.hops[0] == src,
        ensures
            final(self).wf(),
            Table::view_wf(final(self)@),
            final(self)@ == spec_apply_sync(old(self)@, src_conn, src, src_send_metric@, sync@),
    {
        let ghost pre = self@;
        let ghost sm = src_send_metric@;
        // The net effect of the advertisement on each slot: for every
        // entry, the concatenated metric, later entries overriding
        // earlier ones; entries that would form a loop leave no trace.
        let mut cached: Vec<Option<Metric>> = Vec::new();
        let mut i: usize = 0;
        while i < 256
            invariant
                i <= 256,
                cached@.len() == i,
                forall|j: int| 0 <= j < i ==> (#[trigger] cached@[j]) is None,
            decreases 256 - i,
        {
            cached.push(None);
            i += 1;
        }
        let mut k: usize = 0;
        while k < sync.0.len()
            invariant
                k <= sync.0@.len(),
                sm == src_send_metric@,
                cached@.len() == 256,
                forall|s: int|
                    #![trigger cached@[s]]
                    0 <= s < 256 ==> match cached@[s] {
                        Some(m) => spec_sync_lookup(sync@.take(k as int), s as u8, sm) == Some(m@),
                        None => spec_sync_lookup(sync@.take(k as int), s as u8, sm) is None,
                    },
            decreases sync.0.len() - k,
        {
            proof {
                assert(sync@.take(k as int + 1).drop_last() =~= sync@.take(k as int));
                assert(sync@.take(k as int + 1).last() == sync@[k as int]);
                assert(sync@[k as int] == (sync.0@[k as int].0, sync.0@[k as int].1@));
            }
            let entry_index = sync.0[k].0;
            match sync.0[k].1.add(&src_send_metric) {
                Some(sum) => {
                    cached.set(entry_index as usize, Some(sum));
                },
                None => {},
            }
            k += 1;
        }
        proof {
            assert(sync@.take(sync@.len() as int) =~= sync@);
        }
        let self_slot = node_layer(self.node_id, self.layer);
        let src_slot = node_layer(src, self.layer);
        proof {
            assert(pre.dests =~= Seq::new(256, |j: int| old(self).dests@[j]@));
            assert forall|j: int| 0 <= j < 256 implies dest_paths_wf(
                (#[trigger] old(self).dests@[j])@,
            ) by {
                assert(old(self)@.dests[j] == old(self).dests@[j]@);
            }
        }
        let mut i: usize = 0;
        while i < 256
            invariant
                i <= 256,
                cached@.len() == 256,
                self.node_id == pre.node,
                self.layer == pre.layer,
                self.layer < 4,
                self_slot == spec_node_layer(pre.node, pre.layer),
                src_slot == spec_node_layer(src, pre.layer),
                sm == src_send_metric@,
                self.dests@.len() == 256,
                old(self).dests@.len() == 256,
                pre.dests.len() == 256,
                pre.node == old(self)@.node,
                pre.layer == old(self)@.layer,
                pre.dests == Seq::new(256, |j: int| old(self).dests@[j]@),
                forall|s: int|
                    #![trigger cached@[s]]
                    0 <= s < 256 ==> match cached@[s] {
                        Some(m) => spec_sync_lookup(sync@, s as u8, sm) == Some(m@),
                        None => spec_sync_lookup(sync@, s as u8, sm) is None,
                    },
                forall|j: int| i <= j < 256 ==> #[trigger] self.dests@[j] == old(self).dests@[j],
                forall|j: int| 0 <= j < i ==> (#[trigger] self.dests@[j])@ == spec_apply_sync_slot(
                    pre,
                    src_conn,
                    src,
                    sm,
                    sync@,
                    j,
                ),
                forall|j: int| 0 <= j < 256 ==> dest_paths_wf((#[trigger] old(self).dests@[j])@),
                forall|j: int| 0 <= j < 256 ==> dest_paths_wf((#[trigger] self.dests@[j])@),
            decreases 256 - i,
        {
            proof {
                assert(pre.dests[i as int] == old(self).dests@[i as int]@);
            }
            if i as u8 != self_slot {
                let m_opt: Option<Metric> = match &cached[i] {
                    Some(m) => Some(m.clone()),
                    None => None,
                };
                match m_opt {
                    Some(m) => {
                        let dest = dest_at_mut(&mut self.dests, i);
                        dest.set_path(src_conn, src, m);
                    },
                    None => {
                        if i as u8 != src_slot {
                            let dest = dest_at_mut(&mut self.dests, i);
                            dest.del_path(src_conn);
                        }
                    },
                }
            }
            i += 1;
        }
        proof {
            assert forall|j: int| 0 <= j < 256 implies dest_paths_wf(
                #[trigger] self@.dests[j],
            ) by {
                assert(self@.dests[j] == self.dests@[j]@);
            }
            assert(self@.dests =~~= spec_apply_sync(pre, src_conn, src, sm, sync@).dests);
            assert(self@ =~~= spec_apply_sync(pre, src_conn, src, sm, sync@));
        }
        self.rebuild_slots();
    }

    /// The advertisement for `remote`, or `None` when `remote` is outside
    /// this layer's advertising scope. Each populated non-self slot
    /// contributes the metric of its best route that does not traverse
    /// `remote` (poisoned reverse); a slot whose every route traverses
    /// `remote` is left out.
    pub fn sync_for(&self, node: NodeId) -> (r: Option<TableSync>)
        requires
            self.wf(),
        ensures
            match r {
                Some(ts) => {
                    &&& spec_eq_util_layer(self@.node, node) <= self@.layer + 1
                    &&& ts@ == spec_sync_entries(self@, node, 0)
                },
                None => spec_eq_util_layer(self@.node, node) > self@.layer + 1,
            },
    {
        let eq_util = eq_util_layer(self.node_id, node);
        if eq_util > self.layer + 1 {
            return None;
        }
        let self_slot = node_layer(self.node_id, self.layer);
        let mut res: Vec<(u8, Metric)> = Vec::new();
        let mut i: usize = 0;
        while i < 256
            invariant
                i <= 256,
                self.wf(),
                self_slot == self.spec_self_slot(),
                spec_sync_entries(self@, node, 0) == Seq::new(
                    res@.len(),
                    |j: int| (res@[j].0, res@[j].1@),
                ) + spec_sync_entries(self@, node, i as int),
            decreases 256 - i,
        {
            let ghost pre_entries = Seq::new(res@.len(), |j: int| (res@[j].0, res@[j].1@));
            if i as u8 != self_slot {
                match self.dests[i].best_for(node) {
                    Some(p) => {
                        res.push((i as u8, p.2));
                        proof {
                            let entries = Seq::new(res@.len(), |j: int| (res@[j].0, res@[j].1@));
                            assert(entries =~= pre_entries + seq![(i as u8, p@.metric)]);
                            assert(pre_entries + (seq![(i as u8, p@.metric)] + spec_sync_entries(
                                self@,
                                node,
                                i as int + 1,
                            )) =~= entries + spec_sync_entries(self@, node, i as int + 1));
                        }
                    },
                    None => {},
                }
            }
            i += 1;
        }
        proof {
            assert(spec_sync_entries(self@, node, 256) =~= Seq::<(u8, MetricV)>::empty());
            let entries = Seq::new(res@.len(), |j: int| (res@[j].0, res@[j].1@));
            assert(entries + Seq::<(u8, MetricV)>::empty() =~= entries);
        }
        Some(TableSync(res))
    }
}

} // verus!
