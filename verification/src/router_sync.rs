//! The router-sync feature: the authoritative router lives here, every
//! direct neighbour is advertised to at a fixed cadence, and incoming
//! advertisements are merged into the tables. Every change is mirrored to
//! the workers so their shadow routers stay equal to this one.

use vstd::prelude::*;

use std::collections::VecDeque;

use crate::addr::{spec_eq_util_layer, ConnId, NodeId};
use crate::dataplane::append_bytes;
use crate::features::{FeaturesToWorker, RouterSyncEvent};
use crate::metric::Metric;
use crate::router::{Router, RouterV};
use crate::sync_codec::{decode_table_sync, encode_table_sync, spec_decode_sync, spec_encode_sync};
use crate::table::{spec_apply_sync, spec_sync_entries};

verus! {

/// Milliseconds between advertisement rounds.
pub const SYNC_INTERVAL_MS: u64 = 1000;

/// What the router-sync feature hands the controller plane.
#[derive(Debug)]
pub enum RouterSyncOutput {
    /// A table delta every worker's shadow must replay.
    ToWorkers(FeaturesToWorker),
    /// An encoded advertisement for one neighbour.
    SendDirect(ConnId, Vec<u8>),
    /// An event for the external listener.
    Event(RouterSyncEvent),
}

/// One direct neighbour: its connection, its node, and the locally
/// measured metric to it.
pub struct NeighbourEntry {
    pub conn: ConnId,
    pub node: NodeId,
    pub metric: Metric,
}

/// The wire form of one layer's advertisement for `node`: the layer
/// byte, then the encoded table sync; none when the layer is out of the
/// neighbour's scope or the sync has no wire form.
pub open spec fn spec_layer_advert(r: RouterV, node: NodeId, layer: int) -> Option<Seq<u8>> {
    if spec_eq_util_layer(r.node, node) <= layer + 1 {
        match spec_encode_sync(spec_sync_entries(r.tables[layer], node, 0)) {
            Some(body) => Some(seq![layer as u8] + body),
            None => None,
        }
    } else {
        None
    }
}

/// One neighbour's advertisements, layer by layer from `layer` up.
pub open spec fn spec_adverts_layers(r: RouterV, conn: ConnId, node: NodeId, layer: int) -> Seq<
    (ConnId, Seq<u8>),
>
    decreases 4 - layer,
{
    if layer < 0 || layer >= 4 {
        Seq::empty()
    } else {
        (match spec_layer_advert(r, node, layer) {
            Some(b) => seq![(conn, b)],
            None => Seq::<(ConnId, Seq<u8>)>::empty(),
        }) + spec_adverts_layers(r, conn, node, layer + 1)
    }
}

/// One advertisement round: every neighbour from `i` on, every layer in
/// its scope.
pub open spec fn spec_adverts(r: RouterV, ns: Seq<NeighbourEntry>, i: int) -> Seq<
    (ConnId, Seq<u8>),
>
    decreases ns.len() - i,
{
    if i < 0 || i >= ns.len() {
        Seq::empty()
    } else {
        spec_adverts_layers(r, ns[i].conn, ns[i].node, 0) + spec_adverts(r, ns, i + 1)
    }
}

/// Whether `delta` is exactly the advertisement packets of `expected`:
/// one `SendDirect` per pair, in order, carrying those bytes.
pub open spec fn spec_matches_adverts(
    delta: Seq<RouterSyncOutput>,
    expected: Seq<(ConnId, Seq<u8>)>,
) -> bool {
    &&& delta.len() == expected.len()
    &&& forall|k: int| 0 <= k < delta.len() ==> match #[trigger] delta[k] {
        RouterSyncOutput::SendDirect(c, b) => c == expected[k].0 && b@ == expected[k].1,
        _ => false,
    }
}

/// The first neighbour entry of `conn`, by index.
pub open spec fn spec_find_entry(ns: Seq<NeighbourEntry>, conn: ConnId) -> Option<int>
    decreases ns.len(),
{
    if ns.len() == 0 {
        None
    } else if ns[0].conn == conn {
        Some(0)
    } else {
        match spec_find_entry(ns.skip(1), conn) {
            Some(i) => Some(i + 1),
            None => None,
        }
    }
}

/// Searching past a prefix without a match shifts the found index by the
/// prefix's length.
proof fn lemma_find_entry_skip(ns: Seq<NeighbourEntry>, conn: ConnId, p: int)
    requires
        0 <= p <= ns.len(),
        forall|j: int| 0 <= j < p ==> (#[trigger] ns[j]).conn != conn,
    ensures
        spec_find_entry(ns, conn) == match spec_find_entry(ns.skip(p), conn) {
            Some(i) => Some(i + p),
            None => None::<int>,
        },
    decreases p,
{
    if p > 0 {
        lemma_find_entry_skip(ns.skip(1), conn, p - 1);
        assert(ns.skip(1).skip(p - 1) =~= ns.skip(p));
        assert forall|j: int| 0 <= j < p - 1 implies (#[trigger] ns.skip(1)[j]).conn != conn by {
            assert(ns.skip(1)[j] == ns[j + 1]);
        }
    } else {
        assert(ns.skip(0) =~= ns);
    }
}

/// The router-sync feature's controller half.
pub struct RouterSyncFeature {
    router: Router,
    neighbours: Vec<NeighbourEntry>,
    queue: VecDeque<RouterSyncOutput>,
    last_sync: u64,
}

impl RouterSyncFeature {
    /// The authoritative routing state.
    pub closed spec fn router_view(&self) -> RouterV {
        self.router@
    }

    /// The neighbours advertised to.
    pub closed spec fn neighbours_view(&self) -> Seq<NeighbourEntry> {
        self.neighbours@
    }

    /// The pending outputs.
    pub closed spec fn queue_view(&self) -> Seq<RouterSyncOutput> {
        self.queue@
    }

    /// When the last advertisement round ran.
    pub closed spec fn last_sync_val(&self) -> u64 {
        self.last_sync
    }

    /// Internal invariant: a well-formed router and one entry per
    /// neighbour connection, each with a well-formed metric.
    pub closed spec fn wf(&self) -> bool {
        &&& self.router.wf()
        &&& Router::view_wf(self.router@)
        &&& (forall|i: int, j: int| 0 <= i < j < self.neighbours@.len()
            ==> self.neighbours@[i].conn != self.neighbours@[j].conn)
        &&& (forall|i: int| 0 <= i < self.neighbours@.len() ==> (#[trigger] self.neighbours@[
            i
        ].metric)@.hops.len() > 0 && self.neighbours@[i].metric@.hops[0]
            == self.neighbours@[i].node)
    }

    /// A feature for `node_id` that provides each listed service.
    pub fn new(node_id: NodeId, services: &Vec<u8>) -> (r: RouterSyncFeature)
        ensures
            r.wf(),
            r.router_view().node == node_id,
    {
        let mut router = Router::new(node_id);
        let mut i: usize = 0;
        while i < services.len()
            invariant
                i <= services@.len(),
                router.wf(),
                router@.node == node_id,
                Router::view_wf(router@),
            decreases services.len() - i,
        {
            router.register_service_provider(services[i], node_id);
            i += 1;
        }
        RouterSyncFeature { router, neighbours: Vec::new(), queue: VecDeque::new(), last_sync: 0 }
    }

    /// Looks a neighbour up by connection.
    fn find_neighbour(&self, conn: ConnId) -> (r: Option<usize>)
        ensures
            match r {
                Some(i) => i < self.neighbours@.len() && self.neighbours@[i as int].conn == conn
                    && spec_find_entry(self.neighbours_view(), conn) == Some(i as int),
                None => spec_find_entry(self.neighbours_view(), conn) is None && forall|j: int|
                    0 <= j < self.neighbours@.len() ==> (#[trigger] self.neighbours@[j]).conn
                        != conn,
            },
    {
        let mut i: usize = 0;
        while i < self.neighbours.len()
            invariant
                i <= self.neighbours@.len(),
                forall|j: int| 0 <= j < i ==> (#[trigger] self.neighbours@[j]).conn != conn,
            decreases self.neighbours.len() - i,
        {
            if self.neighbours[i].conn == conn {
                proof {
                    lemma_find_entry_skip(self.neighbours@, conn, i as int);
                    assert(self.neighbours@.skip(i as int)[0] == self.neighbours@[i as int]);
                }
                return Some(i);
            }
            i += 1;
        }
        proof {
            lemma_find_entry_skip(self.neighbours@, conn, self.neighbours@.len() as int);
            assert(self.neighbours@.skip(self.neighbours@.len() as int) =~= Seq::<
                NeighbourEntry,
            >::empty());
        }
        None
    }

    /// A neighbour came up: its direct route enters every layer table
    /// exactly as `Router::add_direct` states, the matching shadow delta
    /// is queued for the workers, and the neighbour's entry is recorded
    /// (replacing the connection's old entry, if any) so the next round
    /// advertises to it.
    /// The whole effect of a neighbour coming up, stated over the
    /// metric's value: the direct route enters every layer table, the
    /// shadow delta is queued, and the neighbour's entry is recorded.
    pub open spec fn spec_connected_effect(pre: Self, post: Self, conn: ConnId, node: NodeId, m: crate::metric::MetricV) -> bool {
        &&& post.router_view().node == pre.router_view().node
        &&& post.router_view().registry == pre.router_view().registry
        &&& (forall|i: int| 0 <= i < 4 ==> (#[trigger] post.router_view().tables[i]).dests
            == pre.router_view().tables[i].dests.update(
            crate::addr::spec_node_layer(node, i as u8) as int,
            crate::dest::spec_set_path(
                pre.router_view().tables[i].dests[crate::addr::spec_node_layer(node, i as u8) as int],
                (crate::dest::PathV { conn, next: node, metric: m }),
            ),
        ))
        &&& post.queue_view().len() == pre.queue_view().len() + 1
        &&& pre.queue_view().is_prefix_of(post.queue_view())
        &&& (match post.queue_view().last() {
            RouterSyncOutput::ToWorkers(FeaturesToWorker::ShadowAddDirect(c, n, mm)) => c == conn
                && n == node && mm@ == m,
            _ => false,
        })
        &&& post.last_sync_val() == pre.last_sync_val()
        &&& (match spec_find_entry(pre.neighbours_view(), conn) {
            Some(i) => post.neighbours_view().len() == pre.neighbours_view().len()
                && (forall|j: int| 0 <= j < pre.neighbours_view().len() && j != i
                ==> post.neighbours_view()[j] == (#[trigger] pre.neighbours_view()[j]))
                && post.neighbours_view()[i].conn == conn && post.neighbours_view()[i].node == node
                && post.neighbours_view()[i].metric@ == m,
            None => post.neighbours_view().len() == pre.neighbours_view().len() + 1 && (forall|
                j: int,
            | 0 <= j < pre.neighbours_view().len() ==> post.neighbours_view()[j] == (
            #[trigger] pre.neighbours_view()[j])) && post.neighbours_view().last().conn == conn
                && post.neighbours_view().last().node == node
                && post.neighbours_view().last().metric@ == m,
        })
    }

    /// The whole effect of a neighbour going away: its connection leaves
    /// every layer table, the shadow delta is queued, its entry leaves.
    pub open spec fn spec_disconnected_effect(pre: Self, post: Self, conn: ConnId) -> bool {
        &&& post.router_view().node == pre.router_view().node
        &&& post.router_view().registry == pre.router_view().registry
        &&& (forall|i: int| 0 <= i < 4 ==> (#[trigger] post.router_view().tables[i]).dests
            == Seq::new(
            256,
            |s: int| crate::dest::spec_del_path(pre.router_view().tables[i].dests[s], conn),
        ))
        &&& post.queue_view() == pre.queue_view().push(
            RouterSyncOutput::ToWorkers(FeaturesToWorker::ShadowDelDirect(conn)),
        )
        &&& post.last_sync_val() == pre.last_sync_val()
        &&& post.neighbours_view() == (match spec_find_entry(pre.neighbours_view(), conn) {
            Some(i) => pre.neighbours_view().remove(i),
            None => pre.neighbours_view(),
        })
    }

    pub fn on_conn_connected(&mut self, conn: ConnId, node: NodeId, metric: Metric)
        requires
            old(self).wf(),
            metric@.hops.len() > 0,
            metric@.hops[0] == node,
        ensures
            final(self).wf(),
            Self::spec_connected_effect(*old(self), *final(self), conn, node, metric@),
            final(self).router_view().node == old(self).router_view().node,
            final(self).router_view().registry == old(self).router_view().registry,
            forall|i: int| 0 <= i < 4 ==> (#[trigger] final(self).router_view().tables[i]).dests
                == old(self).router_view().tables[i].dests.update(
                crate::addr::spec_node_layer(node, i as u8) as int,
                crate::dest::spec_set_path(
                    old(self).router_view().tables[i].dests[crate::addr::spec_node_layer(
                        node,
                        i as u8,
                    ) as int],
                    (crate::dest::PathV { conn, next: node, metric: metric@ }),
                ),
            ),
            final(self).queue_view() == old(self).queue_view().push(
                RouterSyncOutput::ToWorkers(FeaturesToWorker::ShadowAddDirect(conn, node, metric)),
            ),
            final(self).last_sync_val() == old(self).last_sync_val(),
            final(self).neighbours_view().len() == (match spec_find_entry(
                old(self).neighbours_view(),
                conn,
            ) {
                Some(_) => old(self).neighbours_view().len() as int,
                None => (old(self).neighbours_view().len() + 1) as int,
            }),
            (match spec_find_entry(old(self).neighbours_view(), conn) {
                Some(i) => {
                    &&& (forall|j: int| 0 <= j < old(self).neighbours_view().len() && j != i
                        ==> final(self).neighbours_view()[j] == (#[trigger] old(self).neighbours_view()[j]))
                    &&& final(self).neighbours_view()[i].conn == conn
                    &&& final(self).neighbours_view()[i].node == node
                    &&& final(self).neighbours_view()[i].metric@ == metric@
                },
                None => {
                    &&& (forall|j: int| 0 <= j < old(self).neighbours_view().len()
                        ==> final(self).neighbours_view()[j] == (#[trigger] old(self).neighbours_view()[j]))
                    &&& final(self).neighbours_view().last().conn == conn
                    &&& final(self).neighbours_view().last().node == node
                    &&& final(self).neighbours_view().last().metric@ == metric@
                },
            }),
    {
        let ghost pre = self.neighbours@;
        match self.find_neighbour(conn) {
            Some(i) => {
                let entry = neighbour_at_mut(&mut self.neighbours, i);
                entry.node = node;
                entry.metric = metric.clone();
                proof {
                    assert forall|a: int, b: int| 0 <= a < b < self.neighbours@.len() implies self
                        .neighbours@[a].conn != self.neighbours@[b].conn by {
                        assert(pre[a].conn != pre[b].conn);
                    }
                }
            },
            None => {
                self.neighbours.push(
                    NeighbourEntry { conn, node, metric: metric.clone() },
                );
                proof {
                    assert forall|a: int, b: int| 0 <= a < b < self.neighbours@.len() implies self
                        .neighbours@[a].conn != self.neighbours@[b].conn by {
                        if b < pre.len() {
                            assert(pre[a].conn != pre[b].conn);
                        } else {
                            assert(self.neighbours@[b].conn == conn);
                            assert(pre[a].conn != conn);
                        }
                    }
                }
            },
        }
        self.router.add_direct(conn, node, metric.clone());
        self.queue.push_back(
            RouterSyncOutput::ToWorkers(FeaturesToWorker::ShadowAddDirect(conn, node, metric)),
        );
    }

    /// A neighbour went away: its connection leaves every layer table
    /// exactly as `Router::del_direct` states, the matching shadow delta
    /// is queued, and its entry leaves the advertisement list.
    pub fn on_conn_disconnected(&mut self, conn: ConnId)
        requires
            old(self).wf(),
        ensures
            final(self).wf(),
            Self::spec_disconnected_effect(*old(self), *final(self), conn),
            final(self).router_view().node == old(self).router_view().node,
            final(self).router_view().registry == old(self).router_view().registry,
            forall|i: int| 0 <= i < 4 ==> (#[trigger] final(self).router_view().tables[i]).dests
                == Seq::new(
                256,
                |s: int| crate::dest::spec_del_path(
                    old(self).router_view().tables[i].dests[s],
                    conn,
                ),
            ),
            final(self).queue_view() == old(self).queue_view().push(
                RouterSyncOutput::ToWorkers(FeaturesToWorker::ShadowDelDirect(conn)),
            ),
            final(self).last_sync_val() == old(self).last_sync_val(),
            final(self).neighbours_view() == (match spec_find_entry(
                old(self).neighbours_view(),
                conn,
            ) {
                Some(i) => old(self).neighbours_view().remove(i),
                None => old(self).neighbours_view(),
            }),
    {
        let ghost pre = self.neighbours@;
        match self.find_neighbour(conn) {
            Some(i) => {
                self.neighbours.remove(i);
                proof {
                    assert forall|a: int, b: int| 0 <= a < b < self.neighbours@.len() implies self
                        .neighbours@[a].conn != self.neighbours@[b].conn by {
                        let a0: int = if a < i {
                            a
                        } else {
                            a + 1
                        };
                        let b0: int = if b < i {
                            b
                        } else {
                            b + 1
                        };
                        assert(self.neighbours@[a] == pre[a0]);
                        assert(self.neighbours@[b] == pre[b0]);
                        assert(pre[a0].conn != pre[b0].conn);
                    }
                    assert forall|a: int| 0 <= a < self.neighbours@.len() implies (
                    #[trigger] self.neighbours@[a].metric)@.hops.len() > 0 && self.neighbours@[
                        a
                    ].metric@.hops[0] == self.neighbours@[a].node by {
                        let a0: int = if a < i {
                            a
                        } else {
                            a + 1
                        };
                        assert(self.neighbours@[a] == pre[a0]);
                        assert(pre[a0].metric@.hops.len() > 0);
                    }
                }
            },
            None => {},
        }
        self.router.del_direct(conn);
        self.queue.push_back(
            RouterSyncOutput::ToWorkers(FeaturesToWorker::ShadowDelDirect(conn)),
        );
    }

    /// Queues one advertisement round: for every neighbour, in order, and
    /// every layer in its scope, exactly one packet holding the layer
    /// byte and the encoded sync built for that neighbour.
    #[verifier::loop_isolation(false)]
    pub fn send_syncs(&mut self)
        requires
            old(self).wf(),
        ensures
            final(self).wf(),
            final(self).router_view() == old(self).router_view(),
            final(self).neighbours_view() == old(self).neighbours_view(),
            final(self).last_sync_val() == old(self).last_sync_val(),
            old(self).queue_view().is_prefix_of(final(self).queue_view()),
            spec_matches_adverts(
                final(self).queue_view().skip(old(self).queue_view().len() as int),
                spec_adverts(old(self).router_view(), old(self).neighbours_view(), 0),
            ),
    {
        let ghost r = self.router@;
        let ghost ns = self.neighbours@;
        let ghost q0 = self.queue@;
        let ghost all = spec_adverts(r, ns, 0);
        let ghost mut done: Seq<(ConnId, Seq<u8>)> = Seq::empty();
        proof {
            assert(done + spec_adverts(r, ns, 0) =~= all);
            assert(self.queue@.skip(q0.len() as int) =~= Seq::<RouterSyncOutput>::empty());
        }
        let mut i: usize = 0;
        while i < self.neighbours.len()
            invariant
                self.wf(),
                self.router@ == r,
                self.neighbours@ == ns,
                self.last_sync == old(self).last_sync_val(),
                i <= ns.len(),
                q0.is_prefix_of(self.queue@),
                done + spec_adverts(r, ns, i as int) == all,
                spec_matches_adverts(self.queue@.skip(q0.len() as int), done),
            decreases self.neighbours.len() - i,
        {
            let conn = self.neighbours[i].conn;
            let node = self.neighbours[i].node;
            let mut layer: u8 = 0;
            proof {
                assert(done + (spec_adverts_layers(r, conn, node, 0) + spec_adverts(
                    r,
                    ns,
                    i as int + 1,
                )) =~= all);
            }
            while layer < 4
                invariant
                    self.wf(),
                    self.router@ == r,
                    self.neighbours@ == ns,
                    self.last_sync == old(self).last_sync_val(),
                    i < ns.len(),
                    conn == ns[i as int].conn,
                    node == ns[i as int].node,
                    layer <= 4,
                    q0.is_prefix_of(self.queue@),
                    done + (spec_adverts_layers(r, conn, node, layer as int) + spec_adverts(
                        r,
                        ns,
                        i as int + 1,
                    )) == all,
                    spec_matches_adverts(self.queue@.skip(q0.len() as int), done),
                decreases 4 - layer,
            {
                match self.router.sync_for(layer, node) {
                    Some(sync) => {
                        match encode_table_sync(&sync) {
                            Some(body) => {
                                let mut buf: Vec<u8> = Vec::new();
                                buf.push(layer);
                                proof {
                                    assert(buf@ =~= seq![layer]);
                                }
                                append_bytes(&mut buf, &body);
                                proof {
                                    assert(spec_layer_advert(r, node, layer as int) == Some(buf@));
                                }
                                let ghost pre_q = self.queue@;
                                self.queue.push_back(RouterSyncOutput::SendDirect(conn, buf));
                                proof {
                                    let adv = spec_layer_advert(r, node, layer as int).unwrap();
                                    assert(done.push((conn, adv)) + (spec_adverts_layers(
                                        r,
                                        conn,
                                        node,
                                        layer as int + 1,
                                    ) + spec_adverts(r, ns, i as int + 1)) =~= done + ((seq![
                                        (conn, adv),
                                    ] + spec_adverts_layers(r, conn, node, layer as int + 1))
                                        + spec_adverts(r, ns, i as int + 1)));
                                    let pre_done = done;
                                    done = done.push((conn, adv));
                                    assert forall|k: int| 0 <= k < done.len() implies match (
                                    #[trigger] self.queue@.skip(q0.len() as int)[k]) {
                                        RouterSyncOutput::SendDirect(c, b) => c == done[k].0 && b@
                                            == done[k].1,
                                        _ => false,
                                    } by {
                                        if k < done.len() - 1 {
                                            assert(self.queue@.skip(q0.len() as int)[k] == pre_q
                                                .skip(q0.len() as int)[k]);
                                            assert(done[k] == pre_done[k]);
                                        } else {
                                            assert(self.queue@.skip(q0.len() as int)[k] == self
                                                .queue@.last());
                                        }
                                    }
                                    assert(self.queue@.skip(q0.len() as int).len() == done.len());
                                    assert(q0.is_prefix_of(self.queue@));
                                }
                            },
                            None => {
                                proof {
                                    assert(spec_layer_advert(r, node, layer as int) is None);
                                    assert(done + ((Seq::<(ConnId, Seq<u8>)>::empty()
                                        + spec_adverts_layers(r, conn, node, layer as int + 1))
                                        + spec_adverts(r, ns, i as int + 1)) =~= done + (
                                    spec_adverts_layers(r, conn, node, layer as int + 1)
                                        + spec_adverts(r, ns, i as int + 1)));
                                }
                            },
                        }
                    },
                    None => {
                        proof {
                            assert(spec_layer_advert(r, node, layer as int) is None);
                            assert(done + ((Seq::<(ConnId, Seq<u8>)>::empty()
                                + spec_adverts_layers(r, conn, node, layer as int + 1))
                                + spec_adverts(r, ns, i as int + 1)) =~= done + (
                            spec_adverts_layers(r, conn, node, layer as int + 1) + spec_adverts(
                                r,
                                ns,
                                i as int + 1,
                            )));
                        }
                    },
                }
                layer += 1;
            }
            i += 1;
            proof {
                assert(spec_adverts_layers(r, conn, node, 4) =~= Seq::<(ConnId, Seq<u8>)>::empty());
                assert(done + (Seq::<(ConnId, Seq<u8>)>::empty() + spec_adverts(r, ns, i as int))
                    =~= done + spec_adverts(r, ns, i as int));
            }
        }
        proof {
            assert(spec_adverts(r, ns, ns.len() as int) =~= Seq::<(ConnId, Seq<u8>)>::empty());
            assert(done + Seq::<(ConnId, Seq<u8>)>::empty() =~= done);
            assert(done == all);
        }
    }

    /// Whether `now` is due for an advertisement round.
    pub open spec fn spec_sync_due(&self, now: u64) -> bool {
        now >= self.last_sync_val() && now - self.last_sync_val() >= SYNC_INTERVAL_MS
    }

    /// The cadence: when the interval has passed, the round stamp moves to
    /// `now` and one advertisement round is queued; otherwise nothing
    /// happens.
    pub fn on_tick(&mut self, now_ms: u64)
        requires
            old(self).wf(),
        ensures
            final(self).wf(),
            final(self).router_view() == old(self).router_view(),
            final(self).neighbours_view() == old(self).neighbours_view(),
            if old(self).spec_sync_due(now_ms) {
                &&& final(self).last_sync_val() == now_ms
                &&& old(self).queue_view().is_prefix_of(final(self).queue_view())
                &&& spec_matches_adverts(
                    final(self).queue_view().skip(old(self).queue_view().len() as int),
                    spec_adverts(old(self).router_view(), old(self).neighbours_view(), 0),
                )
            } else {
                *final(self) == *old(self)
            },
    {
        if now_ms >= self.last_sync && now_ms - self.last_sync >= SYNC_INTERVAL_MS {
            self.last_sync = now_ms;
            self.send_syncs();
        }
    }

    /// An advertisement round right now.
    pub fn on_trigger_sync(&mut self)
        requires
            old(self).wf(),
        ensures
            final(self).wf(),
            final(self).router_view() == old(self).router_view(),
            final(self).neighbours_view() == old(self).neighbours_view(),
            final(self).last_sync_val() == old(self).last_sync_val(),
            old(self).queue_view().is_prefix_of(final(self).queue_view()),
            spec_matches_adverts(
                final(self).queue_view().skip(old(self).queue_view().len() as int),
                spec_adverts(old(self).router_view(), old(self).neighbours_view(), 0),
            ),
    {
        self.send_syncs();
    }

    /// A neighbour's advertisement arrived: when the packet parses, the
    /// connection is a known neighbour and the layer is in range, the
    /// named layer table becomes exactly `spec_apply_sync` of the old
    /// one, the matching shadow delta and an event are queued; otherwise
    /// nothing changes.
    /// The whole effect of one received advertisement: an unparsable or
    /// out-of-range packet, or one from an unknown connection, changes
    /// nothing; otherwise the named layer table is merged exactly as
    /// `spec_apply_sync` states and the shadow delta and event are queued.
    pub open spec fn spec_remote_effect(pre: Self, post: Self, conn: ConnId, bytes: Seq<u8>) -> bool {
        let ns = pre.neighbours_view();
        let q0 = pre.queue_view();
        &&& post.router_view().node == pre.router_view().node
        &&& post.router_view().registry == pre.router_view().registry
        &&& post.neighbours_view() == pre.neighbours_view()
        &&& post.last_sync_val() == pre.last_sync_val()
        &&& if bytes.len() < 1 || bytes[0] >= 4 {
            post == pre
        } else {
            match spec_find_entry(ns, conn) {
                None => post == pre,
                Some(i) => match spec_decode_sync(bytes.skip(1)) {
                    None => post == pre,
                    Some((entries, _used)) => {
                        let layer = bytes[0];
                        &&& post.router_view().tables == pre.router_view().tables.update(
                            layer as int,
                            spec_apply_sync(
                                pre.router_view().tables[layer as int],
                                conn,
                                ns[i].node,
                                ns[i].metric@,
                                entries,
                            ),
                        )
                        &&& post.queue_view().len() == q0.len() + 2
                        &&& q0.is_prefix_of(post.queue_view())
                        &&& (match post.queue_view()[q0.len() as int] {
                            RouterSyncOutput::ToWorkers(
                                FeaturesToWorker::ShadowApplySync(l, c, n, m, s),
                            ) => l == layer && c == conn && n == ns[i].node && m@ == ns[i].metric@
                                && s@ == entries,
                            _ => false,
                        })
                        &&& post.queue_view().last() == RouterSyncOutput::Event(
                            RouterSyncEvent::Applied(ns[i].node, layer),
                        )
                    },
                },
            }
        }
    }

    pub fn on_remote(&mut self, conn: ConnId, buf: &Vec<u8>)
        requires
            old(self).wf(),
        ensures
            final(self).wf(),
            Self::spec_remote_effect(*old(self), *final(self), conn, buf@),
    {
        if buf.len() < 1 {
            return;
        }
        let layer = buf[0];
        if layer >= 4 {
            return;
        }
        let i = match self.find_neighbour(conn) {
            Some(i) => i,
            None => {
                return;
            },
        };
        let mut body: Vec<u8> = Vec::new();
        let mut k: usize = 1;
        while k < buf.len()
            invariant
                1 <= k <= buf@.len(),
                body@ == buf@.subrange(1, k as int),
            decreases buf.len() - k,
        {
            body.push(buf[k]);
            k += 1;
            proof {
                assert(body@ =~= buf@.subrange(1, k as int));
            }
        }
        let (sync, _used) = match decode_table_sync(&body) {
            Some(r) => r,
            None => {
                return;
            },
        };
        let node = self.neighbours[i].node;
        let metric = self.neighbours[i].metric.clone();
        let ghost pre_router = self.router@;
        self.router.apply_sync(layer, conn, node, metric.clone(), &sync);
        proof {
            assert(self.router@.tables == pre_router.tables.update(
                layer as int,
                spec_apply_sync(pre_router.tables[layer as int], conn, node, metric@, sync@),
            ));
        }
        self.queue.push_back(
            RouterSyncOutput::ToWorkers(
                FeaturesToWorker::ShadowApplySync(layer, conn, node, metric, sync),
            ),
        );
        self.queue.push_back(
            RouterSyncOutput::Event(RouterSyncEvent::Applied(node, layer)),
        );
    }

    /// The preferred next hop towards `dest`, from the authoritative
    /// router.
    pub fn next(&self, dest: NodeId, excepts: &Vec<NodeId>) -> (r: Option<(ConnId, NodeId)>)
        requires
            self.wf(),
        ensures
            match r {
                Some(pair) => {
                    &&& crate::router::spec_route_lookup(
                        self.router_view().tables,
                        self.router_view().node,
                        dest,
                        excepts@,
                    ) matches Some(p)
                    &&& pair.0 == p.conn
                    &&& pair.1 == p.next
                },
                None => crate::router::spec_route_lookup(
                    self.router_view().tables,
                    self.router_view().node,
                    dest,
                    excepts@,
                ) is None,
            },
    {
        self.router.next(dest, excepts)
    }

    /// The oldest queued output, if any.
    pub fn pop_output(&mut self) -> (r: Option<RouterSyncOutput>)
        requires
            old(self).wf(),
        ensures
            final(self).wf(),
            final(self).router_view() == old(self).router_view(),
            final(self).neighbours_view() == old(self).neighbours_view(),
            final(self).last_sync_val() == old(self).last_sync_val(),
            match r {
                Some(out) => old(self).queue_view().len() > 0 && out == old(self).queue_view()[0]
                    && final(self).queue_view() == old(self).queue_view().skip(1),
                None => old(self).queue_view().len() == 0 && final(self).queue_view() == old(
                    self,
                ).queue_view(),
            },
    {
        let r = self.queue.pop_front();
        proof {
            if old(self).queue_view().len() > 0 {
                assert(final(self).queue_view() =~= old(self).queue_view().skip(1));
            }
        }
        r
    }
}

/// A mutable borrow of neighbour `i`.
fn neighbour_at_mut(v: &mut Vec<NeighbourEntry>, i: usize) -> (element: &mut NeighbourEntry)
    requires
        i < old(v).len(),
    ensures
        *element == old(v)@[i as int],
        final(v)@ == old(v)@.update(i as int, *final(element)),
{
    &mut v[i]
}

} // verus!
