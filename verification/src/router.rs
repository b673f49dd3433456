//! The packet router: four stacked layer tables, a service-provider
//! registry, and `derive_action`, which turns a route rule into what the
//! data plane does with a packet.

use vstd::prelude::*;

use crate::addr::{eq_util_layer, node_layer, spec_eq_util_layer, spec_node_layer, ConnId, NodeId};
use crate::dest::{spec_next, PathV};
use crate::metric::Metric;
use crate::table::{spec_sync_entries, Table, TableSync, TableV};

verus! {

/// Where a packet is told to go.
#[derive(Debug)]
pub enum RouteRule {
    /// To the node behind the connection it arrives on.
    Direct,
    /// To one node.
    ToNode(NodeId),
    /// To whoever is closest to a key.
    ToKey(NodeId),
    /// To a provider of a service.
    ToService(u8),
    /// To every node of a set.
    ToNodes(Vec<NodeId>),
    /// To everyone, carrying a sequence number for duplicate suppression.
    Broadcast(u16),
}

/// Mathematical value of a route rule.
#[verifier::ext_equal]
pub enum RouteRuleV {
    Direct,
    ToNode(NodeId),
    ToKey(NodeId),
    ToService(u8),
    ToNodes(Seq<NodeId>),
    Broadcast(u16),
}

impl View for RouteRule {
    type V = RouteRuleV;

    open spec fn view(&self) -> RouteRuleV {
        match self {
            RouteRule::Direct => RouteRuleV::Direct,
            RouteRule::ToNode(n) => RouteRuleV::ToNode(*n),
            RouteRule::ToKey(k) => RouteRuleV::ToKey(*k),
            RouteRule::ToService(s) => RouteRuleV::ToService(*s),
            RouteRule::ToNodes(ns) => RouteRuleV::ToNodes(ns@),
            RouteRule::Broadcast(q) => RouteRuleV::Broadcast(*q),
        }
    }
}

/// What the data plane does with a packet.
#[derive(Debug)]
pub enum RouteAction {
    /// Drop it.
    Reject,
    /// Deliver it to this node's features.
    Local,
    /// Forward it over one connection.
    Next(ConnId, NodeId),
    /// Deliver locally when `local`, and forward over every connection
    /// in `remotes`.
    Broadcast { local: bool, remotes: Vec<(ConnId, NodeId)> },
}

impl Clone for RouteRule {
    /// An equal rule.
    fn clone(&self) -> (r: Self)
        ensures
            spec_rule_eq(&r, self),
    {
        match self {
            RouteRule::Direct => RouteRule::Direct,
            RouteRule::ToNode(n) => RouteRule::ToNode(*n),
            RouteRule::ToKey(k) => RouteRule::ToKey(*k),
            RouteRule::ToService(s) => RouteRule::ToService(*s),
            RouteRule::ToNodes(ns) => RouteRule::ToNodes(crate::metric::clone_hops(ns)),
            RouteRule::Broadcast(seq_no) => RouteRule::Broadcast(*seq_no),
        }
    }
}

/// Equality of two route rules: same variant, same payload.
pub open spec fn spec_rule_eq(a: &RouteRule, b: &RouteRule) -> bool {
    match (a, b) {
        (RouteRule::Direct, RouteRule::Direct) => true,
        (RouteRule::ToNode(x), RouteRule::ToNode(y)) => x == y,
        (RouteRule::ToKey(x), RouteRule::ToKey(y)) => x == y,
        (RouteRule::ToService(x), RouteRule::ToService(y)) => x == y,
        (RouteRule::ToNodes(x), RouteRule::ToNodes(y)) => x@ == y@,
        (RouteRule::Broadcast(x), RouteRule::Broadcast(y)) => x == y,
        _ => false,
    }
}

impl PartialEq for RouteRule {
    fn eq(&self, other: &Self) -> (r: bool) {
        match (self, other) {
            (RouteRule::Direct, RouteRule::Direct) => true,
            (RouteRule::ToNode(x), RouteRule::ToNode(y)) => x == y,
            (RouteRule::ToKey(x), RouteRule::ToKey(y)) => x == y,
            (RouteRule::ToService(x), RouteRule::ToService(y)) => x == y,
            (RouteRule::ToNodes(x), RouteRule::ToNodes(y)) => crate::metric::hops_equal(x, y),
            (RouteRule::Broadcast(x), RouteRule::Broadcast(y)) => x == y,
            _ => false,
        }
    }
}

impl vstd::std_specs::cmp::PartialEqSpecImpl for RouteRule {
    open spec fn obeys_eq_spec() -> bool {
        true
    }

    open spec fn eq_spec(&self, other: &RouteRule) -> bool {
        spec_rule_eq(self, other)
    }
}

impl Eq for RouteRule {

}

/// Equality of two route actions: same variant, same payload.
pub open spec fn spec_action_eq(a: &RouteAction, b: &RouteAction) -> bool {
    match (a, b) {
        (RouteAction::Reject, RouteAction::Reject) => true,
        (RouteAction::Local, RouteAction::Local) => true,
        (RouteAction::Next(c1, n1), RouteAction::Next(c2, n2)) => c1 == c2 && n1 == n2,
        (
            RouteAction::Broadcast { local: l1, remotes: r1 },
            RouteAction::Broadcast { local: l2, remotes: r2 },
        ) => l1 == l2 && r1@ == r2@,
        _ => false,
    }
}

/// True when two next-hop lists are equal element for element.
pub fn hop_pairs_equal(a: &Vec<(ConnId, NodeId)>, b: &Vec<(ConnId, NodeId)>) -> (r: bool)
    ensures
        r == (a@ == b@),
{
    if a.len() != b.len() {
        proof {
            assert(a@ != b@);
        }
        return false;
    }
    let mut i: usize = 0;
    while i < a.len()
        invariant
            i <= a.len(),
            a.len() == b.len(),
            forall|j: int| 0 <= j < i ==> a@[j] == b@[j],
        decreases a.len() - i,
    {
        if a[i].0 != b[i].0 || a[i].1 != b[i].1 {
            proof {
                assert(a@[i as int] != b@[i as int]);
            }
            return false;
        }
        i += 1;
    }
    proof {
        assert(a@ =~= b@);
    }
    true
}

impl PartialEq for RouteAction {
    fn eq(&self, other: &Self) -> (r: bool) {
        match (self, other) {
            (RouteAction::Reject, RouteAction::Reject) => true,
            (RouteAction::Local, RouteAction::Local) => true,
            (RouteAction::Next(c1, n1), RouteAction::Next(c2, n2)) => c1 == c2 && n1 == n2,
            (
                RouteAction::Broadcast { local: l1, remotes: r1 },
                RouteAction::Broadcast { local: l2, remotes: r2 },
            ) => *l1 == *l2 && hop_pairs_equal(r1, r2),
            _ => false,
        }
    }
}

impl vstd::std_specs::cmp::PartialEqSpecImpl for RouteAction {
    open spec fn obeys_eq_spec() -> bool {
        true
    }

    open spec fn eq_spec(&self, other: &RouteAction) -> bool {
        spec_action_eq(self, other)
    }
}

impl Eq for RouteAction {

}

/// The exclusion list a lookup uses: the relay the packet came from, if
/// any.
pub open spec fn spec_excepts(relay_from: Option<NodeId>) -> Seq<NodeId> {
    match relay_from {
        Some(n) => seq![n],
        None => Seq::empty(),
    }
}

/// The layer a destination is decided at: one below the highest layer
/// where it differs from this node.
pub open spec fn spec_lookup_layer(me: NodeId, dest: NodeId) -> int {
    if spec_eq_util_layer(me, dest) == 0 {
        0
    } else {
        spec_eq_util_layer(me, dest) - 1
    }
}

/// The table lookup a `ToNode` rule makes.
pub open spec fn spec_route_lookup(
    tables: Seq<TableV>,
    me: NodeId,
    dest: NodeId,
    excepts: Seq<NodeId>,
) -> Option<PathV> {
    let layer = spec_lookup_layer(me, dest);
    spec_next(tables[layer].dests[spec_node_layer(dest, layer as u8) as int], excepts)
}

/// Appends a next hop unless it is already listed.
pub open spec fn spec_push_unique(acc: Seq<(ConnId, NodeId)>, x: (ConnId, NodeId)) -> Seq<
    (ConnId, NodeId),
> {
    if acc.contains(x) {
        acc
    } else {
        acc.push(x)
    }
}

/// The deduplicated next hops towards the first `k` nodes of `nodes`,
/// skipping this node itself and nodes with no route.
pub open spec fn spec_tonodes_remotes(
    tables: Seq<TableV>,
    me: NodeId,
    excepts: Seq<NodeId>,
    nodes: Seq<NodeId>,
    k: int,
) -> Seq<(ConnId, NodeId)>
    decreases k,
{
    if k <= 0 {
        Seq::empty()
    } else {
        let acc = spec_tonodes_remotes(tables, me, excepts, nodes, k - 1);
        let n = nodes[k - 1];
        if n == me {
            acc
        } else {
            match spec_route_lookup(tables, me, n, excepts) {
                Some(p) => spec_push_unique(acc, (p.conn, p.next)),
                None => acc,
            }
        }
    }
}

/// The deduplicated next hops of a flood: one per populated non-self
/// slot of every layer, walked layer by layer then slot by slot, over the
/// first `k` of the 1024 layer-slot pairs.
pub open spec fn spec_flood_remotes(
    tables: Seq<TableV>,
    me: NodeId,
    excepts: Seq<NodeId>,
    k: int,
) -> Seq<(ConnId, NodeId)>
    decreases k,
{
    if k <= 0 {
        Seq::empty()
    } else {
        let acc = spec_flood_remotes(tables, me, excepts, k - 1);
        let layer = (k - 1) / 256;
        let slot = (k - 1) % 256;
        if slot == spec_node_layer(me, layer as u8) as int {
            acc
        } else {
            match spec_next(tables[layer].dests[slot], excepts) {
                Some(p) => spec_push_unique(acc, (p.conn, p.next)),
                None => acc,
            }
        }
    }
}

/// The route a `ToService` rule takes: towards the first listed provider
/// that is not this node and has a route.
pub open spec fn spec_service_route(
    tables: Seq<TableV>,
    me: NodeId,
    excepts: Seq<NodeId>,
    providers: Seq<NodeId>,
) -> Option<PathV>
    decreases providers.len(),
{
    if providers.len() == 0 {
        None
    } else if providers[0] != me && spec_route_lookup(tables, me, providers[0], excepts) is Some {
        spec_route_lookup(tables, me, providers[0], excepts)
    } else {
        spec_service_route(tables, me, excepts, providers.skip(1))
    }
}

/// Mathematical value of a `Router`: the node, the four layer tables,
/// and, for each of the 256 service identifiers, the providers registered
/// for it in registration order.
#[verifier::ext_equal]
pub struct RouterV {
    pub node: NodeId,
    pub tables: Seq<TableV>,
    pub registry: Seq<Seq<NodeId>>,
}

/// Four stacked layer tables and the service registry.
pub struct Router {
    node_id: NodeId,
    tables: Vec<Table>,
    registry: Vec<Vec<NodeId>>,
}

impl View for Router {
    type V = RouterV;

    closed spec fn view(&self) -> RouterV {
        RouterV {
            node: self.node_id,
            tables: Seq::new(self.tables@.len(), |i: int| self.tables@[i]@),
            registry: Seq::new(self.registry@.len(), |i: int| self.registry@[i]@),
        }
    }
}

impl Router {
    /// Internal invariant: one well-formed table per layer, each for this
    /// node, and one registry row per service.
    pub closed spec fn wf(&self) -> bool {
        &&& self.tables@.len() == 4
        &&& (forall|i: int| 0 <= i < 4 ==> (#[trigger] self.tables@[i]).wf())
        &&& (forall|i: int| 0 <= i < 4 ==> (#[trigger] self.tables@[i])@.node == self.node_id)
        &&& (forall|i: int| 0 <= i < 4 ==> (#[trigger] self.tables@[i])@.layer == i)
        &&& (forall|i: int| 0 <= i < 4 ==> Table::view_wf((#[trigger] self.tables@[i])@))
        &&& self.registry@.len() == 256
    }

    /// The shape of the view that `wf` maintains.
    pub open spec fn view_wf(r: RouterV) -> bool {
        &&& r.tables.len() == 4
        &&& r.registry.len() == 256
        &&& (forall|i: int| 0 <= i < 4 ==> (#[trigger] r.tables[i]).node == r.node)
        &&& (forall|i: int| 0 <= i < 4 ==> (#[trigger] r.tables[i]).layer == i)
        &&& (forall|i: int| 0 <= i < 4 ==> (#[trigger] r.tables[i]).dests.len() == 256)
    }

    /// A router for `node_id` with empty tables and no providers.
    pub fn new(node_id: NodeId) -> (r: Router)
        ensures
            r.wf(),
            r@.node == node_id,
            Router::view_wf(r@),
            forall|s: int| 0 <= s < 256 ==> (#[trigger] r@.registry[s]).len() == 0,
            forall|i: int, s: int| 0 <= i < 4 && 0 <= s < 256 ==> (#[trigger] r@.tables[i].dests[
                s
            ]).len() == 0,
    {
        let mut tables: Vec<Table> = Vec::new();
        tables.push(Table::new(node_id, 0));
        tables.push(Table::new(node_id, 1));
        tables.push(Table::new(node_id, 2));
        tables.push(Table::new(node_id, 3));
        let mut registry: Vec<Vec<NodeId>> = Vec::new();
        let mut i: usize = 0;
        while i < 256
            invariant
                i <= 256,
                registry@.len() == i,
                forall|j: int| 0 <= j < i ==> (#[trigger] registry@[j])@.len() == 0,
            decreases 256 - i,
        {
            registry.push(Vec::new());
            i += 1;
        }
        let r = Router { node_id, tables, registry };
        r
    }

    /// This router's node.
    pub fn node_id(&self) -> (r: NodeId)
        ensures
            r == self@.node,
    {
        self.node_id
    }

    /// Registers `node` as a provider of `service`.
    pub fn register_service_provider(&mut self, service: u8, node: NodeId)
        requires
            old(self).wf(),
        ensures
            final(self).wf(),
            Router::view_wf(final(self)@),
            final(self)@.node == old(self)@.node,
            final(self)@.tables == old(self)@.tables,
            final(self)@.registry == old(self)@.registry.update(
                service as int,
                old(self)@.registry[service as int].push(node),
            ),
    {
        let ghost pre = self@;
        let row = row_at_mut(&mut self.registry, service as usize);
        row.push(node);
        proof {
            assert(self@.registry =~~= pre.registry.update(
                service as int,
                pre.registry[service as int].push(node),
            ));
            assert(self@.tables =~~= pre.tables);
        }
    }

    /// Records a direct route to the neighbour `src` in every layer
    /// table.
    pub fn add_direct(&mut self, conn: ConnId, src: NodeId, metric: Metric)
        requires
            old(self).wf(),
            metric@.hops.len() > 0,
            metric@.hops[0] == src,
        ensures
            final(self).wf(),
            Router::view_wf(final(self)@),
            final(self)@.node == old(self)@.node,
            final(self)@.registry == old(self)@.registry,
            forall|i: int| 0 <= i < 4 ==> (#[trigger] final(self)@.tables[i]).dests == old(
                self,
            )@.tables[i].dests.update(
                spec_node_layer(src, i as u8) as int,
                crate::dest::spec_set_path(
                    old(self)@.tables[i].dests[spec_node_layer(src, i as u8) as int],
                    (PathV { conn, next: src, metric: metric@ }),
                ),
            ),
    {
        let mut layer: usize = 0;
        while layer < 4
            invariant
                layer <= 4,
                self.node_id == old(self).node_id,
                self.registry@ == old(self).registry@,
                self.registry@.len() == 256,
                self.tables@.len() == 4,
                old(self).tables@.len() == 4,
                metric@.hops.len() > 0,
                metric@.hops[0] == src,
                forall|i: int| 0 <= i < 4 ==> (#[trigger] self.tables@[i]).wf(),
                forall|i: int| 0 <= i < 4 ==> Table::view_wf((#[trigger] self.tables@[i])@),
                forall|i: int| 0 <= i < 4 ==> (#[trigger] self.tables@[i])@.node == self.node_id,
                forall|i: int| 0 <= i < 4 ==> (#[trigger] self.tables@[i])@.layer == i,
                forall|i: int| layer <= i < 4 ==> #[trigger] self.tables@[i] == old(
                    self,
                ).tables@[i],
                forall|i: int| 0 <= i < layer ==> (#[trigger] self.tables@[i])@.dests == (old(
                    self,
                ).tables@[i])@.dests.update(
                    spec_node_layer(src, i as u8) as int,
                    crate::dest::spec_set_path(
                        (old(self).tables@[i])@.dests[spec_node_layer(src, i as u8) as int],
                        (PathV { conn, next: src, metric: metric@ }),
                    ),
                ),
            decreases 4 - layer,
        {
            let t = table_at_mut(&mut self.tables, layer);
            t.add_direct(conn, src, metric.clone());
            layer += 1;
        }
        proof {
            assert(self@.registry =~~= old(self)@.registry);
            assert forall|i: int| 0 <= i < 4 implies (#[trigger] self@.tables[i]).dests == old(
                self,
            )@.tables[i].dests.update(
                spec_node_layer(src, i as u8) as int,
                crate::dest::spec_set_path(
                    old(self)@.tables[i].dests[spec_node_layer(src, i as u8) as int],
                    (PathV { conn, next: src, metric: metric@ }),
                ),
            ) by {
                assert(self@.tables[i] == self.tables@[i]@);
                assert(old(self)@.tables[i] == old(self).tables@[i]@);
            }
        }
    }

    /// Forgets the connection `conn` in every layer table.
    pub fn del_direct(&mut self, conn: ConnId)
        requires
            old(self).wf(),
        ensures
            final(self).wf(),
            Router::view_wf(final(self)@),
            final(self)@.node == old(self)@.node,
            final(self)@.registry == old(self)@.registry,
            forall|i: int| 0 <= i < 4 ==> (#[trigger] final(self)@.tables[i]).dests == Seq::new(
                256,
                |s: int| crate::dest::spec_del_path(old(self)@.tables[i].dests[s], conn),
            ),
    {
        let mut layer: usize = 0;
        while layer < 4
            invariant
                layer <= 4,
                self.node_id == old(self).node_id,
                self.registry@ == old(self).registry@,
                self.registry@.len() == 256,
                self.tables@.len() == 4,
                old(self).tables@.len() == 4,
                forall|i: int| 0 <= i < 4 ==> (#[trigger] self.tables@[i]).wf(),
                forall|i: int| 0 <= i < 4 ==> Table::view_wf((#[trigger] self.tables@[i])@),
                forall|i: int| 0 <= i < 4 ==> (#[trigger] self.tables@[i])@.node == self.node_id,
                forall|i: int| 0 <= i < 4 ==> (#[trigger] self.tables@[i])@.layer == i,
                forall|i: int| layer <= i < 4 ==> #[trigger] self.tables@[i] == old(
                    self,
                ).tables@[i],
                forall|i: int| 0 <= i < layer ==> (#[trigger] self.tables@[i])@.dests == Seq::new(
                    256,
                    |s: int| crate::dest::spec_del_path((old(self).tables@[i])@.dests[s], conn),
                ),
            decreases 4 - layer,
        {
            let t = table_at_mut(&mut self.tables, layer);
            t.del_direct(conn);
            layer += 1;
        }
        proof {
            assert(self@.registry =~~= old(self)@.registry);
            assert forall|i: int| 0 <= i < 4 implies (#[trigger] self@.tables[i]).dests == Seq::new(
                256,
                |s: int| crate::dest::spec_del_path(old(self)@.tables[i].dests[s], conn),
            ) by {
                assert(self@.tables[i] == self.tables@[i]@);
                assert(old(self)@.tables[i] == old(self).tables@[i]@);
                assert(Seq::new(
                    256,
                    |s: int| crate::dest::spec_del_path((old(self).tables@[i])@.dests[s], conn),
                ) =~= Seq::new(
                    256,
                    |s: int| crate::dest::spec_del_path(old(self)@.tables[i].dests[s], conn),
                ));
            }
        }
    }

    /// Merges a neighbour's advertisement into the table of `layer`.
    pub fn apply_sync(
        &mut self,
        layer: u8,
        conn: ConnId,
        src: NodeId,
        metric: Metric,
        sync: &TableSync,
    )
        requires
            old(self).wf(),
            layer < 4,
            metric@.hops.len() > 0,
            metric@.hops[0] == src,
        ensures
            final(self).wf(),
            Router::view_wf(final(self)@),
            final(self)@.node == old(self)@.node,
            final(self)@.registry == old(self)@.registry,
            final(self)@.tables == old(self)@.tables.update(
                layer as int,
                crate::table::spec_apply_sync(
                    old(self)@.tables[layer as int],
                    conn,
                    src,
                    metric@,
                    sync@,
                ),
            ),
    {
        let ghost pre = self@;
        let t = table_at_mut(&mut self.tables, layer as usize);
        t.apply_sync(conn, src, metric, sync);
        proof {
            assert(self@.tables =~= pre.tables.update(
                layer as int,
                crate::table::spec_apply_sync(pre.tables[layer as int], conn, src, metric@, sync@),
            ));
        }
    }

    /// The advertisement of the table of `layer` for `remote`.
    pub fn sync_for(&self, layer: u8, remote: NodeId) -> (r: Option<TableSync>)
        requires
            self.wf(),
            layer < 4,
        ensures
            match r {
                Some(ts) => {
                    &&& spec_eq_util_layer(self@.node, remote) <= layer + 1
                    &&& ts@ == spec_sync_entries(self@.tables[layer as int], remote, 0)
                },
                None => spec_eq_util_layer(self@.node, remote) > layer + 1,
            },
    {
        self.tables[layer as usize].sync_for(remote)
    }

    /// The preferred next hop towards `dest`, decided at the layer the
    /// destination differs at, avoiding the nodes in `excepts`.
    pub fn next(&self, dest: NodeId, excepts: &Vec<NodeId>) -> (r: Option<(ConnId, NodeId)>)
        requires
            self.wf(),
        ensures
            match r {
                Some(pair) => {
                    &&& spec_route_lookup(self@.tables, self@.node, dest, excepts@) matches Some(p)
                    &&& pair.0 == p.conn
                    &&& pair.1 == p.next
                },
                None => spec_route_lookup(self@.tables, self@.node, dest, excepts@) is None,
            },
    {
        let eq_util = eq_util_layer(self.node_id, dest);
        let layer: u8 = if eq_util == 0 {
            0
        } else {
            eq_util - 1
        };
        self.tables[layer as usize].next(dest, excepts)
    }
}

/// The exclusion list a fan-out uses: the relay the packet came from and
/// the packet's source, so a broadcast neither bounces back nor chases
/// its origin.
pub open spec fn spec_fanout_excepts(source: Option<NodeId>, relay_from: Option<NodeId>) -> Seq<
    NodeId,
> {
    spec_excepts(relay_from) + spec_excepts(source)
}

/// Mathematical value of a routing decision.
#[verifier::ext_equal]
pub enum RouteActionV {
    Reject,
    Local,
    Next(ConnId, NodeId),
    Broadcast { local: bool, remotes: Seq<(ConnId, NodeId)> },
}

impl View for RouteAction {
    type V = RouteActionV;

    open spec fn view(&self) -> RouteActionV {
        match self {
            RouteAction::Reject => RouteActionV::Reject,
            RouteAction::Local => RouteActionV::Local,
            RouteAction::Next(c, n) => RouteActionV::Next(*c, *n),
            RouteAction::Broadcast { local, remotes } => RouteActionV::Broadcast {
                local: *local,
                remotes: remotes@,
            },
        }
    }
}

/// The whole routing decision, as a function of the router's state: what
/// `derive_action` returns for every rule, source and relay.
pub open spec fn spec_derive_action(
    r: RouterV,
    rule: RouteRuleV,
    source: Option<NodeId>,
    relay_from: Option<NodeId>,
) -> RouteActionV {
    match rule {
        RouteRuleV::Direct => RouteActionV::Local,
        RouteRuleV::ToNode(n) => if n == r.node {
            RouteActionV::Local
        } else {
            match spec_route_lookup(r.tables, r.node, n, spec_excepts(relay_from)) {
                Some(p) => RouteActionV::Next(p.conn, p.next),
                None => RouteActionV::Reject,
            }
        },
        RouteRuleV::ToKey(k) => if k == r.node {
            RouteActionV::Local
        } else {
            match spec_route_lookup(r.tables, r.node, k, spec_excepts(relay_from)) {
                Some(p) => RouteActionV::Next(p.conn, p.next),
                None => RouteActionV::Local,
            }
        },
        RouteRuleV::ToService(s) => if r.registry[s as int].contains(r.node) {
            RouteActionV::Local
        } else {
            match spec_service_route(
                r.tables,
                r.node,
                spec_excepts(relay_from),
                r.registry[s as int],
            ) {
                Some(p) => RouteActionV::Next(p.conn, p.next),
                None => RouteActionV::Reject,
            }
        },
        RouteRuleV::ToNodes(ns) => RouteActionV::Broadcast {
            local: ns.contains(r.node),
            remotes: spec_tonodes_remotes(
                r.tables,
                r.node,
                spec_fanout_excepts(source, relay_from),
                ns,
                ns.len() as int,
            ),
        },
        RouteRuleV::Broadcast(_) => RouteActionV::Broadcast {
            local: true,
            remotes: spec_flood_remotes(
                r.tables,
                r.node,
                spec_fanout_excepts(source, relay_from),
                1024,
            ),
        },
    }
}

/// Appends `x` unless it is already listed.
fn push_unique(acc: &mut Vec<(ConnId, NodeId)>, x: (ConnId, NodeId))
    ensures
        final(acc)@ == spec_push_unique(old(acc)@, x),
{
    let mut i: usize = 0;
    while i < acc.len()
        invariant
            i <= acc.len(),
            acc@ == old(acc)@,
            forall|j: int| 0 <= j < i ==> acc@[j] != x,
        decreases acc.len() - i,
    {
        if acc[i].0 == x.0 && acc[i].1 == x.1 {
            proof {
                assert(acc@[i as int] == x);
            }
            return;
        }
        i += 1;
    }
    acc.push(x);
}

impl Router {
    /// Builds the exclusion vector for a lookup.
    fn excepts_of(relay_from: Option<NodeId>) -> (r: Vec<NodeId>)
        ensures
            r@ == spec_excepts(relay_from),
    {
        let mut r: Vec<NodeId> = Vec::new();
        match relay_from {
            Some(n) => {
                r.push(n);
                proof {
                    assert(r@ =~= spec_excepts(relay_from));
                }
            },
            None => {
                proof {
                    assert(r@ =~= spec_excepts(relay_from));
                }
            },
        }
        r
    }

    /// Builds the exclusion vector for a fan-out.
    fn fanout_excepts_of(source: Option<NodeId>, relay_from: Option<NodeId>) -> (r: Vec<NodeId>)
        ensures
            r@ == spec_fanout_excepts(source, relay_from),
    {
        let mut r: Vec<NodeId> = Vec::new();
        match relay_from {
            Some(n) => { r.push(n) },
            None => {},
        }
        match source {
            Some(n) => { r.push(n) },
            None => {},
        }
        proof {
            assert(r@ =~= spec_fanout_excepts(source, relay_from));
        }
        r
    }

    /// Decides what the data plane does with a packet routed by `rule`.
    ///
    /// `ToNode` forwards along the table of the layer the destination
    /// differs at, or rejects when no route is known. `ToKey` does the
    /// same walk but falls back to local delivery: with no closer node
    /// known, this node is the closest. `ToService` forwards towards the
    /// first registered provider with a route. `ToNodes` and `Broadcast`
    /// fan out over the deduplicated next hops, excluding the relay the
    /// packet came from and its source. `Direct` packets are addressed to
    /// this node and stay local. Duplicate suppression for broadcasts is
    /// the data plane's, which consults its history before dispatching.
    pub fn derive_action(
        &self,
        rule: &RouteRule,
        source: Option<NodeId>,
        relay_from: Option<NodeId>,
    ) -> (r: RouteAction)
        requires
            self.wf(),
        ensures
            r@ == spec_derive_action(self@, rule@, source, relay_from),
    {
        match rule {
            RouteRule::Direct => RouteAction::Local,
            RouteRule::ToNode(n) => {
                if *n == self.node_id {
                    RouteAction::Local
                } else {
                    let excepts = Self::excepts_of(relay_from);
                    match self.next(*n, &excepts) {
                        Some((conn, node)) => RouteAction::Next(conn, node),
                        None => RouteAction::Reject,
                    }
                }
            },
            RouteRule::ToKey(k) => {
                if *k == self.node_id {
                    RouteAction::Local
                } else {
                    let excepts = Self::excepts_of(relay_from);
                    match self.next(*k, &excepts) {
                        Some((conn, node)) => RouteAction::Next(conn, node),
                        None => RouteAction::Local,
                    }
                }
            },
            RouteRule::ToService(s) => {
                let excepts = Self::excepts_of(relay_from);
                self.service_action(*s, &excepts)
            },
            RouteRule::ToNodes(ns) => {
                let excepts = Self::fanout_excepts_of(source, relay_from);
                let local = crate::dest::nodes_contain(ns, self.node_id);
                let mut remotes: Vec<(ConnId, NodeId)> = Vec::new();
                let mut k: usize = 0;
                while k < ns.len()
                    invariant
                        k <= ns@.len(),
                        self.wf(),
                        excepts@ == spec_fanout_excepts(source, relay_from),
                        remotes@ == spec_tonodes_remotes(
                            self@.tables,
                            self@.node,
                            excepts@,
                            ns@,
                            k as int,
                        ),
                    decreases ns.len() - k,
                {
                    let n = ns[k];
                    if n != self.node_id {
                        match self.next(n, &excepts) {
                            Some(pair) => {
                                push_unique(&mut remotes, pair);
                            },
                            None => {},
                        }
                    }
                    k += 1;
                }
                RouteAction::Broadcast { local, remotes }
            },
            RouteRule::Broadcast(_) => {
                let excepts = Self::fanout_excepts_of(source, relay_from);
                let mut remotes: Vec<(ConnId, NodeId)> = Vec::new();
                let mut k: usize = 0;
                while k < 1024
                    invariant
                        k <= 1024,
                        self.wf(),
                        excepts@ == spec_fanout_excepts(source, relay_from),
                        remotes@ == spec_flood_remotes(self@.tables, self@.node, excepts@, k as int),
                    decreases 1024 - k,
                {
                    let layer = (k / 256) as u8;
                    let slot = (k % 256) as u8;
                    if slot != node_layer(self.node_id, layer) {
                        match self.tables[layer as usize].slot_next(slot, &excepts) {
                            Some(pair) => {
                                push_unique(&mut remotes, pair);
                            },
                            None => {},
                        }
                    }
                    k += 1;
                }
                RouteAction::Broadcast { local: true, remotes }
            },
        }
    }

    /// The action for a `ToService` rule: local when this node provides
    /// the service, else towards the first provider with a route.
    fn service_action(&self, service: u8, excepts: &Vec<NodeId>) -> (r: RouteAction)
        requires
            self.wf(),
        ensures
            ({
                if self@.registry[service as int].contains(self@.node) {
                    r == RouteAction::Local
                } else {
                    match spec_service_route(
                        self@.tables,
                        self@.node,
                        excepts@,
                        self@.registry[service as int],
                    ) {
                        Some(p) => r == RouteAction::Next(p.conn, p.next),
                        None => r == RouteAction::Reject,
                    }
                }
            }),
    {
        let providers = &self.registry[service as usize];
        proof {
            assert(self@.registry[service as int] == providers@);
        }
        if crate::dest::nodes_contain(providers, self.node_id) {
            return RouteAction::Local;
        }
        let ghost provs = providers@;
        proof {
            assert(provs.skip(0) =~= provs);
        }
        let mut i: usize = 0;
        while i < providers.len()
            invariant
                i <= provs.len(),
                self.wf(),
                providers == &self.registry@[service as int],
                provs == providers@,
                !provs.contains(self@.node),
                spec_service_route(self@.tables, self@.node, excepts@, provs.skip(i as int))
                    == spec_service_route(self@.tables, self@.node, excepts@, provs),
            decreases providers.len() - i,
        {
            let n = providers[i];
            proof {
                assert(provs.skip(i as int)[0] == provs[i as int]);
                assert(provs.skip(i as int).skip(1) =~= provs.skip(i as int + 1));
                assert(provs[i as int] != self@.node);
            }
            match self.next(n, excepts) {
                Some((conn, node)) => {
                    return RouteAction::Next(conn, node);
                },
                None => {},
            }
            i += 1;
        }
        proof {
            assert(provs.skip(provs.len() as int) =~= Seq::<NodeId>::empty());
        }
        RouteAction::Reject
    }
}

/// A mutable borrow of the table of `layer`.
fn table_at_mut(v: &mut Vec<Table>, i: usize) -> (element: &mut Table)
    requires
        i < old(v).len(),
    ensures
        *element == old(v)@[i as int],
        final(v)@ == old(v)@.update(i as int, *final(element)),
{
    &mut v[i]
}

/// A mutable borrow of registry row `i`.
fn row_at_mut(v: &mut Vec<Vec<NodeId>>, i: usize) -> (element: &mut Vec<NodeId>)
    requires
        i < old(v).len(),
    ensures
        *element == old(v)@[i as int],
        final(v)@ == old(v)@.update(i as int, *final(element)),
{
    &mut v[i]
}

} // verus!
