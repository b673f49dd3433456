//! The data plane: one worker's per-packet fast path.
//!
//! A datagram is first tried as a neighbour control and handed to the
//! controller when it is one. Anything else must come from a pinned
//! connection and parse as a transport header; the shadow router then
//! decides local delivery, a forward, a fan-out, or a drop. Every
//! forwarded copy carries the TTL lowered by exactly one, and a broadcast
//! already seen in the history is dropped whole, whichever remote
//! delivered the repeat.

use vstd::prelude::*;

use std::collections::VecDeque;

use crate::addr::{ConnId, NodeId};
use crate::controller::{ExtIn, ExtOut, LogicControl, LogicEvent};
use crate::features::{
    spec_feature_id, DataControl, DataEvent, Features, FeaturesControl, FeaturesEvent,
    FeaturesToController, FeaturesToWorker,
};
use crate::header::{spec_decode_header, HeaderV, TransportMsgHeader};
use crate::history::BroadcastHistory;
use crate::router::{RouteAction, RouteRule, RouteRuleV, Router};
use crate::switcher::TaskSwitcher;

verus! {

/// The TTL stamped on packets this node originates.
pub const DEFAULT_TTL: u8 = 64;

/// A datagram arriving from the wire.
#[derive(Debug)]
pub enum NetInput {
    /// From a remote address.
    UdpPacket(u64, Vec<u8>),
}

/// A datagram leaving for the wire.
#[derive(Debug)]
pub enum NetOutput {
    /// To one remote address.
    UdpPacket(u64, Vec<u8>),
    /// The same bytes to many remote addresses.
    UdpPackets(Vec<u64>, Vec<u8>),
}

/// An event one worker hands a peer worker directly.
#[derive(Debug)]
pub enum CrossWorker<SE> {
    /// A feature event for the peer's external listener.
    Feature(FeaturesEvent),
    /// A service event for the peer's external listener.
    Service(u8, SE),
}

/// One input of a data-plane worker.
#[derive(Debug)]
pub enum Input<SC, SE, TW> {
    /// From the host.
    Ext(ExtIn<SC>),
    /// From the wire.
    Net(NetInput),
    /// From the controller.
    Event(LogicEvent<TW>),
    /// From a peer worker.
    Worker(CrossWorker<SE>),
    /// Wind the worker down.
    ShutdownRequest,
}

/// One output of a data-plane worker.
#[derive(Debug)]
pub enum Output<SC, SE, TC> {
    /// For the host.
    Ext(ExtOut<SE>),
    /// For the wire.
    Net(NetOutput),
    /// For the controller.
    Control(LogicControl<SC, TC>),
    /// For a peer worker.
    Worker(u16, CrossWorker<SE>),
    /// The worker wound down.
    ShutdownResponse,
}

/// One input of a service's worker half.
#[derive(Debug)]
pub enum ServiceWorkerInput<SC, SE, TW> {
    /// From the host.
    Control(SC),
    /// From the service's controller half.
    FromController(TW),
    /// An event a feature reports to this service on this worker.
    FeatureEvent(SE),
}

/// One output of a service's worker half.
#[derive(Debug)]
pub enum ServiceWorkerOutput<SC, SE, TC> {
    /// A control the worker forwards to the controller half.
    ForwardControlToController(SC),
    /// A message for the controller half.
    ToController(TC),
    /// An event for the host.
    Event(SE),
}

/// A user service's worker half: ticked like every sub-engine, driven by
/// controls and controller messages, drained through `pop_output`.
pub trait ServiceWorker<SC, SE, TC, TW> {
    /// The identifier the service answers under.
    fn service_id(&self) -> u8;

    /// Time advanced.
    fn on_tick(&mut self, now_ms: u64);

    /// One input addressed to this service on this worker.
    fn on_input(&mut self, now_ms: u64, input: ServiceWorkerInput<SC, SE, TW>);

    /// The oldest pending output, if any.
    fn pop_output(&mut self) -> Option<ServiceWorkerOutput<SC, SE, TC>>;
}

/// The service worker halves, drained fairly: the one that took the last
/// input first, then a round-robin sweep.
pub struct ServiceWorkerManager<SC, SE, TC, TW, W: ServiceWorker<SC, SE, TC, TW>> {
    workers: Vec<W>,
    switcher: TaskSwitcher,
    last_input: Option<usize>,
    _marker: Option<(SC, SE, TC, TW)>,
}

impl<SC, SE, TC, TW, W: ServiceWorker<SC, SE, TC, TW>> ServiceWorkerManager<SC, SE, TC, TW, W> {
    /// The managed workers' invariant.
    pub closed spec fn wf(&self) -> bool {
        &&& self.switcher.wf()
        &&& self.switcher.spec_len() == self.workers@.len() + 1
        &&& (match self.last_input {
            Some(i) => i < self.workers@.len(),
            None => true,
        })
    }

    /// A manager over the given worker halves.
    pub fn new(workers: Vec<W>) -> (r: ServiceWorkerManager<SC, SE, TC, TW, W>)
        requires
            workers@.len() < 256,
        ensures
            r.wf(),
    {
        let len = workers.len();
        ServiceWorkerManager {
            workers,
            switcher: TaskSwitcher::new(len + 1),
            last_input: None,
            _marker: None,
        }
    }

    /// Time advanced: every worker hears it.
    pub fn on_tick(&mut self, now_ms: u64)
        requires
            old(self).wf(),
        ensures
            final(self).wf(),
    {
        let mut i: usize = 0;
        while i < self.workers.len()
            invariant
                self.wf(),
                i <= self.workers@.len(),
            decreases self.workers.len() - i,
        {
            let w = worker_at_mut(&mut self.workers, i);
            w.on_tick(now_ms);
            i += 1;
        }
    }

    /// One input for the service of `service_id`; that worker is drained
    /// first afterwards.
    pub fn on_input(&mut self, now_ms: u64, service_id: u8, input: ServiceWorkerInput<SC, SE, TW>)
        requires
            old(self).wf(),
        ensures
            final(self).wf(),
    {
        let mut i: usize = 0;
        while i < self.workers.len()
            invariant
                self.wf(),
                i <= self.workers@.len(),
            decreases self.workers.len() - i,
        {
            let found = self.workers[i].service_id() == service_id;
            if found {
                let w = worker_at_mut(&mut self.workers, i);
                w.on_input(now_ms, input);
                self.last_input = Some(i);
                return;
            }
            i += 1;
        }
    }

    /// The oldest pending output: the worker that took the last input
    /// first, then a fair round-robin sweep over the rest.
    pub fn pop_output(&mut self) -> (r: Option<(u8, ServiceWorkerOutput<SC, SE, TC>)>)
        requires
            old(self).wf(),
        ensures
            final(self).wf(),
    {
        match self.last_input {
            Some(i) => {
                let w = worker_at_mut(&mut self.workers, i);
                let id = w.service_id();
                match w.pop_output() {
                    Some(out) => {
                        return Some((id, out));
                    },
                    None => {
                        self.last_input = None;
                    },
                }
            },
            None => {},
        }
        loop
            invariant
                self.wf(),
            decreases self.switcher.spec_len() - self.switcher.spec_misses(),
        {
            let current = match self.switcher.current() {
                Some(c) => c,
                None => {
                    return None;
                },
            };
            if current < self.workers.len() {
                let w = worker_at_mut(&mut self.workers, current);
                let id = w.service_id();
                let out = w.pop_output();
                let got = self.switcher.process(out);
                match got {
                    Some(out) => {
                        return Some((id, out));
                    },
                    None => {},
                }
            } else {
                let nothing: Option<()> = None;
                self.switcher.process(nothing);
            }
        }
    }
}

/// A mutable borrow of worker `i`.
fn worker_at_mut<W>(v: &mut Vec<W>, i: usize) -> (element: &mut W)
    requires
        i < old(v).len(),
    ensures
        *element == old(v)@[i as int],
        final(v)@ == old(v)@.update(i as int, *final(element)),
{
    &mut v[i]
}

/// One pinned connection: remote address, identifier, node, whether the
/// transport encrypts it.
pub struct DataPlaneConnection {
    pub addr: u64,
    pub conn: ConnId,
    pub node: NodeId,
    pub secure: bool,
}

/// The worker: the shadow router, the pinned connections, the broadcast
/// history, the service worker halves and the output queue.
pub struct DataPlane<SC, SE, TC, TW, W: ServiceWorker<SC, SE, TC, TW>> {
    worker_id: u16,
    node_id: NodeId,
    shadow: Router,
    conns: Vec<DataPlaneConnection>,
    history: BroadcastHistory,
    services: ServiceWorkerManager<SC, SE, TC, TW, W>,
    queue: VecDeque<Output<SC, SE, TC>>,
}

/// The first pinned record at `addr`, if any.
pub open spec fn spec_find_addr(conns: Seq<DataPlaneConnection>, addr: u64) -> Option<
    DataPlaneConnection,
>
    decreases conns.len(),
{
    if conns.len() == 0 {
        None
    } else if conns[0].addr == addr {
        Some(conns[0])
    } else {
        spec_find_addr(conns.skip(1), addr)
    }
}

/// The first pinned record of `conn`, if any.
pub open spec fn spec_find_conn(conns: Seq<DataPlaneConnection>, conn: ConnId) -> Option<
    DataPlaneConnection,
>
    decreases conns.len(),
{
    if conns.len() == 0 {
        None
    } else if conns[0].conn == conn {
        Some(conns[0])
    } else {
        spec_find_conn(conns.skip(1), conn)
    }
}

/// The pinned addresses behind a fan-out's next hops, in order, unknown
/// connections skipped.
pub open spec fn spec_fanout_addrs(
    conns: Seq<DataPlaneConnection>,
    remotes: Seq<(ConnId, NodeId)>,
) -> Seq<u64>
    decreases remotes.len(),
{
    if remotes.len() == 0 {
        Seq::empty()
    } else {
        (match spec_find_conn(conns, remotes[0].0) {
            Some(c) => seq![c.addr],
            None => Seq::<u64>::empty(),
        }) + spec_fanout_addrs(conns, remotes.skip(1))
    }
}

/// Whether `out` is one datagram of `bytes` to `addr`.
pub open spec fn spec_is_udp_to<SC, SE, TC>(out: Output<SC, SE, TC>, addr: u64, bytes: Seq<u8>) -> bool {
    match out {
        Output::Net(NetOutput::UdpPacket(a, b)) => a == addr && b@ == bytes,
        _ => false,
    }
}

/// Whether `out` is one datagram of `bytes` to each of `addrs`.
pub open spec fn spec_is_udp_multi<SC, SE, TC>(
    out: Output<SC, SE, TC>,
    addrs: Seq<u64>,
    bytes: Seq<u8>,
) -> bool {
    match out {
        Output::Net(NetOutput::UdpPackets(a, b)) => a@ == addrs && b@ == bytes,
        _ => false,
    }
}

/// Whether `out` hands `payload` to the host as a data datagram.
pub open spec fn spec_is_recv<SC, SE, TC>(out: Output<SC, SE, TC>, payload: Seq<u8>) -> bool {
    match out {
        Output::Ext(ExtOut::FeaturesEvent(FeaturesEvent::Data(DataEvent::Recv(b)))) => b@
            == payload,
        _ => false,
    }
}

/// Whether `out` forwards a router-sync payload of `conn` to the
/// controller.
pub open spec fn spec_is_sync_remote<SC, SE, TC>(
    out: Output<SC, SE, TC>,
    conn: ConnId,
    node: NodeId,
    payload: Seq<u8>,
) -> bool {
    match out {
        Output::Control(LogicControl::Feature(FeaturesToController::RouterSyncRemote(c, n, b))) => c
            == conn && n == node && b@ == payload,
        _ => false,
    }
}

/// How many outputs a local delivery appends: one for the data and
/// router-sync features, none for any other.
pub open spec fn spec_delivery_len(feature: u8) -> int {
    if feature == spec_feature_id(Features::Data) || feature == spec_feature_id(
        Features::RouterSync,
    ) {
        1
    } else {
        0
    }
}

/// What a local delivery appends: the payload to the host for the data
/// feature, the payload to the controller for router sync, nothing
/// otherwise.
pub open spec fn spec_delivered<SC, SE, TC>(
    delta: Seq<Output<SC, SE, TC>>,
    conn: ConnId,
    node: NodeId,
    feature: u8,
    payload: Seq<u8>,
) -> bool {
    if feature == spec_feature_id(Features::Data) {
        delta.len() == 1 && spec_is_recv(delta[0], payload)
    } else if feature == spec_feature_id(Features::RouterSync) {
        delta.len() == 1 && spec_is_sync_remote(delta[0], conn, node, payload)
    } else {
        delta.len() == 0
    }
}

/// The inputs a worker accepts: connecting and disconnecting are the
/// controller's work.
pub open spec fn spec_input_supported<SC, SE, TW>(input: &Input<SC, SE, TW>) -> bool {
    match input {
        Input::Ext(ExtIn::ConnectTo(_)) => false,
        Input::Ext(ExtIn::DisconnectFrom(_)) => false,
        _ => true,
    }
}

impl<SC, SE, TC, TW, W: ServiceWorker<SC, SE, TC, TW>> DataPlane<SC, SE, TC, TW, W> {
    /// The worker's invariant: a well-formed shadow router, well-formed
    /// service workers, and one record per pinned address or connection.
    pub closed spec fn wf(&self) -> bool {
        &&& self.shadow.wf()
        &&& self.services.wf()
        &&& (forall|i: int, j: int| 0 <= i < j < self.conns@.len() ==> self.conns@[i].addr
            != self.conns@[j].addr)
        &&& (forall|i: int, j: int| 0 <= i < j < self.conns@.len() ==> self.conns@[i].conn
            != self.conns@[j].conn)
    }

    /// The pending outputs.
    pub closed spec fn queue_view(&self) -> Seq<Output<SC, SE, TC>> {
        self.queue@
    }

    /// The broadcasts already handled.
    pub closed spec fn history_view(&self) -> Seq<crate::history::HistoryKey> {
        self.history@
    }

    /// This worker's node.
    pub closed spec fn node_view(&self) -> NodeId {
        self.node_id
    }

    /// The service worker halves.
    pub closed spec fn spec_services(&self) -> ServiceWorkerManager<SC, SE, TC, TW, W> {
        self.services
    }

    /// This worker's identifier.
    pub closed spec fn worker_id_view(&self) -> u16 {
        self.worker_id
    }

    /// Everything but the output queue and the broadcast history is
    /// untouched: the packet paths route, they never rewire.
    pub open spec fn spec_routing_frame(pre: Self, post: Self) -> bool {
        &&& post.conns_view() == pre.conns_view()
        &&& post.spec_shadow() == pre.spec_shadow()
        &&& post.spec_services() == pre.spec_services()
        &&& post.node_view() == pre.node_view()
        &&& post.worker_id_view() == pre.worker_id_view()
    }

    /// Exactly one output was queued and nothing else moved.
    pub open spec fn spec_pushed(pre: Self, post: Self, out: Output<SC, SE, TC>) -> bool {
        &&& post.queue_view() == pre.queue_view().push(out)
        &&& post.history_view() == pre.history_view()
        &&& Self::spec_routing_frame(pre, post)
    }

    /// Exactly one datagram of `bytes` to `addr` was queued and nothing
    /// else moved.
    pub open spec fn spec_pushed_udp(pre: Self, post: Self, addr: u64, bytes: Seq<u8>) -> bool {
        &&& post.queue_view().len() == pre.queue_view().len() + 1
        &&& pre.queue_view().is_prefix_of(post.queue_view())
        &&& spec_is_udp_to(post.queue_view().last(), addr, bytes)
        &&& post.history_view() == pre.history_view()
        &&& Self::spec_routing_frame(pre, post)
    }

    /// Only the service workers moved: an input went to them and nothing
    /// was queued.
    pub open spec fn spec_only_services(pre: Self, post: Self) -> bool {
        &&& post.queue_view() == pre.queue_view()
        &&& post.history_view() == pre.history_view()
        &&& post.conns_view() == pre.conns_view()
        &&& post.spec_shadow() == pre.spec_shadow()
        &&& post.node_view() == pre.node_view()
        &&& post.worker_id_view() == pre.worker_id_view()
    }

    /// The whole effect of one worker input, variant by variant.
    pub open spec fn spec_event_effect(pre: Self, post: Self, event: Input<SC, SE, TW>) -> bool {
        match event {
            Input::Ext(ExtIn::ConnectTo(_)) => true,
            Input::Ext(ExtIn::DisconnectFrom(_)) => true,
            Input::Ext(ExtIn::FeaturesControl(control)) => match control {
                FeaturesControl::Data(DataControl::SendRule(rule, ttl, payload)) => Self::spec_egress_effect(
                    pre,
                    post,
                    spec_feature_id(Features::Data),
                    rule@,
                    ttl,
                    payload@,
                ),
                _ => Self::spec_pushed(
                    pre,
                    post,
                    Output::Control(LogicControl::FeaturesControl(control)),
                ),
            },
            Input::Ext(ExtIn::ServicesControl(_service, _control)) => Self::spec_only_services(
                pre,
                post,
            ),
            Input::Worker(CrossWorker::Feature(ev)) => Self::spec_pushed(
                pre,
                post,
                Output::Ext(ExtOut::FeaturesEvent(ev)),
            ),
            Input::Worker(CrossWorker::Service(service, ev)) => Self::spec_pushed(
                pre,
                post,
                Output::Ext(ExtOut::ServicesEvent(service, ev)),
            ),
            Input::Net(NetInput::UdpPacket(remote, bytes)) => if bytes@.len() == 0 {
                post == pre
            } else {
                match crate::neighbours::spec_decode_control(bytes@) {
                    Some(control) => Self::spec_pushed(
                        pre,
                        post,
                        Output::Control(LogicControl::NetNeighbour(remote, control)),
                    ),
                    None => Self::spec_ingress_effect(pre, post, remote, bytes@),
                }
            },
            Input::Event(LogicEvent::NetNeighbour(addr, control)) => Self::spec_pushed_udp(
                pre,
                post,
                addr,
                crate::neighbours::spec_encode_control(control),
            ),
            Input::Event(LogicEvent::Pin(conn, node, addr, secure)) => {
                &&& post.queue_view() == pre.queue_view()
                &&& post.history_view() == pre.history_view()
                &&& post.spec_shadow() == pre.spec_shadow()
                &&& post.spec_services() == pre.spec_services()
                &&& post.node_view() == pre.node_view()
                &&& post.conns_view().len() >= 1
                &&& post.conns_view().last() == (DataPlaneConnection { addr, conn, node, secure })
                &&& (forall|j: int| 0 <= j < post.conns_view().len() - 1 ==> pre.conns_view().contains(
                    #[trigger] post.conns_view()[j],
                ) && post.conns_view()[j].conn != conn && post.conns_view()[j].addr != addr)
                &&& (forall|j: int| 0 <= j < pre.conns_view().len() && (#[trigger] pre.conns_view()[
                    j
                ]).conn != conn && pre.conns_view()[j].addr != addr ==> post.conns_view().contains(
                    pre.conns_view()[j],
                ))
            },
            Input::Event(LogicEvent::UnPin(conn)) => {
                &&& post.queue_view() == pre.queue_view()
                &&& post.history_view() == pre.history_view()
                &&& post.spec_shadow() == pre.spec_shadow()
                &&& post.spec_services() == pre.spec_services()
                &&& post.node_view() == pre.node_view()
                &&& (forall|j: int| 0 <= j < post.conns_view().len() ==> (
                #[trigger] post.conns_view()[j]).conn != conn && pre.conns_view().contains(
                    post.conns_view()[j],
                ))
                &&& (forall|j: int| 0 <= j < pre.conns_view().len() && (#[trigger] pre.conns_view()[
                    j
                ]).conn != conn ==> post.conns_view().contains(pre.conns_view()[j]))
            },
            Input::Event(LogicEvent::Feature(msg)) => {
                &&& post.queue_view() == pre.queue_view()
                &&& post.history_view() == pre.history_view()
                &&& post.conns_view() == pre.conns_view()
                &&& post.spec_services() == pre.spec_services()
                &&& post.node_view() == pre.node_view()
                &&& Self::spec_shadow_effect(pre.spec_shadow()@, post.spec_shadow()@, msg)
            },
            Input::Event(LogicEvent::Service(_service, _msg)) => Self::spec_only_services(
                pre,
                post,
            ),
            Input::Event(LogicEvent::NetDirect(feature, conn, payload)) => match spec_find_conn(
                pre.conns_view(),
                conn,
            ) {
                Some(t) => Self::spec_pushed_udp(
                    pre,
                    post,
                    t.addr,
                    crate::header::spec_encode_header(
                        Self::spec_stamped(
                            pre.node_view(),
                            feature,
                            DEFAULT_TTL,
                            RouteRuleV::Direct,
                        ),
                    ) + payload@,
                ),
                None => post == pre,
            },
            Input::Event(LogicEvent::NetRoute(feature, rule, ttl, payload)) => Self::spec_egress_effect(
                pre,
                post,
                feature,
                rule@,
                ttl,
                payload@,
            ),
            Input::ShutdownRequest => Self::spec_pushed(pre, post, Output::ShutdownResponse),
        }
    }

    /// A worker for `node_id` running the given service worker halves,
    /// each registered as locally provided in the shadow router.
    pub fn new(worker_id: u16, node_id: NodeId, services: Vec<W>) -> (r: DataPlane<
        SC,
        SE,
        TC,
        TW,
        W,
    >)
        requires
            services@.len() < 256,
        ensures
            r.wf(),
            r.queue_view().len() == 0,
            r.history_view().len() == 0,
    {
        let mut shadow = Router::new(node_id);
        let mut i: usize = 0;
        while i < services.len()
            invariant
                i <= services@.len(),
                shadow.wf(),
            decreases services.len() - i,
        {
            shadow.register_service_provider(services[i].service_id(), node_id);
            i += 1;
        }
        DataPlane {
            worker_id,
            node_id,
            shadow,
            conns: Vec::new(),
            history: BroadcastHistory::new(),
            services: ServiceWorkerManager::new(services),
            queue: VecDeque::new(),
        }
    }

    /// Time advanced: every service worker hears it; the packet state is
    /// untouched.
    pub fn on_tick(&mut self, now_ms: u64)
        requires
            old(self).wf(),
        ensures
            final(self).wf(),
            final(self).queue_view() == old(self).queue_view(),
            final(self).history_view() == old(self).history_view(),
            final(self).conns_view() == old(self).conns_view(),
            final(self).spec_shadow() == old(self).spec_shadow(),
            final(self).node_view() == old(self).node_view(),
            final(self).worker_id_view() == old(self).worker_id_view(),
    {
        self.services.on_tick(now_ms);
    }

    /// Looks a pinned connection up by remote address.
    fn find_by_addr(&self, addr: u64) -> (r: Option<usize>)
        ensures
            match r {
                Some(i) => i < self.conns@.len() && self.conns@[i as int].addr == addr
                    && spec_find_addr(self.conns_view(), addr) == Some(self.conns@[i as int]),
                None => spec_find_addr(self.conns_view(), addr) is None && forall|j: int|
                    0 <= j < self.conns@.len() ==> (#[trigger] self.conns@[j]).addr != addr,
            },
    {
        proof {
            assert(self.conns_view().skip(0) =~= self.conns_view());
        }
        let mut i: usize = 0;
        while i < self.conns.len()
            invariant
                i <= self.conns@.len(),
                forall|j: int| 0 <= j < i ==> (#[trigger] self.conns@[j]).addr != addr,
                spec_find_addr(self.conns@.skip(i as int), addr) == spec_find_addr(
                    self.conns@,
                    addr,
                ),
            decreases self.conns.len() - i,
        {
            proof {
                assert(self.conns@.skip(i as int)[0] == self.conns@[i as int]);
                assert(self.conns@.skip(i as int).skip(1) =~= self.conns@.skip(i as int + 1));
            }
            if self.conns[i].addr == addr {
                return Some(i);
            }
            i += 1;
        }
        None
    }

    /// Looks a pinned connection up by identifier.
    fn find_by_conn(&self, conn: ConnId) -> (r: Option<usize>)
        ensures
            match r {
                Some(i) => i < self.conns@.len() && self.conns@[i as int].conn == conn
                    && spec_find_conn(self.conns_view(), conn) == Some(self.conns@[i as int]),
                None => spec_find_conn(self.conns_view(), conn) is None && forall|j: int|
                    0 <= j < self.conns@.len() ==> (#[trigger] self.conns@[j]).conn != conn,
            },
    {
        proof {
            assert(self.conns_view().skip(0) =~= self.conns_view());
        }
        let mut i: usize = 0;
        while i < self.conns.len()
            invariant
                i <= self.conns@.len(),
                forall|j: int| 0 <= j < i ==> (#[trigger] self.conns@[j]).conn != conn,
                spec_find_conn(self.conns@.skip(i as int), conn) == spec_find_conn(
                    self.conns@,
                    conn,
                ),
            decreases self.conns.len() - i,
        {
            proof {
                assert(self.conns@.skip(i as int)[0] == self.conns@[i as int]);
                assert(self.conns@.skip(i as int).skip(1) =~= self.conns@.skip(i as int + 1));
            }
            if self.conns[i].conn == conn {
                return Some(i);
            }
            i += 1;
        }
        None
    }

    /// The worker's shadow router, for hosts that want a routing
    /// decision without handing a packet in; `derive_action` on it
    /// carries the full routing contract.
    pub fn shadow_router(&self) -> (r: &Router)
        requires
            self.wf(),
        ensures
            r.wf(),
            r == self.spec_shadow(),
    {
        &self.shadow
    }

    /// The shadow router.
    pub closed spec fn spec_shadow(&self) -> Router {
        self.shadow
    }

    /// One input, dispatched: `spec_event_effect` pins what each variant
    /// does, from the packet paths through the pin table to the plain
    /// forwards.
    pub fn on_event(&mut self, now_ms: u64, event: Input<SC, SE, TW>)
        requires
            old(self).wf(),
            spec_input_supported(&event),
        ensures
            final(self).wf(),
            Self::spec_event_effect(*old(self), *final(self), event),
    {
        match event {
            Input::Ext(ExtIn::ConnectTo(_)) => {},
            Input::Ext(ExtIn::DisconnectFrom(_)) => {},
            Input::Ext(ExtIn::FeaturesControl(control)) => {
                match control {
                    FeaturesControl::Data(DataControl::SendRule(rule, ttl, buf)) => {
                        self.outgoing_route(crate::features::Features::Data.id(), rule, ttl, buf);
                    },
                    other => {
                        self.queue.push_back(
                            Output::Control(LogicControl::FeaturesControl(other)),
                        );
                    },
                }
            },
            Input::Ext(ExtIn::ServicesControl(service, control)) => {
                self.services.on_input(now_ms, service, ServiceWorkerInput::Control(control));
            },
            Input::Worker(CrossWorker::Feature(ev)) => {
                self.queue.push_back(Output::Ext(ExtOut::FeaturesEvent(ev)));
            },
            Input::Worker(CrossWorker::Service(service, ev)) => {
                self.queue.push_back(Output::Ext(ExtOut::ServicesEvent(service, ev)));
            },
            Input::Net(NetInput::UdpPacket(remote, buf)) => {
                if buf.len() == 0 {
                    return;
                }
                match crate::neighbours::NeighboursControl::try_from_bytes(&buf) {
                    Some(control) => {
                        self.queue.push_back(
                            Output::Control(LogicControl::NetNeighbour(remote, control)),
                        );
                    },
                    None => {
                        self.incoming_route(now_ms, remote, buf);
                    },
                }
            },
            Input::Event(LogicEvent::NetNeighbour(addr, control)) => {
                self.queue.push_back(
                    Output::Net(NetOutput::UdpPacket(addr, control.to_bytes())),
                );
            },
            Input::Event(LogicEvent::Pin(conn, node, addr, secure)) => {
                self.unpin(conn);
                let ghost mid = self.conns_view();
                self.unpin_addr(addr);
                let ghost pre = self.conns_view();
                proof {
                    assert forall|a: int| 0 <= a < pre.len() implies (#[trigger] pre[a]).addr
                        != addr && pre[a].conn != conn by {
                        assert(mid.contains(pre[a]));
                        let k = choose|k: int| 0 <= k < mid.len() && mid[k] == pre[a];
                        assert(mid[k].conn != conn);
                    }
                }
                self.conns.push(DataPlaneConnection { addr, conn, node, secure });
                proof {
                    assert forall|a: int, b: int| 0 <= a < b < self.conns@.len() implies self
                        .conns@[a].addr != self.conns@[b].addr && self.conns@[a].conn != self
                        .conns@[b].conn by {
                        if b < pre.len() {
                            assert(pre[a].addr != pre[b].addr);
                        } else {
                            assert(self.conns@[a] == pre[a]);
                            assert(pre[a].addr != addr);
                            assert(pre[a].conn != conn);
                        }
                    }
                    assert(self.conns_view().last() == (DataPlaneConnection {
                        addr,
                        conn,
                        node,
                        secure,
                    }));
                    assert forall|j: int| 0 <= j < self.conns@.len() - 1 implies old(
                        self,
                    ).conns_view().contains(#[trigger] self.conns@[j]) && self.conns@[j].conn
                        != conn && self.conns@[j].addr != addr by {
                        assert(self.conns@[j] == pre[j]);
                        assert(mid.contains(pre[j]));
                        let k = choose|k: int| 0 <= k < mid.len() && mid[k] == pre[j];
                        assert(old(self).conns_view().contains(mid[k]));
                    }
                    assert forall|j: int| 0 <= j < old(self).conns_view().len() && (#[trigger] old(
                        self,
                    ).conns_view()[j]).conn != conn && old(self).conns_view()[j].addr != addr
                        implies self.conns@.contains(old(self).conns_view()[j]) by {
                        assert(mid.contains(old(self).conns_view()[j]));
                        let k = choose|k: int| 0 <= k < mid.len() && mid[k] == old(
                            self,
                        ).conns_view()[j];
                        assert(pre.contains(mid[k]));
                        let k2 = choose|k2: int| 0 <= k2 < pre.len() && pre[k2] == mid[k];
                        assert(self.conns@[k2] == pre[k2]);
                    }
                }
            },
            Input::Event(LogicEvent::UnPin(conn)) => {
                self.unpin(conn);
            },
            Input::Event(LogicEvent::Feature(msg)) => {
                self.apply_shadow(msg);
            },
            Input::Event(LogicEvent::Service(service, msg)) => {
                self.services.on_input(
                    now_ms,
                    service,
                    ServiceWorkerInput::FromController(msg),
                );
            },
            Input::Event(LogicEvent::NetDirect(feature, conn, buf)) => {
                match self.find_by_conn(conn) {
                    Some(i) => {
                        let addr = self.conns[i].addr;
                        let header = TransportMsgHeader {
                            secure: false,
                            feature,
                            ttl: DEFAULT_TTL,
                            meta: 0,
                            from_node: Some(self.node_id),
                            route: RouteRule::Direct,
                        };
                        let mut out = header.to_bytes();
                        append_bytes(&mut out, &buf);
                        self.queue.push_back(Output::Net(NetOutput::UdpPacket(addr, out)));
                    },
                    None => {},
                }
            },
            Input::Event(LogicEvent::NetRoute(feature, rule, ttl, buf)) => {
                self.outgoing_route(feature, rule, ttl, buf);
            },
            Input::ShutdownRequest => {
                self.queue.push_back(Output::ShutdownResponse);
            },
        }
    }

    /// The pinned connections.
    pub closed spec fn conns_view(&self) -> Seq<DataPlaneConnection> {
        self.conns@
    }

    /// Removes the record of `conn`, if any.
    fn unpin(&mut self, conn: ConnId)
        requires
            old(self).wf(),
        ensures
            final(self).wf(),
            final(self).queue_view() == old(self).queue_view(),
            final(self).history_view() == old(self).history_view(),
            final(self).spec_shadow() == old(self).spec_shadow(),
            final(self).spec_services() == old(self).spec_services(),
            final(self).node_view() == old(self).node_view(),
            final(self).worker_id_view() == old(self).worker_id_view(),
            forall|j: int| 0 <= j < final(self).conns_view().len()
                ==> (#[trigger] final(self).conns_view()[j]).conn != conn,
            forall|j: int| 0 <= j < final(self).conns_view().len()
                ==> old(self).conns_view().contains(#[trigger] final(self).conns_view()[j]),
            forall|j: int| 0 <= j < old(self).conns_view().len() && (#[trigger] old(
                self,
            ).conns_view()[j]).conn != conn ==> final(self).conns_view().contains(
                old(self).conns_view()[j],
            ),
    {
        let ghost pre = self.conns@;
        match self.find_by_conn(conn) {
            Some(i) => {
                self.conns.remove(i);
                proof {
                    assert forall|a: int, b: int| 0 <= a < b < self.conns@.len() implies self
                        .conns@[a].addr != self.conns@[b].addr && self.conns@[a].conn != self
                        .conns@[b].conn by {
                        let a0: int = if a < i {
                            a
                        } else {
                            a + 1
                        };
                        let b0: int = if b < i {
                            b
                        } else {
                            b + 1
                        };
                        assert(self.conns@[a] == pre[a0]);
                        assert(self.conns@[b] == pre[b0]);
                        assert(pre[a0].addr != pre[b0].addr);
                        assert(pre[a0].conn != pre[b0].conn);
                    }
                    assert forall|j: int| 0 <= j < self.conns@.len() implies (
                    #[trigger] self.conns@[j]).conn != conn && pre.contains(self.conns@[j]) by {
                        let j0: int = if j < i {
                            j
                        } else {
                            j + 1
                        };
                        assert(self.conns@[j] == pre[j0]);
                        if j0 != i as int {
                            assert(pre[j0].conn != pre[i as int].conn);
                        }
                    }
                    assert forall|j: int| 0 <= j < pre.len() && (#[trigger] pre[j]).conn != conn
                        implies self.conns@.contains(pre[j]) by {
                        let j0: int = if j < i {
                            j
                        } else {
                            j - 1
                        };
                        assert(self.conns@[j0] == pre[j]);
                    }
                }
            },
            None => {
                proof {
                    assert forall|j: int| 0 <= j < self.conns@.len() implies pre.contains(
                        #[trigger] self.conns@[j],
                    ) by {
                        assert(pre[j] == self.conns@[j]);
                    }
                    assert forall|j: int| 0 <= j < pre.len() implies self.conns@.contains(
                        #[trigger] pre[j],
                    ) by {
                        assert(self.conns@[j] == pre[j]);
                    }
                }
            },
        }
    }

    /// Removes the record pinned at `addr`, if any.
    fn unpin_addr(&mut self, addr: u64)
        requires
            old(self).wf(),
        ensures
            final(self).wf(),
            final(self).queue_view() == old(self).queue_view(),
            final(self).history_view() == old(self).history_view(),
            final(self).spec_shadow() == old(self).spec_shadow(),
            final(self).spec_services() == old(self).spec_services(),
            final(self).node_view() == old(self).node_view(),
            final(self).worker_id_view() == old(self).worker_id_view(),
            forall|j: int| 0 <= j < final(self).conns_view().len()
                ==> (#[trigger] final(self).conns_view()[j]).addr != addr,
            forall|j: int| 0 <= j < final(self).conns_view().len()
                ==> old(self).conns_view().contains(#[trigger] final(self).conns_view()[j]),
            forall|j: int| 0 <= j < old(self).conns_view().len() && (#[trigger] old(
                self,
            ).conns_view()[j]).addr != addr ==> final(self).conns_view().contains(
                old(self).conns_view()[j],
            ),
    {
        let ghost pre = self.conns@;
        match self.find_by_addr(addr) {
            Some(i) => {
                self.conns.remove(i);
                proof {
                    assert forall|a: int, b: int| 0 <= a < b < self.conns@.len() implies self
                        .conns@[a].addr != self.conns@[b].addr && self.conns@[a].conn != self
                        .conns@[b].conn by {
                        let a0: int = if a < i {
                            a
                        } else {
                            a + 1
                        };
                        let b0: int = if b < i {
                            b
                        } else {
                            b + 1
                        };
                        assert(self.conns@[a] == pre[a0]);
                        assert(self.conns@[b] == pre[b0]);
                        assert(pre[a0].addr != pre[b0].addr);
                        assert(pre[a0].conn != pre[b0].conn);
                    }
                    assert forall|j: int| 0 <= j < self.conns@.len() implies (
                    #[trigger] self.conns@[j]).addr != addr && pre.contains(self.conns@[j]) by {
                        let j0: int = if j < i {
                            j
                        } else {
                            j + 1
                        };
                        assert(self.conns@[j] == pre[j0]);
                        if j0 != i as int {
                            assert(pre[j0].addr != pre[i as int].addr);
                        }
                    }
                    assert forall|j: int| 0 <= j < pre.len() && (#[trigger] pre[j]).addr != addr
                        implies self.conns@.contains(pre[j]) by {
                        let j0: int = if j < i {
                            j
                        } else {
                            j - 1
                        };
                        assert(self.conns@[j0] == pre[j]);
                    }
                }
            },
            None => {
                proof {
                    assert forall|j: int| 0 <= j < self.conns@.len() implies pre.contains(
                        #[trigger] self.conns@[j],
                    ) by {
                        assert(pre[j] == self.conns@[j]);
                    }
                    assert forall|j: int| 0 <= j < pre.len() implies self.conns@.contains(
                        #[trigger] pre[j],
                    ) by {
                        assert(self.conns@[j] == pre[j]);
                    }
                }
            },
        }
    }

    /// What one controller table delta does to a shadow router: exactly
    /// what the named `Router` operation does, and nothing on a delta the
    /// operation's own preconditions refuse.
    pub open spec fn spec_shadow_effect(pre: crate::router::RouterV, post: crate::router::RouterV, msg: FeaturesToWorker) -> bool {
        match msg {
            FeaturesToWorker::ShadowAddDirect(conn, node, metric) => if metric@.hops.len() > 0
                && metric@.hops[0] == node {
                &&& post.node == pre.node
                &&& post.registry == pre.registry
                &&& (forall|i: int| 0 <= i < 4 ==> (#[trigger] post.tables[i]).dests
                    == pre.tables[i].dests.update(
                    crate::addr::spec_node_layer(node, i as u8) as int,
                    crate::dest::spec_set_path(
                        pre.tables[i].dests[crate::addr::spec_node_layer(node, i as u8) as int],
                        (crate::dest::PathV { conn, next: node, metric: metric@ }),
                    ),
                ))
            } else {
                post == pre
            },
            FeaturesToWorker::ShadowDelDirect(conn) => {
                &&& post.node == pre.node
                &&& post.registry == pre.registry
                &&& (forall|i: int| 0 <= i < 4 ==> (#[trigger] post.tables[i]).dests == Seq::new(
                    256,
                    |s: int| crate::dest::spec_del_path(pre.tables[i].dests[s], conn),
                ))
            },
            FeaturesToWorker::ShadowApplySync(layer, conn, node, metric, sync) => if layer < 4
                && metric@.hops.len() > 0 && metric@.hops[0] == node {
                &&& post.node == pre.node
                &&& post.registry == pre.registry
                &&& post.tables == pre.tables.update(
                    layer as int,
                    crate::table::spec_apply_sync(
                        pre.tables[layer as int],
                        conn,
                        node,
                        metric@,
                        sync@,
                    ),
                )
            } else {
                post == pre
            },
            FeaturesToWorker::ShadowService(service, node) => {
                &&& post.node == pre.node
                &&& post.tables == pre.tables
                &&& post.registry == pre.registry.update(
                    service as int,
                    pre.registry[service as int].push(node),
                )
            },
        }
    }

    /// Replays a controller table delta on the shadow router.
    fn apply_shadow(&mut self, msg: FeaturesToWorker)
        requires
            old(self).wf(),
        ensures
            final(self).wf(),
            final(self).queue_view() == old(self).queue_view(),
            final(self).history_view() == old(self).history_view(),
            final(self).conns_view() == old(self).conns_view(),
            final(self).spec_services() == old(self).spec_services(),
            final(self).node_view() == old(self).node_view(),
            final(self).worker_id_view() == old(self).worker_id_view(),
            Self::spec_shadow_effect(old(self).spec_shadow()@, final(self).spec_shadow()@, msg),
    {
        match msg {
            FeaturesToWorker::ShadowAddDirect(conn, node, metric) => {
                if metric.hops.len() > 0 && metric.hops[0] == node {
                    self.shadow.add_direct(conn, node, metric);
                }
            },
            FeaturesToWorker::ShadowDelDirect(conn) => {
                self.shadow.del_direct(conn);
            },
            FeaturesToWorker::ShadowApplySync(layer, conn, node, metric, sync) => {
                if layer < 4 && metric.hops.len() > 0 && metric.hops[0] == node {
                    self.shadow.apply_sync(layer, conn, node, metric, &sync);
                }
            },
            FeaturesToWorker::ShadowService(service, node) => {
                self.shadow.register_service_provider(service, node);
            },
        }
    }

    /// Delivers a packet's payload to the feature it belongs to.
    fn deliver_local(&mut self, conn: ConnId, node: NodeId, header: &TransportMsgHeader, buf: &Vec<u8>, header_len: usize)
        requires
            old(self).wf(),
            header_len <= buf@.len(),
        ensures
            final(self).wf(),
            final(self).history_view() == old(self).history_view(),
            Self::spec_routing_frame(*old(self), *final(self)),
            old(self).queue_view().is_prefix_of(final(self).queue_view()),
            final(self).queue_view().len() == old(self).queue_view().len() + spec_delivery_len(
                header.feature,
            ),
            spec_delivered(
                final(self).queue_view().skip(old(self).queue_view().len() as int),
                conn,
                node,
                header.feature,
                buf@.skip(header_len as int),
            ),
            forall|k: int| old(self).queue_view().len() <= k < final(self).queue_view().len()
                ==> match #[trigger] final(self).queue_view()[k] {
                    Output::Net(_) => false,
                    _ => true,
                },
    {
        let payload = tail_bytes(buf, header_len);
        match Features::from_id(header.feature) {
            Some(Features::Data) => {
                self.queue.push_back(
                    Output::Ext(
                        ExtOut::FeaturesEvent(FeaturesEvent::Data(DataEvent::Recv(payload))),
                    ),
                );
            },
            Some(Features::RouterSync) => {
                self.queue.push_back(
                    Output::Control(
                        LogicControl::Feature(
                            FeaturesToController::RouterSyncRemote(conn, node, payload),
                        ),
                    ),
                );
            },
            Some(Features::Neighbours) => {},
            None => {},
        }
    }

    /// The whole effect of ingesting `bytes` from `remote`: an unknown
    /// remote, an unparsable header, a secure packet on an insecure
    /// connection and a rejected route change nothing; a local delivery
    /// appends exactly the feature's event; a forward appends exactly one
    /// lowered-TTL copy to the next hop's address when the hop is pinned
    /// and the TTL is not spent; a fresh broadcast is recorded, delivered
    /// locally when the decision says so, and fanned out in one datagram
    /// to the pinned fan-out addresses; a recorded broadcast dies whole.
    pub open spec fn spec_ingress_effect(pre: Self, post: Self, remote: u64, bytes: Seq<u8>) -> bool {
        let conns = pre.conns_view();
        let q0 = pre.queue_view();
        let h0 = pre.history_view();
        &&& Self::spec_routing_frame(pre, post)
        &&& q0.is_prefix_of(post.queue_view())
        &&& match spec_find_addr(conns, remote) {
            None => post.queue_view() == q0 && post.history_view() == h0,
            Some(c) => match spec_decode_header(bytes) {
                Err(_) => post.queue_view() == q0 && post.history_view() == h0,
                Ok((h, hlen)) => if h.secure && !c.secure {
                    post.queue_view() == q0 && post.history_view() == h0
                } else {
                    match crate::router::spec_derive_action(
                        pre.spec_shadow()@,
                        h.route,
                        h.from_node,
                        Some(c.node),
                    ) {
                        crate::router::RouteActionV::Reject => post.queue_view() == q0
                            && post.history_view() == h0,
                        crate::router::RouteActionV::Local => post.history_view() == h0
                            && post.queue_view().len() == q0.len() + spec_delivery_len(h.feature)
                            && spec_delivered(
                            post.queue_view().skip(q0.len() as int),
                            c.conn,
                            c.node,
                            h.feature,
                            bytes.skip(hlen),
                        ),
                        crate::router::RouteActionV::Next(next_conn, _next_node) => {
                            &&& post.history_view() == h0
                            &&& if bytes.len() > 2 && bytes[2] > 0 {
                                match spec_find_conn(conns, next_conn) {
                                    Some(t) => post.queue_view().len() == q0.len() + 1
                                        && spec_is_udp_to(
                                        post.queue_view().last(),
                                        t.addr,
                                        bytes.update(2, (bytes[2] - 1) as u8),
                                    ),
                                    None => post.queue_view() == q0,
                                }
                            } else {
                                post.queue_view() == q0
                            }
                        },
                        crate::router::RouteActionV::Broadcast { local, remotes } => {
                            let dup = match h.route {
                                RouteRuleV::Broadcast(s) => h0.contains(
                                    (h.from_node, h.feature, s),
                                ),
                                _ => false,
                            };
                            let h1 = match h.route {
                                RouteRuleV::Broadcast(s) => h0.push((h.from_node, h.feature, s)),
                                _ => h0,
                            };
                            if dup {
                                post.queue_view() == q0 && post.history_view() == h0
                            } else {
                                &&& post.history_view() == h1
                                &&& if bytes.len() > 2 && bytes[2] > 0 {
                                    let dec = bytes.update(2, (bytes[2] - 1) as u8);
                                    let dl: int = if local {
                                        spec_delivery_len(h.feature)
                                    } else {
                                        0
                                    };
                                    let addrs = spec_fanout_addrs(conns, remotes);
                                    let extra: int = if addrs.len() > 0 {
                                        1int
                                    } else {
                                        0int
                                    };
                                    &&& post.queue_view().len() == q0.len() + dl + extra
                                    &&& (local ==> spec_delivered(
                                        post.queue_view().subrange(
                                            q0.len() as int,
                                            q0.len() + dl,
                                        ),
                                        c.conn,
                                        c.node,
                                        h.feature,
                                        dec.skip(hlen),
                                    ))
                                    &&& (addrs.len() > 0 ==> spec_is_udp_multi(
                                        post.queue_view().last(),
                                        addrs,
                                        dec,
                                    ))
                                } else {
                                    post.queue_view() == q0
                                }
                            }
                        },
                    }
                },
            },
        }
    }

    /// The packet path for a datagram that is not a neighbour control.
    ///
    /// Duplicate suppression and the monotone TTL both stand in this
    /// contract: a broadcast whose source, feature and sequence number
    /// are already in the history changes nothing at all; every datagram
    /// this call queues for the wire carries the incoming bytes with the
    /// TTL byte lowered by exactly one; and `spec_ingress_effect` pins
    /// the queued outputs and the history for every case of the decision.
    pub fn incoming_route(&mut self, _now_ms: u64, remote: u64, buf: Vec<u8>)
        requires
            old(self).wf(),
        ensures
            final(self).wf(),
            // Duplicate suppression: a repeated broadcast is rejected whole.
            (match spec_decode_header(buf@) {
                Ok((h, _len)) => match h.route {
                    RouteRuleV::Broadcast(seq_no) => (old(self).history_view().contains(
                        (h.from_node, h.feature, seq_no),
                    ) ==> (final(self).queue_view() == old(self).queue_view()
                        && final(self).history_view() == old(self).history_view())),
                    _ => true,
                },
                Err(_) => final(self).queue_view() == old(self).queue_view(),
            }),
            // TTL decreases by exactly one on every forwarded copy.
            final(self).queue_view().len() >= old(self).queue_view().len(),
            forall|k: int| old(self).queue_view().len() <= k < final(self).queue_view().len()
                ==> match #[trigger] final(self).queue_view()[k] {
                    Output::Net(NetOutput::UdpPacket(_, b)) => buf@.len() > 2 && buf@[2] > 0 && b@
                        == buf@.update(2, (buf@[2] - 1) as u8),
                    Output::Net(NetOutput::UdpPackets(_, b)) => buf@.len() > 2 && buf@[2] > 0 && b@
                        == buf@.update(2, (buf@[2] - 1) as u8),
                    _ => true,
                },
            Self::spec_ingress_effect(*old(self), *final(self), remote, buf@),
    {
        let i = match self.find_by_addr(remote) {
            Some(i) => i,
            None => {
                return;
            },
        };
        let conn = self.conns[i].conn;
        let node = self.conns[i].node;
        let conn_secure = self.conns[i].secure;
        let (header, header_len) = match TransportMsgHeader::from_bytes(&buf) {
            Ok(pair) => pair,
            Err(_) => {
                return;
            },
        };
        if header.secure && !conn_secure {
            // The transport of this connection does not decrypt: the
            // payload cannot be read here.
            return;
        }
        let action = self.shadow.derive_action(&header.route, header.from_node, Some(node));
        match action {
            RouteAction::Reject => {},
            RouteAction::Local => {
                self.deliver_local(conn, node, &header, &buf, header_len);
            },
            RouteAction::Next(next_conn, _next_node) => {
                let mut out = buf;
                if !TransportMsgHeader::decrease_ttl(&mut out) {
                    return;
                }
                match self.find_by_conn(next_conn) {
                    Some(j) => {
                        let addr = self.conns[j].addr;
                        self.queue.push_back(Output::Net(NetOutput::UdpPacket(addr, out)));
                    },
                    None => {},
                }
            },
            RouteAction::Broadcast { local, remotes } => {
                match &header.route {
                    RouteRule::Broadcast(seq_no) => {
                        let fresh = self.history.check_and_insert(
                            (header.from_node, header.feature, *seq_no),
                        );
                        if !fresh {
                            return;
                        }
                    },
                    _ => {},
                }
                let mut out = buf;
                if !TransportMsgHeader::decrease_ttl(&mut out) {
                    return;
                }
                if local {
                    self.deliver_local(conn, node, &header, &out, header_len);
                }
                let ghost conns0 = self.conns_view();
                proof {
                    assert(remotes@.skip(0) =~= remotes@);
                }
                let mut addrs: Vec<u64> = Vec::new();
                let mut k: usize = 0;
                while k < remotes.len()
                    invariant
                        self.wf(),
                        k <= remotes@.len(),
                        conns0 == self.conns_view(),
                        addrs@ + spec_fanout_addrs(conns0, remotes@.skip(k as int))
                            == spec_fanout_addrs(conns0, remotes@),
                    decreases remotes.len() - k,
                {
                    proof {
                        assert(remotes@.skip(k as int)[0] == remotes@[k as int]);
                        assert(remotes@.skip(k as int).skip(1) =~= remotes@.skip(k as int + 1));
                    }
                    let ghost pre_addrs = addrs@;
                    match self.find_by_conn(remotes[k].0) {
                        Some(j) => {
                            addrs.push(self.conns[j].addr);
                            proof {
                                let t = spec_find_conn(conns0, remotes@[k as int].0).unwrap();
                                assert(pre_addrs.push(t.addr) + spec_fanout_addrs(
                                    conns0,
                                    remotes@.skip(k as int + 1),
                                ) =~= pre_addrs + (seq![t.addr] + spec_fanout_addrs(
                                    conns0,
                                    remotes@.skip(k as int + 1),
                                )));
                            }
                        },
                        None => {
                            proof {
                                assert(pre_addrs + (Seq::<u64>::empty() + spec_fanout_addrs(
                                    conns0,
                                    remotes@.skip(k as int + 1),
                                )) =~= pre_addrs + spec_fanout_addrs(
                                    conns0,
                                    remotes@.skip(k as int + 1),
                                ));
                            }
                        },
                    }
                    k += 1;
                }
                proof {
                    assert(remotes@.skip(remotes@.len() as int) =~= Seq::<(u64, u32)>::empty());
                    assert(addrs@ + Seq::<u64>::empty() =~= addrs@);
                    assert(addrs@ == spec_fanout_addrs(conns0, remotes@));
                }
                if addrs.len() > 0 {
                    self.queue.push_back(Output::Net(NetOutput::UdpPackets(addrs, out)));
                }
            },
        }
    }

    /// The header stamped on a packet this node originates.
    pub open spec fn spec_stamped(node: NodeId, feature: u8, ttl: u8, route: RouteRuleV) -> HeaderV {
        HeaderV { secure: false, feature, ttl, meta: 0, from_node: Some(node), route }
    }

    /// The whole effect of originating `payload` under `rule`: a rejected
    /// route queues nothing; local delivery hands the payload to the host
    /// when it is a data datagram; a forward queues exactly one stamped
    /// packet to the next hop's address when the hop is pinned and the
    /// rule fits the wire; a fan-out delivers the local copy first, then
    /// one stamped datagram to the pinned fan-out addresses.
    pub open spec fn spec_egress_effect(
        pre: Self,
        post: Self,
        feature: u8,
        rule: RouteRuleV,
        ttl: u8,
        payload: Seq<u8>,
    ) -> bool {
        let conns = pre.conns_view();
        let q0 = pre.queue_view();
        let stamped = crate::header::spec_encode_header(Self::spec_stamped(pre.node_view(), feature, ttl, rule));
        let fits = crate::header::spec_header_wf(Self::spec_stamped(pre.node_view(), feature, ttl, rule));
        let is_data = feature == spec_feature_id(Features::Data);
        &&& Self::spec_routing_frame(pre, post)
        &&& post.history_view() == pre.history_view()
        &&& q0.is_prefix_of(post.queue_view())
        &&& match crate::router::spec_derive_action(
            pre.spec_shadow()@,
            rule,
            Some(pre.node_view()),
            None,
        ) {
            crate::router::RouteActionV::Reject => post.queue_view() == q0,
            crate::router::RouteActionV::Local => if is_data {
                post.queue_view().len() == q0.len() + 1 && spec_is_recv(
                    post.queue_view().last(),
                    payload,
                )
            } else {
                post.queue_view() == q0
            },
            crate::router::RouteActionV::Next(next_conn, _next_node) => match spec_find_conn(
                conns,
                next_conn,
            ) {
                Some(t) => if fits {
                    post.queue_view().len() == q0.len() + 1 && spec_is_udp_to(
                        post.queue_view().last(),
                        t.addr,
                        stamped + payload,
                    )
                } else {
                    post.queue_view() == q0
                },
                None => post.queue_view() == q0,
            },
            crate::router::RouteActionV::Broadcast { local, remotes } => {
                let dl: int = if local && is_data {
                    1
                } else {
                    0
                };
                let addrs = spec_fanout_addrs(conns, remotes);
                let extra: int = if fits && addrs.len() > 0 {
                    1
                } else {
                    0
                };
                &&& post.queue_view().len() == q0.len() + dl + extra
                &&& (local && is_data ==> spec_is_recv(post.queue_view()[q0.len() as int], payload))
                &&& (fits && addrs.len() > 0 ==> spec_is_udp_multi(
                    post.queue_view().last(),
                    addrs,
                    stamped + payload,
                ))
            },
        }
    }

    /// The packet path for a payload this node originates: the shadow
    /// router decides, the header is stamped with this node as source,
    /// and the packet goes out, is delivered locally, or both;
    /// `spec_egress_effect` pins the queued outputs for every case of the
    /// decision, and every datagram queued for the wire is exactly the
    /// stamped header followed by the payload.
    pub fn outgoing_route(&mut self, feature: u8, rule: RouteRule, ttl: u8, buf: Vec<u8>)
        requires
            old(self).wf(),
        ensures
            final(self).wf(),
            final(self).queue_view().len() >= old(self).queue_view().len(),
            forall|k: int| old(self).queue_view().len() <= k < final(self).queue_view().len()
                ==> match #[trigger] final(self).queue_view()[k] {
                    Output::Net(NetOutput::UdpPacket(_, b)) => b@ == crate::header::spec_encode_header(
                        DataPlane::<SC, SE, TC, TW, W>::spec_stamped(
                            old(self).node_view(),
                            feature,
                            ttl,
                            rule@,
                        ),
                    ) + buf@,
                    Output::Net(NetOutput::UdpPackets(_, b)) => b@ == crate::header::spec_encode_header(
                        DataPlane::<SC, SE, TC, TW, W>::spec_stamped(
                            old(self).node_view(),
                            feature,
                            ttl,
                            rule@,
                        ),
                    ) + buf@,
                    _ => true,
                },
            Self::spec_egress_effect(*old(self), *final(self), feature, rule@, ttl, buf@),
    {
        let action = self.shadow.derive_action(&rule, Some(self.node_id), None);
        match action {
            RouteAction::Reject => {},
            RouteAction::Local => {
                if matches!(Features::from_id(feature), Some(Features::Data)) {
                    self.queue.push_back(
                        Output::Ext(
                            ExtOut::FeaturesEvent(FeaturesEvent::Data(DataEvent::Recv(buf))),
                        ),
                    );
                }
            },
            RouteAction::Next(next_conn, _next_node) => {
                match self.find_by_conn(next_conn) {
                    Some(j) => {
                        let addr = self.conns[j].addr;
                        let header = TransportMsgHeader {
                            secure: false,
                            feature,
                            ttl,
                            meta: 0,
                            from_node: Some(self.node_id),
                            route: rule,
                        };
                        if !rule_encodable(&header.route) {
                            return;
                        }
                        let mut out = header.to_bytes();
                        append_bytes(&mut out, &buf);
                        self.queue.push_back(Output::Net(NetOutput::UdpPacket(addr, out)));
                    },
                    None => {},
                }
            },
            RouteAction::Broadcast { local, remotes } => {
                if local {
                    if matches!(Features::from_id(feature), Some(Features::Data)) {
                        let copy = tail_bytes(&buf, 0);
                        proof {
                            assert(copy@ =~= buf@);
                        }
                        self.queue.push_back(
                            Output::Ext(
                                ExtOut::FeaturesEvent(FeaturesEvent::Data(DataEvent::Recv(copy))),
                            ),
                        );
                    }
                }
                let header = TransportMsgHeader {
                    secure: false,
                    feature,
                    ttl,
                    meta: 0,
                    from_node: Some(self.node_id),
                    route: rule,
                };
                if !rule_encodable(&header.route) {
                    return;
                }
                let mut out = header.to_bytes();
                append_bytes(&mut out, &buf);
                let ghost conns0 = self.conns_view();
                proof {
                    assert(remotes@.skip(0) =~= remotes@);
                }
                let mut addrs: Vec<u64> = Vec::new();
                let mut k: usize = 0;
                while k < remotes.len()
                    invariant
                        self.wf(),
                        k <= remotes@.len(),
                        conns0 == self.conns_view(),
                        addrs@ + spec_fanout_addrs(conns0, remotes@.skip(k as int))
                            == spec_fanout_addrs(conns0, remotes@),
                    decreases remotes.len() - k,
                {
                    proof {
                        assert(remotes@.skip(k as int)[0] == remotes@[k as int]);
                        assert(remotes@.skip(k as int).skip(1) =~= remotes@.skip(k as int + 1));
                    }
                    let ghost pre_addrs = addrs@;
                    match self.find_by_conn(remotes[k].0) {
                        Some(j) => {
                            addrs.push(self.conns[j].addr);
                            proof {
                                let t = spec_find_conn(conns0, remotes@[k as int].0).unwrap();
                                assert(pre_addrs.push(t.addr) + spec_fanout_addrs(
                                    conns0,
                                    remotes@.skip(k as int + 1),
                                ) =~= pre_addrs + (seq![t.addr] + spec_fanout_addrs(
                                    conns0,
                                    remotes@.skip(k as int + 1),
                                )));
                            }
                        },
                        None => {
                            proof {
                                assert(pre_addrs + (Seq::<u64>::empty() + spec_fanout_addrs(
                                    conns0,
                                    remotes@.skip(k as int + 1),
                                )) =~= pre_addrs + spec_fanout_addrs(
                                    conns0,
                                    remotes@.skip(k as int + 1),
                                ));
                            }
                        },
                    }
                    k += 1;
                }
                proof {
                    assert(remotes@.skip(remotes@.len() as int) =~= Seq::<(u64, u32)>::empty());
                    assert(addrs@ + Seq::<u64>::empty() =~= addrs@);
                    assert(addrs@ == spec_fanout_addrs(conns0, remotes@));
                }
                if addrs.len() > 0 {
                    self.queue.push_back(Output::Net(NetOutput::UdpPackets(addrs, out)));
                }
            },
        }
    }

    /// The oldest output: the packet queue first, in order, then the
    /// service workers, drained fairly.
    pub fn pop_output(&mut self) -> (r: Option<Output<SC, SE, TC>>)
        requires
            old(self).wf(),
        ensures
            final(self).wf(),
            old(self).queue_view().len() > 0 ==> r == Some(old(self).queue_view()[0])
                && final(self).queue_view() == old(self).queue_view().skip(1),
    {
        match self.queue.pop_front() {
            Some(out) => {
                proof {
                    assert(final(self).queue_view() =~= old(self).queue_view().skip(1));
                }
                return Some(out);
            },
            None => {},
        }
        match self.services.pop_output() {
            Some((service, out)) => match out {
                ServiceWorkerOutput::ForwardControlToController(control) => Some(
                    Output::Control(LogicControl::ServicesControl(service, control)),
                ),
                ServiceWorkerOutput::ToController(tc) => Some(
                    Output::Control(LogicControl::Service(service, tc)),
                ),
                ServiceWorkerOutput::Event(ev) => Some(
                    Output::Ext(ExtOut::ServicesEvent(service, ev)),
                ),
            },
            None => None,
        }
    }
}

/// Appends `src` to `dst`.
pub(crate) fn append_bytes(dst: &mut Vec<u8>, src: &Vec<u8>)
    ensures
        final(dst)@ == old(dst)@ + src@,
{
    let mut i: usize = 0;
    while i < src.len()
        invariant
            i <= src@.len(),
            dst@ == old(dst)@ + src@.take(i as int),
        decreases src.len() - i,
    {
        dst.push(src[i]);
        i += 1;
        proof {
            assert(dst@ =~= old(dst)@ + src@.take(i as int));
        }
    }
    proof {
        assert(dst@ =~= old(dst)@ + src@);
    }
}

/// A copy of `src` from `from` on.
fn tail_bytes(src: &Vec<u8>, from: usize) -> (r: Vec<u8>)
    requires
        from <= src@.len(),
    ensures
        r@ == src@.skip(from as int),
{
    let mut r: Vec<u8> = Vec::new();
    let mut i: usize = from;
    while i < src.len()
        invariant
            from <= i <= src@.len(),
            r@ == src@.subrange(from as int, i as int),
        decreases src.len() - i,
    {
        r.push(src[i]);
        i += 1;
        proof {
            assert(r@ =~= src@.subrange(from as int, i as int));
        }
    }
    proof {
        assert(r@ =~= src@.skip(from as int));
    }
    r
}

/// Whether a rule fits the wire form: a node set of at most 255 members.
fn rule_encodable(rule: &RouteRule) -> (r: bool)
    ensures
        forall|h: HeaderV| h.route == rule@ ==> r == crate::header::spec_header_wf(h),
{
    match rule {
        RouteRule::ToNodes(ns) => ns.len() <= 255,
        _ => true,
    }
}

} // verus!
