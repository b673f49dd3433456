//! The controller plane: the single authoritative half of a node.
//!
//! It owns the neighbours manager, the feature controllers (the router
//! and its sync cadence among them) and the user services, and it drains
//! them into one output stream: the sub-engine that handled the last
//! input goes first, then a fair round-robin sweep.

use vstd::prelude::*;

use std::collections::VecDeque;

use crate::addr::{ConnId, NodeId};
use crate::features::{
    DataControl, FeaturesControl, FeaturesEvent, FeaturesToController, FeaturesToWorker,
    NeighboursFeatureControl, NeighboursFeatureEvent, RouterSyncControl,
};
use crate::metric::{Metric, BANDWIDTH_LIMIT};
use crate::neighbours::{
    ConnectionEvent, NeighboursControl, NeighboursInput, NeighboursManager, NeighboursOutput,
};
use crate::router::RouteRule;
use crate::router_sync::{RouterSyncFeature, RouterSyncOutput};
use crate::switcher::TaskSwitcher;

verus! {

/// The latency a fresh neighbour is assumed to have until its first
/// keepalive measures it.
pub const INITIAL_LATENCY_MS: u16 = 100;

/// What the host hands the controller.
#[derive(Debug)]
pub enum ExtIn<SC> {
    /// Open a connection to a remote address.
    ConnectTo(u64),
    /// Close the connection to a node.
    DisconnectFrom(NodeId),
    /// A control for one feature.
    FeaturesControl(FeaturesControl),
    /// A control for one service.
    ServicesControl(u8, SC),
}

/// What the controller hands the host.
#[derive(Debug)]
pub enum ExtOut<SE> {
    /// An event one feature reports.
    FeaturesEvent(FeaturesEvent),
    /// An event one service reports.
    ServicesEvent(u8, SE),
}

/// What a data-plane worker sends the controller.
#[derive(Debug)]
pub enum LogicControl<SC, TC> {
    /// A neighbour control packet, with the address it came from.
    NetNeighbour(u64, NeighboursControl),
    /// A feature worker's message to its controller half.
    Feature(FeaturesToController),
    /// A service worker's message to its controller half.
    Service(u8, TC),
    /// A feature control a worker forwards.
    FeaturesControl(FeaturesControl),
    /// A service control a worker forwards.
    ServicesControl(u8, SC),
    /// A feature event a worker hands to a service.
    ServiceEvent(u8, FeaturesEvent),
}

/// What the controller sends the data-plane workers.
#[derive(Debug)]
pub enum LogicEvent<TW> {
    /// Send a neighbour control packet to an address.
    NetNeighbour(u64, NeighboursControl),
    /// A connection is up: identifier, node, address, secure transport.
    Pin(ConnId, NodeId, u64, bool),
    /// A connection is gone.
    UnPin(ConnId),
    /// A message every feature worker replays.
    Feature(FeaturesToWorker),
    /// A message for one service's workers.
    Service(u8, TW),
    /// A feature packet for the node behind one connection: feature
    /// identifier, connection, payload.
    NetDirect(u8, ConnId, Vec<u8>),
    /// A feature packet routed by rule: feature identifier, rule, time to
    /// live, payload.
    NetRoute(u8, RouteRule, u8, Vec<u8>),
}

/// One input of the controller plane.
#[derive(Debug)]
pub enum Input<SC, TC> {
    /// From the host.
    Ext(ExtIn<SC>),
    /// From a data-plane worker.
    Control(LogicControl<SC, TC>),
    /// Wind the node down.
    ShutdownRequest,
}

/// One output of the controller plane.
#[derive(Debug)]
pub enum Output<SE, TW> {
    /// For the host.
    Ext(ExtOut<SE>),
    /// For the data-plane workers.
    Event(LogicEvent<TW>),
    /// Every neighbour acknowledged the shutdown.
    ShutdownSuccess,
}

/// What every service sub-engine receives besides its own inputs.
#[derive(Debug, Clone, Copy, PartialEq, Eq, Structural)]
pub enum ServiceSharedInput {
    /// Time advanced.
    Tick(u64),
    /// A neighbour connection rose, measured, or fell.
    Connection(ConnectionEvent),
}

/// One service's input.
#[derive(Debug)]
pub enum ServiceInput<SC, TC> {
    /// From the host.
    Control(SC),
    /// From the service's worker half.
    FromWorker(TC),
    /// An event a feature reports to this service.
    FeatureEvent(FeaturesEvent),
}

/// One service's output.
#[derive(Debug)]
pub enum ServiceOutput<SE, TW> {
    /// A control for one feature.
    FeatureControl(FeaturesControl),
    /// An event for the host.
    Event(SE),
    /// A message for this service's worker halves.
    BroadcastWorkers(TW),
}

/// A user service's controller half: ticked and fed connection events
/// like every sub-engine, driven by controls, drained through
/// `pop_output`.
pub trait Service<SC, SE, TC, TW> {
    /// The identifier the service answers under.
    fn service_id(&self) -> u8;

    /// Time advanced or a connection changed.
    fn on_shared_input(&mut self, now_ms: u64, input: ServiceSharedInput);

    /// One input addressed to this service.
    fn on_input(&mut self, now_ms: u64, input: ServiceInput<SC, TC>);

    /// The oldest pending output, if any.
    fn pop_output(&mut self) -> Option<ServiceOutput<SE, TW>>;
}

/// Which sub-engine handled the last input.
#[derive(Debug, Clone, Copy, PartialEq, Eq, Structural)]
enum TaskType {
    Neighbours,
    Features,
    Services,
}

/// The feature controllers: the router-sync engine and the queues of the
/// two plain features.
pub struct FeatureManager {
    router_sync: RouterSyncFeature,
    queue: VecDeque<FeatureOutput>,
}

/// What a feature controller hands the plane.
#[derive(Debug)]
pub enum FeatureOutput {
    /// A message every worker replays.
    ToWorkers(FeaturesToWorker),
    /// An event for the host.
    Event(FeaturesEvent),
    /// An encoded packet for the node behind one connection.
    SendDirect(u8, ConnId, Vec<u8>),
    /// A packet routed by rule: feature, rule, time to live, payload.
    SendRoute(u8, RouteRule, u8, Vec<u8>),
    /// Ask the neighbours manager to connect.
    NeighboursConnectTo(u64),
    /// Ask the neighbours manager to disconnect.
    NeighboursDisconnectFrom(NodeId),
}

impl FeatureManager {
    /// The router-sync engine.
    pub closed spec fn spec_rs(&self) -> RouterSyncFeature {
        self.router_sync
    }

    /// The plain features' pending outputs.
    pub closed spec fn queue_view(&self) -> Seq<FeatureOutput> {
        self.queue@
    }

    /// The feature controllers for `node_id`, providing each listed
    /// service.
    pub fn new(node_id: NodeId, services: &Vec<u8>) -> (r: FeatureManager)
        ensures
            r.wf(),
            r.queue_view().len() == 0,
    {
        let r = FeatureManager {
            router_sync: RouterSyncFeature::new(node_id, services),
            queue: VecDeque::new(),
        };
        r
    }

    /// The feature controllers' invariant.
    pub closed spec fn wf(&self) -> bool {
        self.router_sync.wf()
    }

    /// Time advanced: the router-sync cadence runs; when its interval has
    /// passed, one advertisement round is queued.
    pub fn on_tick(&mut self, now_ms: u64)
        requires
            old(self).wf(),
        ensures
            final(self).wf(),
            final(self).queue_view() == old(self).queue_view(),
            final(self).spec_rs().router_view() == old(self).spec_rs().router_view(),
            final(self).spec_rs().neighbours_view() == old(self).spec_rs().neighbours_view(),
            if old(self).spec_rs().spec_sync_due(now_ms) {
                &&& final(self).spec_rs().last_sync_val() == now_ms
                &&& old(self).spec_rs().queue_view().is_prefix_of(
                    final(self).spec_rs().queue_view(),
                )
                &&& crate::router_sync::spec_matches_adverts(
                    final(self).spec_rs().queue_view().skip(
                        old(self).spec_rs().queue_view().len() as int,
                    ),
                    crate::router_sync::spec_adverts(
                        old(self).spec_rs().router_view(),
                        old(self).spec_rs().neighbours_view(),
                        0,
                    ),
                )
            } else {
                final(self).spec_rs() == old(self).spec_rs()
            },
    {
        self.router_sync.on_tick(now_ms);
    }

    /// A neighbour connection rose, measured, or fell: the router-sync
    /// engine records the direct route (with the initial latency on rise,
    /// the measured one on stats) or forgets the connection, and the rise
    /// or fall is reported as a feature event.
    pub fn on_connection(&mut self, me: NodeId, event: ConnectionEvent)
        requires
            old(self).wf(),
        ensures
            final(self).wf(),
            match event {
                ConnectionEvent::Connected(conn, node, _addr) => {
                    &&& RouterSyncFeature::spec_connected_effect(
                        old(self).spec_rs(),
                        final(self).spec_rs(),
                        conn,
                        node,
                        (crate::metric::MetricV {
                            latency: INITIAL_LATENCY_MS,
                            bandwidth: BANDWIDTH_LIMIT,
                            hops: seq![node, me],
                        }),
                    )
                    &&& final(self).queue_view() == old(self).queue_view().push(
                        FeatureOutput::Event(
                            FeaturesEvent::Neighbours(
                                NeighboursFeatureEvent::Connected(conn, node),
                            ),
                        ),
                    )
                },
                ConnectionEvent::Stats(conn, node, rtt) => {
                    &&& RouterSyncFeature::spec_connected_effect(
                        old(self).spec_rs(),
                        final(self).spec_rs(),
                        conn,
                        node,
                        (crate::metric::MetricV {
                            latency: rtt,
                            bandwidth: BANDWIDTH_LIMIT,
                            hops: seq![node, me],
                        }),
                    )
                    &&& final(self).queue_view() == old(self).queue_view()
                },
                ConnectionEvent::Disconnected(conn, node, _addr) => {
                    &&& RouterSyncFeature::spec_disconnected_effect(
                        old(self).spec_rs(),
                        final(self).spec_rs(),
                        conn,
                    )
                    &&& final(self).queue_view() == old(self).queue_view().push(
                        FeatureOutput::Event(
                            FeaturesEvent::Neighbours(
                                NeighboursFeatureEvent::Disconnected(conn, node),
                            ),
                        ),
                    )
                },
            },
    {
        match event {
            ConnectionEvent::Connected(conn, node, _addr) => {
                let mut hops: Vec<NodeId> = Vec::new();
                hops.push(node);
                hops.push(me);
                proof {
                    assert(hops@ =~= seq![node, me]);
                }
                self.router_sync.on_conn_connected(
                    conn,
                    node,
                    Metric::new(INITIAL_LATENCY_MS, hops, BANDWIDTH_LIMIT),
                );
                self.queue.push_back(
                    FeatureOutput::Event(
                        FeaturesEvent::Neighbours(NeighboursFeatureEvent::Connected(conn, node)),
                    ),
                );
            },
            ConnectionEvent::Stats(conn, node, rtt) => {
                let mut hops: Vec<NodeId> = Vec::new();
                hops.push(node);
                hops.push(me);
                proof {
                    assert(hops@ =~= seq![node, me]);
                }
                self.router_sync.on_conn_connected(
                    conn,
                    node,
                    Metric::new(rtt, hops, BANDWIDTH_LIMIT),
                );
            },
            ConnectionEvent::Disconnected(conn, node, _addr) => {
                self.router_sync.on_conn_disconnected(conn);
                self.queue.push_back(
                    FeatureOutput::Event(
                        FeaturesEvent::Neighbours(
                            NeighboursFeatureEvent::Disconnected(conn, node),
                        ),
                    ),
                );
            },
        }
    }

    /// One feature control: connect and disconnect requests are queued
    /// for the neighbours manager, a data send is queued as a routed
    /// packet, and a sync trigger queues one advertisement round.
    pub fn on_control(&mut self, control: FeaturesControl)
        requires
            old(self).wf(),
        ensures
            final(self).wf(),
            match control {
                FeaturesControl::Neighbours(NeighboursFeatureControl::ConnectTo(addr)) => {
                    &&& final(self).spec_rs() == old(self).spec_rs()
                    &&& final(self).queue_view() == old(self).queue_view().push(
                        FeatureOutput::NeighboursConnectTo(addr),
                    )
                },
                FeaturesControl::Neighbours(NeighboursFeatureControl::DisconnectFrom(node)) => {
                    &&& final(self).spec_rs() == old(self).spec_rs()
                    &&& final(self).queue_view() == old(self).queue_view().push(
                        FeatureOutput::NeighboursDisconnectFrom(node),
                    )
                },
                FeaturesControl::Data(DataControl::SendRule(rule, ttl, buf)) => {
                    &&& final(self).spec_rs() == old(self).spec_rs()
                    &&& final(self).queue_view() == old(self).queue_view().push(
                        FeatureOutput::SendRoute(
                            crate::features::spec_feature_id(crate::features::Features::Data),
                            rule,
                            ttl,
                            buf,
                        ),
                    )
                },
                FeaturesControl::RouterSync(RouterSyncControl::TriggerSync) => {
                    &&& final(self).queue_view() == old(self).queue_view()
                    &&& final(self).spec_rs().router_view() == old(self).spec_rs().router_view()
                    &&& final(self).spec_rs().neighbours_view() == old(
                        self,
                    ).spec_rs().neighbours_view()
                    &&& old(self).spec_rs().queue_view().is_prefix_of(
                        final(self).spec_rs().queue_view(),
                    )
                    &&& crate::router_sync::spec_matches_adverts(
                        final(self).spec_rs().queue_view().skip(
                            old(self).spec_rs().queue_view().len() as int,
                        ),
                        crate::router_sync::spec_adverts(
                            old(self).spec_rs().router_view(),
                            old(self).spec_rs().neighbours_view(),
                            0,
                        ),
                    )
                },
            },
    {
        match control {
            FeaturesControl::Neighbours(NeighboursFeatureControl::ConnectTo(addr)) => {
                self.queue.push_back(FeatureOutput::NeighboursConnectTo(addr));
            },
            FeaturesControl::Neighbours(NeighboursFeatureControl::DisconnectFrom(node)) => {
                self.queue.push_back(FeatureOutput::NeighboursDisconnectFrom(node));
            },
            FeaturesControl::Data(DataControl::SendRule(rule, ttl, buf)) => {
                self.queue.push_back(
                    FeatureOutput::SendRoute(crate::features::Features::Data.id(), rule, ttl, buf),
                );
            },
            FeaturesControl::RouterSync(RouterSyncControl::TriggerSync) => {
                self.router_sync.on_trigger_sync();
            },
        }
    }

    /// A feature worker's message: a neighbour's advertisement, merged
    /// exactly as the router-sync engine states.
    pub fn on_from_worker(&mut self, msg: FeaturesToController)
        requires
            old(self).wf(),
        ensures
            final(self).wf(),
            final(self).queue_view() == old(self).queue_view(),
            match msg {
                FeaturesToController::RouterSyncRemote(conn, _node, buf) => RouterSyncFeature::spec_remote_effect(
                    old(self).spec_rs(),
                    final(self).spec_rs(),
                    conn,
                    buf@,
                ),
            },
    {
        match msg {
            FeaturesToController::RouterSyncRemote(conn, _node, buf) => {
                self.router_sync.on_remote(conn, &buf);
            },
        }
    }

    /// The oldest pending output: the plain features' queue first, then
    /// the router-sync engine's, each mapped to its plane-level form.
    pub fn pop_output(&mut self) -> (r: Option<FeatureOutput>)
        requires
            old(self).wf(),
        ensures
            final(self).wf(),
            if old(self).queue_view().len() > 0 {
                &&& r == Some(old(self).queue_view()[0])
                &&& final(self).queue_view() == old(self).queue_view().skip(1)
                &&& final(self).spec_rs() == old(self).spec_rs()
            } else {
                &&& final(self).queue_view() == old(self).queue_view()
                &&& final(self).spec_rs().router_view() == old(self).spec_rs().router_view()
                &&& final(self).spec_rs().neighbours_view() == old(
                    self,
                ).spec_rs().neighbours_view()
                &&& final(self).spec_rs().last_sync_val() == old(self).spec_rs().last_sync_val()
                &&& if old(self).spec_rs().queue_view().len() > 0 {
                    &&& final(self).spec_rs().queue_view() == old(
                        self,
                    ).spec_rs().queue_view().skip(1)
                    &&& r == Some(
                        match old(self).spec_rs().queue_view()[0] {
                            RouterSyncOutput::ToWorkers(tw) => FeatureOutput::ToWorkers(tw),
                            RouterSyncOutput::SendDirect(c, b) => FeatureOutput::SendDirect(
                                crate::features::spec_feature_id(
                                    crate::features::Features::RouterSync,
                                ),
                                c,
                                b,
                            ),
                            RouterSyncOutput::Event(ev) => FeatureOutput::Event(
                                FeaturesEvent::RouterSync(ev),
                            ),
                        },
                    )
                } else {
                    r is None && final(self).spec_rs().queue_view() == old(
                        self,
                    ).spec_rs().queue_view()
                }
            },
    {
        match self.queue.pop_front() {
            Some(out) => Some(out),
            None => {
                match self.router_sync.pop_output() {
                    Some(RouterSyncOutput::ToWorkers(tw)) => Some(FeatureOutput::ToWorkers(tw)),
                    Some(RouterSyncOutput::SendDirect(conn, buf)) => Some(
                        FeatureOutput::SendDirect(
                            crate::features::Features::RouterSync.id(),
                            conn,
                            buf,
                        ),
                    ),
                    Some(RouterSyncOutput::Event(ev)) => Some(
                        FeatureOutput::Event(FeaturesEvent::RouterSync(ev)),
                    ),
                    None => None,
                }
            },
        }
    }
}

/// The user services' controller halves, drained fairly.
pub struct ServiceManager<SC, SE, TC, TW, S: Service<SC, SE, TC, TW>> {
    services: Vec<S>,
    switcher: TaskSwitcher,
    last_input: Option<usize>,
    _marker: Option<(SC, SE, TC, TW)>,
}

impl<SC, SE, TC, TW, S: Service<SC, SE, TC, TW>> ServiceManager<SC, SE, TC, TW, S> {
    /// The managed services' invariant.
    pub closed spec fn wf(&self) -> bool {
        &&& self.switcher.wf()
        &&& self.switcher.spec_len() == self.services@.len() + 1
        &&& (match self.last_input {
            Some(i) => i < self.services@.len(),
            None => true,
        })
    }

    /// A manager over the given services.
    pub fn new(services: Vec<S>) -> (r: ServiceManager<SC, SE, TC, TW, S>)
        requires
            services@.len() < 256,
        ensures
            r.wf(),
    {
        let len = services.len();
        ServiceManager {
            services,
            switcher: TaskSwitcher::new(len + 1),
            last_input: None,
            _marker: None,
        }
    }

    /// Time advanced or a connection changed: every service hears it.
    pub fn on_shared_input(&mut self, now_ms: u64, input: ServiceSharedInput)
        requires
            old(self).wf(),
        ensures
            final(self).wf(),
    {
        let mut i: usize = 0;
        while i < self.services.len()
            invariant
                self.wf(),
                i <= self.services@.len(),
            decreases self.services.len() - i,
        {
            let s = service_at_mut(&mut self.services, i);
            s.on_shared_input(now_ms, input);
            i += 1;
        }
    }

    /// One input for the service of `service_id`; that service is drained
    /// first afterwards.
    pub fn on_input(&mut self, now_ms: u64, service_id: u8, input: ServiceInput<SC, TC>)
        requires
            old(self).wf(),
        ensures
            final(self).wf(),
    {
        let mut i: usize = 0;
        while i < self.services.len()
            invariant
                self.wf(),
                i <= self.services@.len(),
            decreases self.services.len() - i,
        {
            let found = self.services[i].service_id() == service_id;
            if found {
                let s = service_at_mut(&mut self.services, i);
                s.on_input(now_ms, input);
                self.last_input = Some(i);
                return;
            }
            i += 1;
        }
    }

    /// The oldest pending output: the service that took the last input
    /// first, then a fair round-robin sweep over the rest.
    pub fn pop_output(&mut self) -> (r: Option<(u8, ServiceOutput<SE, TW>)>)
        requires
            old(self).wf(),
        ensures
            final(self).wf(),
    {
        match self.last_input {
            Some(i) => {
                let s = service_at_mut(&mut self.services, i);
                let id = s.service_id();
                match s.pop_output() {
                    Some(out) => {
                        return Some((id, out));
                    },
                    None => {
                        self.last_input = None;
                    },
                }
            },
            None => {},
        }
        loop
            invariant
                self.wf(),
            decreases self.switcher.spec_len() - self.switcher.spec_misses(),
        {
            let current = match self.switcher.current() {
                Some(c) => c,
                None => {
                    return None;
                },
            };
            if current < self.services.len() {
                let s = service_at_mut(&mut self.services, current);
                let id = s.service_id();
                let out = s.pop_output();
                let got = self.switcher.process(out);
                match got {
                    Some(out) => {
                        return Some((id, out));
                    },
                    None => {},
                }
            } else {
                let nothing: Option<()> = None;
                self.switcher.process(nothing);
            }
        }
    }
}

/// A mutable borrow of service `i`.
fn service_at_mut<S>(v: &mut Vec<S>, i: usize) -> (element: &mut S)
    requires
        i < old(v).len(),
    ensures
        *element == old(v)@[i as int],
        final(v)@ == old(v)@.update(i as int, *final(element)),
{
    &mut v[i]
}

/// The controller plane.
pub struct ControllerPlane<SC, SE, TC, TW, S: Service<SC, SE, TC, TW>> {
    node_id: NodeId,
    neighbours: NeighboursManager,
    features: FeatureManager,
    services: ServiceManager<SC, SE, TC, TW, S>,
    last_task: Option<TaskType>,
    switcher: TaskSwitcher,
}

impl<SC, SE, TC, TW, S: Service<SC, SE, TC, TW>> ControllerPlane<SC, SE, TC, TW, S> {
    /// This plane's node.
    pub closed spec fn spec_node(&self) -> NodeId {
        self.node_id
    }

    /// The neighbours manager.
    pub closed spec fn spec_neighbours(&self) -> NeighboursManager {
        self.neighbours
    }

    /// The feature controllers.
    pub closed spec fn spec_features(&self) -> FeatureManager {
        self.features
    }

    /// The user services.
    pub closed spec fn spec_services(&self) -> ServiceManager<SC, SE, TC, TW, S> {
        self.services
    }

    /// Which sub-engine the next `pop_output` drains first: the switcher
    /// index of the one that handled the last input, if any.
    pub closed spec fn bias_val(&self) -> Option<int> {
        match self.last_task {
            Some(TaskType::Neighbours) => Some(0int),
            Some(TaskType::Features) => Some(1int),
            Some(TaskType::Services) => Some(2int),
            None => None,
        }
    }

    /// The plane's invariant.
    pub closed spec fn wf(&self) -> bool {
        &&& self.neighbours.wf()
        &&& self.features.wf()
        &&& self.services.wf()
        &&& self.switcher.wf()
        &&& self.switcher.spec_len() == 3
    }

    /// A controller for `node_id`, running `session`, with the given
    /// services, each registered as locally provided.
    pub fn new(node_id: NodeId, session: u32, services: Vec<S>) -> (r: ControllerPlane<
        SC,
        SE,
        TC,
        TW,
        S,
    >)
        requires
            services@.len() < 256,
        ensures
            r.wf(),
    {
        let mut service_ids: Vec<u8> = Vec::new();
        let mut i: usize = 0;
        while i < services.len()
            invariant
                i <= services@.len(),
            decreases services.len() - i,
        {
            service_ids.push(services[i].service_id());
            i += 1;
        }
        ControllerPlane {
            node_id,
            neighbours: NeighboursManager::new(node_id, session),
            features: FeatureManager::new(node_id, &service_ids),
            services: ServiceManager::new(services),
            last_task: None,
            switcher: TaskSwitcher::new(3),
        }
    }

    /// Time advanced: the last-input bias is cleared, the keepalive sweep
    /// runs exactly as the neighbours manager states, the sync cadence
    /// runs exactly as the feature manager states, and every service
    /// hears the tick.
    pub fn on_tick(&mut self, now_ms: u64)
        requires
            old(self).wf(),
        ensures
            final(self).wf(),
            final(self).bias_val() is None,
            final(self).spec_neighbours().peers_view() == crate::neighbours::spec_tick_keep(
                old(self).spec_neighbours().peers_view(),
                now_ms,
            ),
            final(self).spec_neighbours().queue_view()
                == old(self).spec_neighbours().queue_view() + crate::neighbours::spec_tick_outputs(
                old(self).spec_neighbours().peers_view(),
                now_ms,
                old(self).spec_neighbours().node_val(),
                old(self).spec_neighbours().session_val(),
            ),
            final(self).spec_features().queue_view() == old(self).spec_features().queue_view(),
            final(self).spec_features().spec_rs().router_view()
                == old(self).spec_features().spec_rs().router_view(),
            old(self).spec_features().spec_rs().spec_sync_due(now_ms)
                ==> final(self).spec_features().spec_rs().last_sync_val() == now_ms
                && crate::router_sync::spec_matches_adverts(
                final(self).spec_features().spec_rs().queue_view().skip(
                    old(self).spec_features().spec_rs().queue_view().len() as int,
                ),
                crate::router_sync::spec_adverts(
                    old(self).spec_features().spec_rs().router_view(),
                    old(self).spec_features().spec_rs().neighbours_view(),
                    0,
                ),
            ),
    {
        self.last_task = None;
        self.neighbours.on_tick(now_ms);
        self.features.on_tick(now_ms);
        self.services.on_shared_input(now_ms, ServiceSharedInput::Tick(now_ms));
    }

    /// One input, dispatched exactly once to the sub-engine its variant
    /// addresses, with the other two untouched; the bias records that
    /// sub-engine, so the following `pop_output` calls drain it first.
    pub fn on_event(&mut self, now_ms: u64, event: Input<SC, TC>)
        requires
            old(self).wf(),
        ensures
            final(self).wf(),
            match event {
                Input::Ext(ExtIn::ConnectTo(addr)) => {
                    &&& final(self).bias_val() == Some(0int)
                    &&& final(self).spec_features() == old(self).spec_features()
                    &&& final(self).spec_services() == old(self).spec_services()
                    &&& if old(self).spec_neighbours().spec_knows_addr(addr) || old(
                        self,
                    ).spec_neighbours().conn_seed_val() == 0xffff_ffff_ffff_ffff {
                        final(self).spec_neighbours() == old(self).spec_neighbours()
                    } else {
                        &&& final(self).spec_neighbours().peers_view() == old(
                            self,
                        ).spec_neighbours().peers_view().push(
                            (crate::neighbours::Neighbour {
                                addr,
                                node: 0,
                                conn: old(self).spec_neighbours().conn_seed_val(),
                                state: crate::neighbours::NeighbourState::Connecting,
                                last_seen: now_ms,
                            }),
                        )
                        &&& final(self).spec_neighbours().queue_view() == old(
                            self,
                        ).spec_neighbours().queue_view().push(
                            NeighboursOutput::Net(
                                addr,
                                NeighboursControl::ConnectRequest {
                                    from: old(self).spec_neighbours().node_val(),
                                    session: old(self).spec_neighbours().session_val(),
                                },
                            ),
                        )
                    }
                },
                Input::Ext(ExtIn::DisconnectFrom(_node)) => {
                    &&& final(self).bias_val() == Some(0int)
                    &&& final(self).spec_features() == old(self).spec_features()
                    &&& final(self).spec_services() == old(self).spec_services()
                },
                Input::Ext(ExtIn::FeaturesControl(_control)) => {
                    &&& final(self).bias_val() == Some(1int)
                    &&& final(self).spec_neighbours() == old(self).spec_neighbours()
                    &&& final(self).spec_services() == old(self).spec_services()
                },
                Input::Ext(ExtIn::ServicesControl(..)) => {
                    &&& final(self).bias_val() == Some(2int)
                    &&& final(self).spec_neighbours() == old(self).spec_neighbours()
                    &&& final(self).spec_features() == old(self).spec_features()
                },
                Input::Control(LogicControl::NetNeighbour(remote, control)) => {
                    &&& final(self).bias_val() == Some(0int)
                    &&& final(self).spec_features() == old(self).spec_features()
                    &&& final(self).spec_services() == old(self).spec_services()
                    &&& NeighboursManager::spec_control_effect(
                        old(self).spec_neighbours(),
                        final(self).spec_neighbours(),
                        now_ms,
                        remote,
                        control,
                    )
                },
                Input::Control(LogicControl::Feature(msg)) => {
                    &&& final(self).bias_val() == Some(1int)
                    &&& final(self).spec_neighbours() == old(self).spec_neighbours()
                    &&& final(self).spec_services() == old(self).spec_services()
                    &&& final(self).spec_features().queue_view() == old(
                        self,
                    ).spec_features().queue_view()
                    &&& (match msg {
                        FeaturesToController::RouterSyncRemote(conn, _node, buf) => RouterSyncFeature::spec_remote_effect(
                            old(self).spec_features().spec_rs(),
                            final(self).spec_features().spec_rs(),
                            conn,
                            buf@,
                        ),
                    })
                },
                Input::Control(LogicControl::Service(..)) => {
                    &&& final(self).bias_val() == Some(2int)
                    &&& final(self).spec_neighbours() == old(self).spec_neighbours()
                    &&& final(self).spec_features() == old(self).spec_features()
                },
                Input::Control(LogicControl::FeaturesControl(_control)) => {
                    &&& final(self).bias_val() == Some(1int)
                    &&& final(self).spec_neighbours() == old(self).spec_neighbours()
                    &&& final(self).spec_services() == old(self).spec_services()
                },
                Input::Control(LogicControl::ServicesControl(..)) => {
                    &&& final(self).bias_val() == Some(2int)
                    &&& final(self).spec_neighbours() == old(self).spec_neighbours()
                    &&& final(self).spec_features() == old(self).spec_features()
                },
                Input::Control(LogicControl::ServiceEvent(..)) => {
                    &&& final(self).bias_val() == Some(2int)
                    &&& final(self).spec_neighbours() == old(self).spec_neighbours()
                    &&& final(self).spec_features() == old(self).spec_features()
                },
                Input::ShutdownRequest => {
                    &&& final(self).bias_val() == Some(0int)
                    &&& final(self).spec_features() == old(self).spec_features()
                    &&& final(self).spec_services() == old(self).spec_services()
                },
            },
    {
        match event {
            Input::Ext(ExtIn::ConnectTo(addr)) => {
                self.last_task = Some(TaskType::Neighbours);
                self.neighbours.on_input(now_ms, NeighboursInput::ConnectTo(addr));
            },
            Input::Ext(ExtIn::DisconnectFrom(node)) => {
                self.last_task = Some(TaskType::Neighbours);
                self.neighbours.on_input(now_ms, NeighboursInput::DisconnectFrom(node));
            },
            Input::Ext(ExtIn::FeaturesControl(control)) => {
                self.last_task = Some(TaskType::Features);
                self.features.on_control(control);
            },
            Input::Ext(ExtIn::ServicesControl(service, control)) => {
                self.last_task = Some(TaskType::Services);
                self.services.on_input(now_ms, service, ServiceInput::Control(control));
            },
            Input::Control(LogicControl::NetNeighbour(remote, control)) => {
                self.last_task = Some(TaskType::Neighbours);
                self.neighbours.on_input(now_ms, NeighboursInput::Control(remote, control));
            },
            Input::Control(LogicControl::Feature(msg)) => {
                self.last_task = Some(TaskType::Features);
                self.features.on_from_worker(msg);
            },
            Input::Control(LogicControl::Service(service, msg)) => {
                self.last_task = Some(TaskType::Services);
                self.services.on_input(now_ms, service, ServiceInput::FromWorker(msg));
            },
            Input::Control(LogicControl::FeaturesControl(control)) => {
                self.last_task = Some(TaskType::Features);
                self.features.on_control(control);
            },
            Input::Control(LogicControl::ServicesControl(service, control)) => {
                self.last_task = Some(TaskType::Services);
                self.services.on_input(now_ms, service, ServiceInput::Control(control));
            },
            Input::Control(LogicControl::ServiceEvent(service, event)) => {
                self.last_task = Some(TaskType::Services);
                self.services.on_input(now_ms, service, ServiceInput::FeatureEvent(event));
            },
            Input::ShutdownRequest => {
                self.last_task = Some(TaskType::Neighbours);
                self.neighbours.on_input(now_ms, NeighboursInput::ShutdownRequest);
            },
        }
    }

    /// The oldest pending output: the sub-engine that handled the last
    /// input first, then a fair round-robin sweep. A biased sub-engine
    /// with pending output yields its oldest item, mapped to the plane's
    /// form; `None` comes only with the bias spent.
    #[verifier::loop_isolation(false)]
    pub fn pop_output(&mut self, now_ms: u64) -> (r: Option<Output<SE, TW>>)
        requires
            old(self).wf(),
        ensures
            final(self).wf(),
            r is None ==> final(self).bias_val() is None,
            (old(self).bias_val() == Some(0int) && old(self).spec_neighbours().queue_view().len()
                > 0) ==> match old(self).spec_neighbours().queue_view()[0] {
                NeighboursOutput::Net(addr, control) => r == Some(
                    Output::<SE, TW>::Event(LogicEvent::NetNeighbour(addr, control)),
                ) && final(self).spec_neighbours().queue_view() == old(
                    self,
                ).spec_neighbours().queue_view().skip(1),
                NeighboursOutput::Event(ConnectionEvent::Connected(conn, node, addr)) => r == Some(
                    Output::<SE, TW>::Event(LogicEvent::Pin(conn, node, addr, false)),
                ) && final(self).spec_neighbours().queue_view() == old(
                    self,
                ).spec_neighbours().queue_view().skip(1),
                NeighboursOutput::Event(ConnectionEvent::Stats(..)) => true,
                NeighboursOutput::Event(ConnectionEvent::Disconnected(conn, _node, _addr)) => r
                    == Some(Output::<SE, TW>::Event(LogicEvent::UnPin(conn)))
                    && final(self).spec_neighbours().queue_view() == old(
                    self,
                ).spec_neighbours().queue_view().skip(1),
                NeighboursOutput::ShutdownResponse => r == Some(Output::<SE, TW>::ShutdownSuccess)
                    && final(self).spec_neighbours().queue_view() == old(
                    self,
                ).spec_neighbours().queue_view().skip(1),
            },
            (old(self).bias_val() == Some(1int) && old(self).spec_features().queue_view().len()
                > 0) ==> match old(self).spec_features().queue_view()[0] {
                FeatureOutput::ToWorkers(tw) => r == Some(
                    Output::<SE, TW>::Event(LogicEvent::Feature(tw)),
                ) && final(self).spec_features().queue_view() == old(
                    self,
                ).spec_features().queue_view().skip(1),
                FeatureOutput::Event(ev) => r == Some(
                    Output::<SE, TW>::Ext(ExtOut::FeaturesEvent(ev)),
                ) && final(self).spec_features().queue_view() == old(
                    self,
                ).spec_features().queue_view().skip(1),
                FeatureOutput::SendDirect(f, c, b) => r == Some(
                    Output::<SE, TW>::Event(LogicEvent::NetDirect(f, c, b)),
                ) && final(self).spec_features().queue_view() == old(
                    self,
                ).spec_features().queue_view().skip(1),
                FeatureOutput::SendRoute(f, rule, t, b) => r == Some(
                    Output::<SE, TW>::Event(LogicEvent::NetRoute(f, rule, t, b)),
                ) && final(self).spec_features().queue_view() == old(
                    self,
                ).spec_features().queue_view().skip(1),
                FeatureOutput::NeighboursConnectTo(_) => true,
                FeatureOutput::NeighboursDisconnectFrom(_) => true,
            },
    {
        match self.last_task {
            Some(TaskType::Neighbours) => {
                match self.pop_neighbours(now_ms) {
                    Some(out) => {
                        return Some(out);
                    },
                    None => {
                        self.last_task = None;
                    },
                }
            },
            Some(TaskType::Features) => {
                match self.pop_features(now_ms) {
                    Some(out) => {
                        return Some(out);
                    },
                    None => {
                        self.last_task = None;
                    },
                }
            },
            Some(TaskType::Services) => {
                match self.pop_services(now_ms) {
                    Some(out) => {
                        return Some(out);
                    },
                    None => {
                        self.last_task = None;
                    },
                }
            },
            None => {},
        }
        loop
            invariant
                self.wf(),
                self.last_task is None,
            decreases self.switcher.spec_len() - self.switcher.spec_misses(),
        {
            let current = match self.switcher.current() {
                Some(c) => c,
                None => {
                    return None;
                },
            };
            let out = if current == 0 {
                self.pop_neighbours(now_ms)
            } else if current == 1 {
                self.pop_features(now_ms)
            } else {
                self.pop_services(now_ms)
            };
            let got = self.switcher.process(out);
            match got {
                Some(out) => {
                    return Some(out);
                },
                None => {},
            }
        }
    }

    /// Drains the neighbours manager: wire packets go out as events, a
    /// risen connection is pinned and fed to features and services, a
    /// fallen one is unpinned.
    fn pop_neighbours(&mut self, now_ms: u64) -> (r: Option<Output<SE, TW>>)
        requires
            old(self).wf(),
        ensures
            final(self).wf(),
            final(self).switcher == old(self).switcher,
            final(self).bias_val() == old(self).bias_val(),
            final(self).spec_node() == old(self).spec_node(),
            if old(self).spec_neighbours().queue_view().len() == 0 {
                r is None && *final(self) == *old(self)
            } else {
                &&& final(self).spec_neighbours().queue_view() == old(
                    self,
                ).spec_neighbours().queue_view().skip(1)
                &&& final(self).spec_neighbours().peers_view() == old(
                    self,
                ).spec_neighbours().peers_view()
                &&& match old(self).spec_neighbours().queue_view()[0] {
                    NeighboursOutput::Net(addr, control) => r == Some(
                        Output::<SE, TW>::Event(LogicEvent::NetNeighbour(addr, control)),
                    ) && final(self).spec_features() == old(self).spec_features() && final(self).spec_services() == old(self).spec_services(),
                    NeighboursOutput::Event(ConnectionEvent::Connected(conn, node, addr)) => r
                        == Some(Output::<SE, TW>::Event(LogicEvent::Pin(conn, node, addr, false)))
                        && RouterSyncFeature::spec_connected_effect(
                        old(self).spec_features().spec_rs(),
                        final(self).spec_features().spec_rs(),
                        conn,
                        node,
                        (crate::metric::MetricV {
                            latency: INITIAL_LATENCY_MS,
                            bandwidth: BANDWIDTH_LIMIT,
                            hops: seq![node, old(self).spec_node()],
                        }),
                    ),
                    NeighboursOutput::Event(ConnectionEvent::Stats(..)) => true,
                    NeighboursOutput::Event(ConnectionEvent::Disconnected(conn, _node, _addr)) => r
                        == Some(Output::<SE, TW>::Event(LogicEvent::UnPin(conn)))
                        && RouterSyncFeature::spec_disconnected_effect(
                        old(self).spec_features().spec_rs(),
                        final(self).spec_features().spec_rs(),
                        conn,
                    ),
                    NeighboursOutput::ShutdownResponse => r == Some(
                        Output::<SE, TW>::ShutdownSuccess,
                    ) && final(self).spec_features() == old(self).spec_features() && final(self).spec_services() == old(self).spec_services(),
                }
            },
    {
        let out = match self.neighbours.pop_output() {
            Some(out) => out,
            None => {
                return None;
            },
        };
        match out {
            NeighboursOutput::Net(addr, control) => Some(
                Output::Event(LogicEvent::NetNeighbour(addr, control)),
            ),
            NeighboursOutput::Event(event) => {
                self.features.on_connection(self.node_id, event);
                self.services.on_shared_input(now_ms, ServiceSharedInput::Connection(event));
                match event {
                    ConnectionEvent::Connected(conn, node, addr) => Some(
                        Output::Event(LogicEvent::Pin(conn, node, addr, false)),
                    ),
                    ConnectionEvent::Stats(..) => None,
                    ConnectionEvent::Disconnected(conn, _node, _addr) => Some(
                        Output::Event(LogicEvent::UnPin(conn)),
                    ),
                }
            },
            NeighboursOutput::ShutdownResponse => Some(Output::ShutdownSuccess),
        }
    }

    /// Drains the feature controllers.
    fn pop_features(&mut self, now_ms: u64) -> (r: Option<Output<SE, TW>>)
        requires
            old(self).wf(),
        ensures
            final(self).wf(),
            final(self).switcher == old(self).switcher,
            final(self).bias_val() == old(self).bias_val(),
            final(self).spec_node() == old(self).spec_node(),
            old(self).spec_features().queue_view().len() > 0 ==> {
                &&& final(self).spec_features().queue_view() == old(
                    self,
                ).spec_features().queue_view().skip(1)
                &&& final(self).spec_features().spec_rs() == old(self).spec_features().spec_rs()
                &&& final(self).spec_services() == old(self).spec_services()
                &&& match old(self).spec_features().queue_view()[0] {
                    FeatureOutput::ToWorkers(tw) => r == Some(
                        Output::<SE, TW>::Event(LogicEvent::Feature(tw)),
                    ) && final(self).spec_neighbours() == old(self).spec_neighbours(),
                    FeatureOutput::Event(ev) => r == Some(
                        Output::<SE, TW>::Ext(ExtOut::FeaturesEvent(ev)),
                    ) && final(self).spec_neighbours() == old(self).spec_neighbours(),
                    FeatureOutput::SendDirect(f, c, b) => r == Some(
                        Output::<SE, TW>::Event(LogicEvent::NetDirect(f, c, b)),
                    ) && final(self).spec_neighbours() == old(self).spec_neighbours(),
                    FeatureOutput::SendRoute(f, rule, t, b) => r == Some(
                        Output::<SE, TW>::Event(LogicEvent::NetRoute(f, rule, t, b)),
                    ) && final(self).spec_neighbours() == old(self).spec_neighbours(),
                    FeatureOutput::NeighboursConnectTo(_) => r is None,
                    FeatureOutput::NeighboursDisconnectFrom(_) => r is None,
                }
            },
    {
        let out = match self.features.pop_output() {
            Some(out) => out,
            None => {
                return None;
            },
        };
        match out {
            FeatureOutput::ToWorkers(tw) => Some(Output::Event(LogicEvent::Feature(tw))),
            FeatureOutput::Event(ev) => Some(Output::Ext(ExtOut::FeaturesEvent(ev))),
            FeatureOutput::SendDirect(feature, conn, buf) => Some(
                Output::Event(LogicEvent::NetDirect(feature, conn, buf)),
            ),
            FeatureOutput::SendRoute(feature, rule, ttl, buf) => Some(
                Output::Event(LogicEvent::NetRoute(feature, rule, ttl, buf)),
            ),
            FeatureOutput::NeighboursConnectTo(addr) => {
                self.neighbours.on_input(now_ms, NeighboursInput::ConnectTo(addr));
                None
            },
            FeatureOutput::NeighboursDisconnectFrom(node) => {
                self.neighbours.on_input(now_ms, NeighboursInput::DisconnectFrom(node));
                None
            },
        }
    }

    /// Drains the services.
    fn pop_services(&mut self, _now_ms: u64) -> (r: Option<Output<SE, TW>>)
        requires
            old(self).wf(),
        ensures
            final(self).wf(),
            final(self).switcher == old(self).switcher,
            final(self).bias_val() == old(self).bias_val(),
            final(self).spec_node() == old(self).spec_node(),
            final(self).spec_neighbours() == old(self).spec_neighbours(),
    {
        let (service, out) = match self.services.pop_output() {
            Some(pair) => pair,
            None => {
                return None;
            },
        };
        match out {
            ServiceOutput::FeatureControl(control) => {
                self.features.on_control(control);
                None
            },
            ServiceOutput::Event(ev) => Some(Output::Ext(ExtOut::ServicesEvent(service, ev))),
            ServiceOutput::BroadcastWorkers(tw) => Some(
                Output::Event(LogicEvent::Service(service, tw)),
            ),
        }
    }
}

} // verus!
