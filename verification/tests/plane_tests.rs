use sdn_core::controller::{
    ControllerPlane, ExtIn, ExtOut, Input as ControllerInput, LogicControl, LogicEvent,
    Output as ControllerOutput, Service, ServiceInput, ServiceManager, ServiceOutput,
    ServiceSharedInput,
};
use sdn_core::dataplane::{
    DataPlane, Input as WorkerInput, NetInput, NetOutput, Output as WorkerOutput, ServiceWorker,
    ServiceWorkerInput, ServiceWorkerOutput,
};
use sdn_core::features::FeaturesToWorker;
use sdn_core::header::TransportMsgHeader;
use sdn_core::metric::Metric;
use sdn_core::neighbours::NeighboursControl;
use sdn_core::router::RouteRule;

/// A worker half that does nothing; these tests run no services.
struct NoServiceWorker;

impl ServiceWorker<u8, u8, u8, u8> for NoServiceWorker {
    fn service_id(&self) -> u8 {
        0
    }

    fn on_tick(&mut self, _now_ms: u64) {}

    fn on_input(&mut self, _now_ms: u64, _input: ServiceWorkerInput<u8, u8, u8>) {}

    fn pop_output(&mut self) -> Option<ServiceWorkerOutput<u8, u8, u8>> {
        None
    }
}

type Worker = DataPlane<u8, u8, u8, u8, NoServiceWorker>;
type WIn = WorkerInput<u8, u8, u8>;

fn pin(plane: &mut Worker, conn: u64, node: u32, addr: u64) {
    plane.on_event(0, WIn::Event(LogicEvent::Pin(conn, node, addr, false)));
    plane.on_event(
        0,
        WIn::Event(LogicEvent::Feature(FeaturesToWorker::ShadowAddDirect(
            conn,
            node,
            Metric::new(1, vec![node, 0], 1),
        ))),
    );
}

fn drain(plane: &mut Worker) -> Vec<WorkerOutput<u8, u8, u8>> {
    let mut outs = vec![];
    while let Some(out) = plane.pop_output() {
        outs.push(out);
    }
    outs
}

fn broadcast_packet(from: u32, seq: u16, ttl: u8, payload: &[u8]) -> Vec<u8> {
    let header = TransportMsgHeader {
        secure: false,
        feature: 1,
        ttl,
        meta: 0,
        from_node: Some(from),
        route: RouteRule::Broadcast(seq),
    };
    let mut bytes = header.to_bytes();
    bytes.extend_from_slice(payload);
    bytes
}

#[test]
fn broadcast_dedup() {
    // The same broadcast datagram ingested twice, from two different
    // remotes: the second ingress yields nothing at all.
    let mut plane: Worker = DataPlane::new(0, 0, vec![]);
    pin(&mut plane, 1, 2, 1001);
    pin(&mut plane, 2, 3, 1002);
    drain(&mut plane);

    let packet = broadcast_packet(9, 7, 4, b"hello");

    plane.on_event(5, WIn::Net(NetInput::UdpPacket(1001, packet.clone())));
    let first = drain(&mut plane);
    assert!(!first.is_empty());

    plane.on_event(6, WIn::Net(NetInput::UdpPacket(1002, packet)));
    let second = drain(&mut plane);
    assert_eq!(second.len(), 0);
}

#[test]
fn broadcast_delivers_and_fans_out() {
    let mut plane: Worker = DataPlane::new(0, 0, vec![]);
    pin(&mut plane, 1, 2, 1001);
    pin(&mut plane, 2, 3, 1002);
    drain(&mut plane);

    let packet = broadcast_packet(9, 7, 4, b"hello");
    plane.on_event(5, WIn::Net(NetInput::UdpPacket(1001, packet.clone())));
    let outs = drain(&mut plane);

    let mut local = 0;
    let mut fanned: Vec<u64> = vec![];
    for out in outs {
        match out {
            WorkerOutput::Ext(_) => local += 1,
            WorkerOutput::Net(NetOutput::UdpPackets(addrs, bytes)) => {
                fanned = addrs;
                // The forwarded copy is the incoming one with the TTL
                // lowered by exactly one.
                let mut expect = packet.clone();
                expect[2] -= 1;
                assert_eq!(bytes, expect);
            }
            _ => panic!("unexpected output"),
        }
    }
    assert_eq!(local, 1);
    // The relay (node 2 behind 1001) is excluded; only 1002 remains.
    assert_eq!(fanned, vec![1002]);
}

#[test]
fn forward_decrements_ttl() {
    let mut plane: Worker = DataPlane::new(0, 0x0100, vec![]);
    pin(&mut plane, 1, 0x0102, 1001);
    pin(&mut plane, 2, 0x0105, 1002);
    drain(&mut plane);

    // A packet for node 0x0105 arriving from node 0x0102.
    let header = TransportMsgHeader {
        secure: false,
        feature: 1,
        ttl: 9,
        meta: 0,
        from_node: Some(0x0102),
        route: RouteRule::ToNode(0x0105),
    };
    let mut packet = header.to_bytes();
    packet.extend_from_slice(b"pay");
    plane.on_event(5, WIn::Net(NetInput::UdpPacket(1001, packet.clone())));
    let outs = drain(&mut plane);
    assert_eq!(outs.len(), 1);
    match &outs[0] {
        WorkerOutput::Net(NetOutput::UdpPacket(addr, bytes)) => {
            assert_eq!(*addr, 1002);
            let mut expect = packet.clone();
            expect[2] = 8;
            assert_eq!(*bytes, expect);
        }
        _ => panic!("expected a forwarded packet"),
    }
}

#[test]
fn expired_ttl_drops() {
    let mut plane: Worker = DataPlane::new(0, 0x0100, vec![]);
    pin(&mut plane, 1, 0x0102, 1001);
    pin(&mut plane, 2, 0x0105, 1002);
    drain(&mut plane);

    let header = TransportMsgHeader {
        secure: false,
        feature: 1,
        ttl: 0,
        meta: 0,
        from_node: Some(0x0102),
        route: RouteRule::ToNode(0x0105),
    };
    let mut packet = header.to_bytes();
    packet.extend_from_slice(b"pay");
    plane.on_event(5, WIn::Net(NetInput::UdpPacket(1001, packet)));
    assert_eq!(drain(&mut plane).len(), 0);
}

#[test]
fn unknown_remote_drops() {
    let mut plane: Worker = DataPlane::new(0, 0, vec![]);
    let packet = broadcast_packet(9, 7, 4, b"hello");
    plane.on_event(5, WIn::Net(NetInput::UdpPacket(4242, packet)));
    assert_eq!(drain(&mut plane).len(), 0);
}

#[test]
fn neighbour_control_goes_to_controller() {
    let mut plane: Worker = DataPlane::new(0, 0, vec![]);
    let control = NeighboursControl::Ping { from: 5, seq: 9 };
    plane.on_event(0, WIn::Net(NetInput::UdpPacket(777, control.to_bytes())));
    let outs = drain(&mut plane);
    assert_eq!(outs.len(), 1);
    match &outs[0] {
        WorkerOutput::Control(LogicControl::NetNeighbour(addr, got)) => {
            assert_eq!(*addr, 777);
            assert_eq!(*got, control);
        }
        _ => panic!("expected a forwarded neighbour control"),
    }
}

/// A service that starts with a buffer of numbered outputs.
struct BufService {
    id: u8,
    outs: std::collections::VecDeque<u8>,
}

impl BufService {
    fn filled(id: u8, count: u8) -> BufService {
        let mut outs = std::collections::VecDeque::new();
        for k in 0..count {
            outs.push_back(k);
        }
        BufService { id, outs }
    }
}

impl Service<u8, u8, u8, u8> for BufService {
    fn service_id(&self) -> u8 {
        self.id
    }

    fn on_shared_input(&mut self, _now_ms: u64, _input: ServiceSharedInput) {}

    fn on_input(&mut self, _now_ms: u64, _input: ServiceInput<u8, u8>) {}

    fn pop_output(&mut self) -> Option<ServiceOutput<u8, u8>> {
        self.outs.pop_front().map(ServiceOutput::Event)
    }
}

#[test]
fn task_switcher_fairness() {
    // Two sub-engines, ten buffered outputs each. Without a last input
    // the round robin interleaves them one to one.
    let services = vec![BufService::filled(10, 10), BufService::filled(20, 10)];
    let mut manager: ServiceManager<u8, u8, u8, u8, BufService> = ServiceManager::new(services);
    let mut order = vec![];
    for _ in 0..20 {
        let (id, _out) = manager.pop_output().expect("both buffers are full");
        order.push(id);
    }
    let expect: Vec<u8> = (0..10).flat_map(|_| [10u8, 20u8]).collect();
    assert_eq!(order, expect);
    assert!(manager.pop_output().is_none());
}

#[test]
fn task_switcher_last_input_bias() {
    // The sub-engine that took the last input drains first, in order;
    // then the other.
    let services = vec![BufService::filled(10, 10), BufService::filled(20, 10)];
    let mut manager: ServiceManager<u8, u8, u8, u8, BufService> = ServiceManager::new(services);
    manager.on_input(0, 20, ServiceInput::Control(0));
    let mut order = vec![];
    for _ in 0..20 {
        let (id, _out) = manager.pop_output().expect("both buffers are full");
        order.push(id);
    }
    let mut expect = vec![20u8; 10];
    expect.extend(vec![10u8; 10]);
    assert_eq!(order, expect);
}

/// A worker half that starts with a buffer of numbered outputs.
struct BufServiceWorker {
    id: u8,
    outs: std::collections::VecDeque<u8>,
}

impl BufServiceWorker {
    fn filled(id: u8, count: u8) -> BufServiceWorker {
        let mut outs = std::collections::VecDeque::new();
        for k in 0..count {
            outs.push_back(k);
        }
        BufServiceWorker { id, outs }
    }
}

impl ServiceWorker<u8, u8, u8, u8> for BufServiceWorker {
    fn service_id(&self) -> u8 {
        self.id
    }

    fn on_tick(&mut self, _now_ms: u64) {}

    fn on_input(&mut self, _now_ms: u64, _input: ServiceWorkerInput<u8, u8, u8>) {}

    fn pop_output(&mut self) -> Option<ServiceWorkerOutput<u8, u8, u8>> {
        self.outs.pop_front().map(ServiceWorkerOutput::Event)
    }
}

#[test]
fn worker_services_drain_fairly() {
    // The same interleaving holds on the data-plane side: the worker that
    // took the last input drains first, then the rest, one to one.
    let workers = vec![BufServiceWorker::filled(10, 4), BufServiceWorker::filled(20, 4)];
    let mut plane: DataPlane<u8, u8, u8, u8, BufServiceWorker> = DataPlane::new(0, 0, workers);
    plane.on_event(0, WorkerInput::Ext(ExtIn::ServicesControl(10, 0)));
    let mut order = vec![];
    while let Some(out) = plane.pop_output() {
        match out {
            WorkerOutput::Ext(ExtOut::ServicesEvent(id, _)) => {
                order.push(id)
            }
            _ => panic!("unexpected output"),
        }
    }
    // Service 10 took the last input: it drains first, then 20.
    assert_eq!(order, vec![10, 10, 10, 10, 20, 20, 20, 20]);
}

#[test]
fn controller_handshake_flow() {
    // Connect out, receive the accept, and see the connection pinned and
    // the shadow deltas broadcast.
    let mut plane: ControllerPlane<u8, u8, u8, u8, BufService> =
        ControllerPlane::new(0x1, 77, vec![]);

    plane.on_event(0, ControllerInput::Ext(ExtIn::ConnectTo(9000)));
    let out = plane.pop_output(0);
    let request = match out {
        Some(ControllerOutput::Event(LogicEvent::NetNeighbour(9000, c))) => c,
        _ => panic!("expected a connect request"),
    };
    match request {
        NeighboursControl::ConnectRequest { from, .. } => assert_eq!(from, 0x1),
        _ => panic!("expected a connect request"),
    }
    assert!(plane.pop_output(0).is_none());

    let accept = NeighboursControl::ConnectAccept { from: 0x2, session: 5 };
    plane.on_event(
        1,
        ControllerInput::Control(LogicControl::NetNeighbour(9000, accept)),
    );
    let mut saw_pin = false;
    let mut saw_shadow_add = false;
    while let Some(out) = plane.pop_output(1) {
        match out {
            ControllerOutput::Event(LogicEvent::Pin(_conn, node, addr, _secure)) => {
                assert_eq!(node, 0x2);
                assert_eq!(addr, 9000);
                saw_pin = true;
            }
            ControllerOutput::Event(LogicEvent::Feature(FeaturesToWorker::ShadowAddDirect(
                _conn,
                node,
                _metric,
            ))) => {
                assert_eq!(node, 0x2);
                saw_shadow_add = true;
            }
            _ => {}
        }
    }
    assert!(saw_pin);
    assert!(saw_shadow_add);
}

#[test]
fn controller_sync_cadence() {
    // After a neighbour connects, a tick at the sync interval emits an
    // advertisement for it.
    let mut plane: ControllerPlane<u8, u8, u8, u8, BufService> =
        ControllerPlane::new(0x1, 77, vec![]);
    let accept = NeighboursControl::ConnectRequest { from: 0x2, session: 5 };
    plane.on_event(
        0,
        ControllerInput::Control(LogicControl::NetNeighbour(9000, accept)),
    );
    while plane.pop_output(0).is_some() {}

    plane.on_tick(2000);
    let mut saw_sync_packet = false;
    while let Some(out) = plane.pop_output(2000) {
        if let ControllerOutput::Event(LogicEvent::NetDirect(feature, _conn, bytes)) = out {
            assert_eq!(feature, 2);
            assert!(!bytes.is_empty());
            saw_sync_packet = true;
        }
    }
    assert!(saw_sync_packet);
}
