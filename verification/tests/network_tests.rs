//! Three nodes wired together in memory: handshakes, keepalives, the
//! router-sync cadence and the packet path all run against each other,
//! with the host loop shuttling datagrams between the planes.

use std::collections::VecDeque;

use sdn_core::controller::{
    ControllerPlane, ExtIn, Input as ControllerInput, Output as ControllerOutput, Service,
    ServiceInput, ServiceOutput, ServiceSharedInput,
};
use sdn_core::dataplane::{
    DataPlane, Input as WorkerInput, NetInput, NetOutput, Output as WorkerOutput, ServiceWorker,
    ServiceWorkerInput, ServiceWorkerOutput,
};
use sdn_core::features::{DataControl, DataEvent, FeaturesControl, FeaturesEvent};
use sdn_core::router::RouteRule;

struct NoServiceWorker;

impl ServiceWorker<u8, u8, u8, u8> for NoServiceWorker {
    fn service_id(&self) -> u8 {
        0
    }

    fn on_tick(&mut self, _now_ms: u64) {}

    fn on_input(&mut self, _now_ms: u64, _input: ServiceWorkerInput<u8, u8, u8>) {}

    fn pop_output(&mut self) -> Option<ServiceWorkerOutput<u8, u8, u8>> {
        None
    }
}

struct NoService;

impl Service<u8, u8, u8, u8> for NoService {
    fn service_id(&self) -> u8 {
        0
    }

    fn on_shared_input(&mut self, _now_ms: u64, _input: ServiceSharedInput) {}

    fn on_input(&mut self, _now_ms: u64, _input: ServiceInput<u8, u8>) {}

    fn pop_output(&mut self) -> Option<ServiceOutput<u8, u8>> {
        None
    }
}

struct Host {
    addr: u64,
    ctrl: ControllerPlane<u8, u8, u8, u8, NoService>,
    worker: DataPlane<u8, u8, u8, u8, NoServiceWorker>,
    received: Vec<Vec<u8>>,
}

impl Host {
    fn new(node_id: u32, addr: u64) -> Host {
        Host {
            addr,
            ctrl: ControllerPlane::new(node_id, node_id, vec![]),
            worker: DataPlane::new(0, node_id, vec![]),
            received: Vec::new(),
        }
    }
}

struct Net {
    hosts: Vec<Host>,
    wires: VecDeque<(u64, u64, Vec<u8>)>,
}

impl Net {
    fn host_at(&mut self, addr: u64) -> Option<&mut Host> {
        self.hosts.iter_mut().find(|h| h.addr == addr)
    }

    /// Moves every pending output and datagram until the whole network is
    /// quiet at `now`.
    fn settle(&mut self, now: u64) {
        loop {
            let mut moved = false;
            for h in self.hosts.iter_mut() {
                while let Some(out) = h.ctrl.pop_output(now) {
                    moved = true;
                    match out {
                        ControllerOutput::Event(event) => {
                            h.worker.on_event(now, WorkerInput::Event(event));
                        }
                        ControllerOutput::Ext(_) => {}
                        ControllerOutput::ShutdownSuccess => {}
                    }
                }
                while let Some(out) = h.worker.pop_output() {
                    moved = true;
                    match out {
                        WorkerOutput::Net(NetOutput::UdpPacket(to, bytes)) => {
                            self.wires.push_back((h.addr, to, bytes));
                        }
                        WorkerOutput::Net(NetOutput::UdpPackets(tos, bytes)) => {
                            for to in tos {
                                self.wires.push_back((h.addr, to, bytes.clone()));
                            }
                        }
                        WorkerOutput::Control(control) => {
                            h.ctrl.on_event(now, ControllerInput::Control(control));
                        }
                        WorkerOutput::Ext(ext) => {
                            if let sdn_core::controller::ExtOut::FeaturesEvent(
                                FeaturesEvent::Data(DataEvent::Recv(bytes)),
                            ) = ext
                            {
                                h.received.push(bytes);
                            }
                        }
                        WorkerOutput::Worker(..) => {}
                        WorkerOutput::ShutdownResponse => {}
                    }
                }
            }
            while let Some((from, to, bytes)) = self.wires.pop_front() {
                moved = true;
                if let Some(h) = self.host_at(to) {
                    h.worker
                        .on_event(now, WorkerInput::Net(NetInput::UdpPacket(from, bytes)));
                }
            }
            if !moved {
                return;
            }
        }
    }

    fn tick(&mut self, now: u64) {
        for h in self.hosts.iter_mut() {
            h.ctrl.on_tick(now);
        }
        self.settle(now);
    }
}

/// A line of three nodes: 0x1 - 0x2 - 0x3, each knowing only its
/// immediate neighbour.
fn line_of_three() -> Net {
    let mut net = Net {
        hosts: vec![Host::new(0x1, 11), Host::new(0x2, 22), Host::new(0x3, 33)],
        wires: VecDeque::new(),
    };
    net.hosts[0]
        .ctrl
        .on_event(0, ControllerInput::Ext(ExtIn::ConnectTo(22)));
    net.hosts[2]
        .ctrl
        .on_event(0, ControllerInput::Ext(ExtIn::ConnectTo(22)));
    net.settle(0);
    // A few sync rounds propagate every route.
    for round in 1..=4u64 {
        net.tick(round * 1100);
    }
    net
}

#[test]
fn sync_converges_over_a_line() {
    let mut net = line_of_three();
    // The edge nodes never talked to each other, yet each learned a
    // route to the other through the middle one.
    let h1 = net.host_at(11).unwrap();
    let payload = b"across the line".to_vec();
    h1.ctrl.on_event(
        5000,
        ControllerInput::Ext(ExtIn::FeaturesControl(FeaturesControl::Data(
            DataControl::SendRule(RouteRule::ToNode(0x3), 8, payload.clone()),
        )))
    );
    net.settle(5000);
    let h3 = net.host_at(33).unwrap();
    assert_eq!(h3.received, vec![payload]);
}

#[test]
fn data_to_unknown_node_is_rejected() {
    let mut net = line_of_three();
    let h1 = net.host_at(11).unwrap();
    h1.ctrl.on_event(
        5000,
        ControllerInput::Ext(ExtIn::FeaturesControl(FeaturesControl::Data(
            DataControl::SendRule(RouteRule::ToNode(0x7), 8, b"nowhere".to_vec()),
        )))
    );
    net.settle(5000);
    for h in net.hosts.iter() {
        assert!(h.received.is_empty());
    }
}

#[test]
fn broadcast_reaches_everyone_once() {
    let mut net = line_of_three();
    let h2 = net.host_at(22).unwrap();
    let payload = b"hear ye".to_vec();
    h2.ctrl.on_event(
        5000,
        ControllerInput::Ext(ExtIn::FeaturesControl(FeaturesControl::Data(
            DataControl::SendRule(RouteRule::Broadcast(1), 8, payload.clone()),
        )))
    );
    net.settle(5000);
    // Everyone, the sender included, sees the datagram exactly once: the
    // suppression history stops every echo.
    for addr in [11, 22, 33] {
        let h = net.host_at(addr).unwrap();
        assert_eq!(h.received, vec![payload.clone()]);
    }
}
