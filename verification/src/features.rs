//! The fixed set of features multiplexed over the overlay, and the sum
//! types that carry their controls, events and cross-plane messages.

use vstd::prelude::*;

use crate::addr::{ConnId, NodeId};
use crate::metric::Metric;
use crate::router::RouteRule;
use crate::table::TableSync;

verus! {

/// The features a node runs.
#[derive(Debug, Clone, Copy, PartialEq, Eq, Structural)]
pub enum Features {
    /// The worker-side shadow of the neighbour set.
    Neighbours,
    /// Opaque user datagrams.
    Data,
    /// The periodic routing-table exchange.
    RouterSync,
}

impl Features {
    /// The feature identifier on the wire.
    pub fn id(&self) -> (r: u8)
        ensures
            r == spec_feature_id(*self),
    {
        match self {
            Features::Neighbours => 0,
            Features::Data => 1,
            Features::RouterSync => 2,
        }
    }

    /// The feature of a wire identifier.
    pub fn from_id(id: u8) -> (r: Option<Features>)
        ensures
            match r {
                Some(f) => spec_feature_id(f) == id,
                None => id > 2,
            },
    {
        match id {
            0 => Some(Features::Neighbours),
            1 => Some(Features::Data),
            2 => Some(Features::RouterSync),
            _ => None,
        }
    }
}

/// The feature identifier on the wire.
pub open spec fn spec_feature_id(f: Features) -> u8 {
    match f {
        Features::Neighbours => 0,
        Features::Data => 1,
        Features::RouterSync => 2,
    }
}

/// True when two byte strings are equal.
pub fn bytes_equal(a: &Vec<u8>, b: &Vec<u8>) -> (r: bool)
    ensures
        r == (a@ == b@),
{
    if a.len() != b.len() {
        proof {
            assert(a@ != b@);
        }
        return false;
    }
    let mut i: usize = 0;
    while i < a.len()
        invariant
            i <= a.len(),
            a.len() == b.len(),
            forall|j: int| 0 <= j < i ==> a@[j] == b@[j],
        decreases a.len() - i,
    {
        if a[i] != b[i] {
            proof {
                assert(a@[i as int] != b@[i as int]);
            }
            return false;
        }
        i += 1;
    }
    proof {
        assert(a@ =~= b@);
    }
    true
}

/// Asking the neighbours feature for work.
#[derive(Debug, Clone, Copy, PartialEq, Eq, Structural)]
pub enum NeighboursFeatureControl {
    /// Open a connection to a remote address.
    ConnectTo(u64),
    /// Close the connection to a node.
    DisconnectFrom(NodeId),
}

/// What the neighbours feature reports.
#[derive(Debug, Clone, Copy, PartialEq, Eq, Structural)]
pub enum NeighboursFeatureEvent {
    /// A neighbour finished its handshake.
    Connected(ConnId, NodeId),
    /// A neighbour is gone.
    Disconnected(ConnId, NodeId),
}

/// Asking the data feature for work.
#[derive(Debug)]
pub enum DataControl {
    /// Send a datagram along a route with a time to live.
    SendRule(RouteRule, u8, Vec<u8>),
}

/// What the data feature reports.
#[derive(Debug)]
pub enum DataEvent {
    /// A datagram arrived for this node.
    Recv(Vec<u8>),
}

impl PartialEq for DataEvent {
    fn eq(&self, other: &Self) -> (r: bool) {
        match (self, other) {
            (DataEvent::Recv(a), DataEvent::Recv(b)) => bytes_equal(a, b),
        }
    }
}

impl vstd::std_specs::cmp::PartialEqSpecImpl for DataEvent {
    open spec fn obeys_eq_spec() -> bool {
        true
    }

    open spec fn eq_spec(&self, other: &DataEvent) -> bool {
        match (self, other) {
            (DataEvent::Recv(a), DataEvent::Recv(b)) => a@ == b@,
        }
    }
}

impl Eq for DataEvent {

}

/// Asking the router-sync feature for work.
#[derive(Debug, Clone, Copy, PartialEq, Eq, Structural)]
pub enum RouterSyncControl {
    /// Advertise to every neighbour now instead of at the next tick.
    TriggerSync,
}

/// What the router-sync feature reports.
#[derive(Debug, Clone, Copy, PartialEq, Eq, Structural)]
pub enum RouterSyncEvent {
    /// A neighbour's advertisement for one layer was merged.
    Applied(NodeId, u8),
}

/// A control addressed to one feature.
#[derive(Debug)]
pub enum FeaturesControl {
    Neighbours(NeighboursFeatureControl),
    Data(DataControl),
    RouterSync(RouterSyncControl),
}

impl FeaturesControl {
    /// The feature this control belongs to.
    pub fn to_feature(&self) -> (r: Features)
        ensures
            r == spec_control_feature(self),
    {
        match self {
            FeaturesControl::Neighbours(_) => Features::Neighbours,
            FeaturesControl::Data(_) => Features::Data,
            FeaturesControl::RouterSync(_) => Features::RouterSync,
        }
    }
}

/// The feature a control belongs to.
pub open spec fn spec_control_feature(c: &FeaturesControl) -> Features {
    match c {
        FeaturesControl::Neighbours(_) => Features::Neighbours,
        FeaturesControl::Data(_) => Features::Data,
        FeaturesControl::RouterSync(_) => Features::RouterSync,
    }
}

/// An event one feature reports.
#[derive(Debug)]
pub enum FeaturesEvent {
    Neighbours(NeighboursFeatureEvent),
    Data(DataEvent),
    RouterSync(RouterSyncEvent),
}

/// What a feature worker sends its controller half.
#[derive(Debug)]
pub enum FeaturesToController {
    /// A neighbour's raw router-sync packet, with the connection it
    /// arrived on and the node behind it.
    RouterSyncRemote(ConnId, NodeId, Vec<u8>),
}

/// What a feature controller sends its worker halves: the table deltas
/// that keep each worker's shadow router equal to the controller's.
#[derive(Debug)]
pub enum FeaturesToWorker {
    /// Record a direct route in the shadow.
    ShadowAddDirect(ConnId, NodeId, Metric),
    /// Forget a connection in the shadow.
    ShadowDelDirect(ConnId),
    /// Merge an advertisement into one shadow layer.
    ShadowApplySync(u8, ConnId, NodeId, Metric, TableSync),
    /// Register a service provider in the shadow.
    ShadowService(u8, NodeId),
}

} // verus!
