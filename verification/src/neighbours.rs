//! Direct-neighbour handshake and liveness.
//!
//! Neighbour control packets use a small framing of their own, tried
//! first on every datagram: nine bytes whose first byte has both top bits
//! set, which no transport header has (its version bits are zero). The
//! manager runs the per-peer state machine: a connect request is answered
//! with an accept, a connected peer is pinged every tick and dropped when
//! no pong arrives within `NEIGHBOUR_TIMEOUT_MS`, and every rise and fall
//! is reported as a `ConnectionEvent`.

use vstd::prelude::*;

use std::collections::VecDeque;

use crate::addr::{ConnId, NodeId};
use crate::header::{lemma_u32_be_round_trip, push_u32_be, read_u32_be, spec_read_u32_be, spec_u32_be};

verus! {

/// Milliseconds a connected peer may stay silent before it is dropped.
pub const NEIGHBOUR_TIMEOUT_MS: u64 = 10000;

/// A wire-level neighbour control packet.
#[derive(Debug, Clone, Copy, PartialEq, Eq, Structural)]
pub enum NeighboursControl {
    /// Ask to become a neighbour.
    ConnectRequest { from: NodeId, session: u32 },
    /// Grant it.
    ConnectAccept { from: NodeId, session: u32 },
    /// Keepalive probe, echoed back as a pong.
    Ping { from: NodeId, seq: u32 },
    /// Keepalive answer.
    Pong { from: NodeId, seq: u32 },
    /// Leave.
    Disconnect { from: NodeId, session: u32 },
}

/// The command bits of each control.
pub open spec fn spec_control_cmd(c: NeighboursControl) -> u8 {
    match c {
        NeighboursControl::ConnectRequest { .. } => 0,
        NeighboursControl::ConnectAccept { .. } => 1,
        NeighboursControl::Ping { .. } => 2,
        NeighboursControl::Pong { .. } => 3,
        NeighboursControl::Disconnect { .. } => 4,
    }
}

/// The node a control names.
pub open spec fn spec_control_from(c: NeighboursControl) -> NodeId {
    match c {
        NeighboursControl::ConnectRequest { from, .. } => from,
        NeighboursControl::ConnectAccept { from, .. } => from,
        NeighboursControl::Ping { from, .. } => from,
        NeighboursControl::Pong { from, .. } => from,
        NeighboursControl::Disconnect { from, .. } => from,
    }
}

/// The control's argument: a session or a keepalive sequence number.
pub open spec fn spec_control_arg(c: NeighboursControl) -> u32 {
    match c {
        NeighboursControl::ConnectRequest { session, .. } => session,
        NeighboursControl::ConnectAccept { session, .. } => session,
        NeighboursControl::Ping { seq, .. } => seq,
        NeighboursControl::Pong { seq, .. } => seq,
        NeighboursControl::Disconnect { session, .. } => session,
    }
}

/// A control on the wire: the marked command byte, the node, the
/// argument.
pub open spec fn spec_encode_control(c: NeighboursControl) -> Seq<u8> {
    seq![(0xC0u8 | spec_control_cmd(c))] + spec_u32_be(spec_control_from(c)) + spec_u32_be(
        spec_control_arg(c),
    )
}

/// What parsing a buffer as a neighbour control yields: exactly nine
/// bytes, both top bits of the first set, and a known command.
pub open spec fn spec_decode_control(b: Seq<u8>) -> Option<NeighboursControl> {
    if b.len() != 9 || (b[0] >> 6) != 3 {
        None
    } else {
        let cmd = b[0] & 0x3f;
        let from = spec_read_u32_be(b, 1);
        let arg = spec_read_u32_be(b, 5);
        if cmd == 0 {
            Some(NeighboursControl::ConnectRequest { from, session: arg })
        } else if cmd == 1 {
            Some(NeighboursControl::ConnectAccept { from, session: arg })
        } else if cmd == 2 {
            Some(NeighboursControl::Ping { from, seq: arg })
        } else if cmd == 3 {
            Some(NeighboursControl::Pong { from, seq: arg })
        } else if cmd == 4 {
            Some(NeighboursControl::Disconnect { from, session: arg })
        } else {
            None
        }
    }
}

/// A control's wire form parses back to the control itself.
pub proof fn lemma_control_round_trip(c: NeighboursControl)
    ensures
        spec_decode_control(spec_encode_control(c)) == Some(c),
{
    let b = spec_encode_control(c);
    let cmd = spec_control_cmd(c);
    let from = spec_control_from(c);
    let arg = spec_control_arg(c);
    assert(b.len() == 9);
    assert(b[0] == (0xC0u8 | cmd));
    assert((((0xC0u8 | cmd) >> 6) == 3) && (((0xC0u8 | cmd) & 0x3f) == cmd)) by (bit_vector)
        requires
            cmd <= 4,
    ;
    assert(b[1] == (from >> 24) as u8);
    assert(b[2] == ((from >> 16) & 0xff) as u8);
    assert(b[3] == ((from >> 8) & 0xff) as u8);
    assert(b[4] == (from & 0xff) as u8);
    lemma_u32_be_round_trip(from);
    assert(spec_read_u32_be(b, 1) == from);
    assert(b[5] == (arg >> 24) as u8);
    assert(b[6] == ((arg >> 16) & 0xff) as u8);
    assert(b[7] == ((arg >> 8) & 0xff) as u8);
    assert(b[8] == (arg & 0xff) as u8);
    lemma_u32_be_round_trip(arg);
    assert(spec_read_u32_be(b, 5) == arg);
}

impl NeighboursControl {
    /// The control as it goes on the wire.
    pub fn to_bytes(&self) -> (r: Vec<u8>)
        ensures
            r@ == spec_encode_control(*self),
    {
        let (cmd, from, arg): (u8, NodeId, u32) = match self {
            NeighboursControl::ConnectRequest { from, session } => (0, *from, *session),
            NeighboursControl::ConnectAccept { from, session } => (1, *from, *session),
            NeighboursControl::Ping { from, seq } => (2, *from, *seq),
            NeighboursControl::Pong { from, seq } => (3, *from, *seq),
            NeighboursControl::Disconnect { from, session } => (4, *from, *session),
        };
        let mut out: Vec<u8> = Vec::new();
        proof {
            assert(0xC0u8 | cmd == 0xC0 + cmd) by (bit_vector)
                requires
                    cmd <= 4,
            ;
        }
        out.push(0xC0 | cmd);
        push_u32_be(&mut out, from);
        push_u32_be(&mut out, arg);
        proof {
            assert(out@ =~= spec_encode_control(*self));
        }
        out
    }

    /// Parses a buffer as a neighbour control, exactly as
    /// `spec_decode_control` states.
    pub fn try_from_bytes(buf: &Vec<u8>) -> (r: Option<NeighboursControl>)
        ensures
            r == spec_decode_control(buf@),
    {
        if buf.len() != 9 {
            return None;
        }
        let b0 = buf[0];
        if (b0 >> 6) != 3 {
            return None;
        }
        let cmd = b0 & 0x3f;
        let from = read_u32_be(buf, 1);
        let arg = read_u32_be(buf, 5);
        if cmd == 0 {
            Some(NeighboursControl::ConnectRequest { from, session: arg })
        } else if cmd == 1 {
            Some(NeighboursControl::ConnectAccept { from, session: arg })
        } else if cmd == 2 {
            Some(NeighboursControl::Ping { from, seq: arg })
        } else if cmd == 3 {
            Some(NeighboursControl::Pong { from, seq: arg })
        } else if cmd == 4 {
            Some(NeighboursControl::Disconnect { from, session: arg })
        } else {
            None
        }
    }
}

/// A neighbour connection rising or falling, or its freshly measured
/// round-trip time.
#[derive(Debug, Clone, Copy, PartialEq, Eq, Structural)]
pub enum ConnectionEvent {
    /// The handshake finished: connection, node, remote address.
    Connected(ConnId, NodeId, u64),
    /// The round-trip time of a connected neighbour, in milliseconds.
    Stats(ConnId, NodeId, u16),
    /// The neighbour is gone.
    Disconnected(ConnId, NodeId, u64),
}

/// What the host asks the manager to do.
#[derive(Debug, Clone, Copy, PartialEq, Eq, Structural)]
pub enum NeighboursInput {
    /// Open a connection to a remote address.
    ConnectTo(u64),
    /// Close the connection to a node.
    DisconnectFrom(NodeId),
    /// A control packet arrived from a remote address.
    Control(u64, NeighboursControl),
    /// Wind every neighbour down.
    ShutdownRequest,
}

/// What the manager hands back.
#[derive(Debug, Clone, Copy, PartialEq, Eq, Structural)]
pub enum NeighboursOutput {
    /// Send a control packet to a remote address.
    Net(u64, NeighboursControl),
    /// A connection rose, measured, or fell.
    Event(ConnectionEvent),
    /// Every neighbour acknowledged the shutdown.
    ShutdownResponse,
}

/// Where one peer stands.
#[derive(Debug, Clone, Copy, PartialEq, Eq, Structural)]
pub enum NeighbourState {
    /// A connect request went out, no accept came back yet.
    Connecting,
    /// The handshake finished.
    Connected,
}

/// One peer's record.
pub struct Neighbour {
    pub addr: u64,
    pub node: NodeId,
    pub conn: ConnId,
    pub state: NeighbourState,
    pub last_seen: u64,
}

/// The record at `addr`, by index.
pub open spec fn spec_find_peer(ps: Seq<Neighbour>, addr: u64) -> Option<int>
    decreases ps.len(),
{
    if ps.len() == 0 {
        None
    } else if ps[0].addr == addr {
        Some(0)
    } else {
        match spec_find_peer(ps.skip(1), addr) {
            Some(i) => Some(i + 1),
            None => None,
        }
    }
}

/// Searching past a prefix without a match shifts the found index by the
/// prefix's length.
proof fn lemma_find_peer_skip(ps: Seq<Neighbour>, addr: u64, p: int)
    requires
        0 <= p <= ps.len(),
        forall|j: int| 0 <= j < p ==> (#[trigger] ps[j]).addr != addr,
    ensures
        spec_find_peer(ps, addr) == match spec_find_peer(ps.skip(p), addr) {
            Some(i) => Some(i + p),
            None => None::<int>,
        },
    decreases p,
{
    if p > 0 {
        lemma_find_peer_skip(ps.skip(1), addr, p - 1);
        assert(ps.skip(1).skip(p - 1) =~= ps.skip(p));
        assert forall|j: int| 0 <= j < p - 1 implies (#[trigger] ps.skip(1)[j]).addr != addr by {
            assert(ps.skip(1)[j] == ps[j + 1]);
        }
    } else {
        assert(ps.skip(0) =~= ps);
    }
}

/// Whether a peer was heard from within the timeout at `now`.
pub open spec fn spec_peer_alive(p: Neighbour, now: u64) -> bool {
    !(now >= p.last_seen && now - p.last_seen >= NEIGHBOUR_TIMEOUT_MS)
}

/// What the keepalive sweep sends a live peer: a ping when connected, a
/// fresh connect request while the handshake is open.
pub open spec fn spec_keepalive_of(p: Neighbour, now: u64, me: NodeId, session: u32) -> NeighboursOutput {
    if p.state == NeighbourState::Connected {
        NeighboursOutput::Net(
            p.addr,
            NeighboursControl::Ping { from: me, seq: (now & 0xffff_ffff) as u32 },
        )
    } else {
        NeighboursOutput::Net(
            p.addr,
            NeighboursControl::ConnectRequest { from: me, session },
        )
    }
}

/// The peers a keepalive sweep at `now` keeps, in order.
pub open spec fn spec_tick_keep(ps: Seq<Neighbour>, now: u64) -> Seq<Neighbour>
    decreases ps.len(),
{
    if ps.len() == 0 {
        Seq::empty()
    } else {
        (if spec_peer_alive(ps[0], now) {
            seq![ps[0]]
        } else {
            Seq::<Neighbour>::empty()
        }) + spec_tick_keep(ps.skip(1), now)
    }
}

/// What a keepalive sweep at `now` emits, peer by peer: a keepalive for
/// each live peer, a `Disconnected` event for each silent connected one,
/// nothing for a timed-out handshake.
pub open spec fn spec_tick_outputs(ps: Seq<Neighbour>, now: u64, me: NodeId, session: u32) -> Seq<
    NeighboursOutput,
>
    decreases ps.len(),
{
    if ps.len() == 0 {
        Seq::empty()
    } else {
        (if spec_peer_alive(ps[0], now) {
            seq![spec_keepalive_of(ps[0], now, me, session)]
        } else if ps[0].state == NeighbourState::Connected {
            seq![
                NeighboursOutput::Event(
                    ConnectionEvent::Disconnected(ps[0].conn, ps[0].node, ps[0].addr),
                ),
            ]
        } else {
            Seq::<NeighboursOutput>::empty()
        }) + spec_tick_outputs(ps.skip(1), now, me, session)
    }
}

/// Processing one more peer extends what the sweep keeps and emits by
/// that peer's share.
proof fn lemma_ntick_take_step(ps: Seq<Neighbour>, now: u64, me: NodeId, session: u32, p: int)
    requires
        0 <= p < ps.len(),
    ensures
        spec_tick_keep(ps.take(p + 1), now) == spec_tick_keep(ps.take(p), now) + (
        if spec_peer_alive(ps[p], now) {
            seq![ps[p]]
        } else {
            Seq::<Neighbour>::empty()
        }),
        spec_tick_outputs(ps.take(p + 1), now, me, session) == spec_tick_outputs(
            ps.take(p),
            now,
            me,
            session,
        ) + (if spec_peer_alive(ps[p], now) {
            seq![spec_keepalive_of(ps[p], now, me, session)]
        } else if ps[p].state == NeighbourState::Connected {
            seq![
                NeighboursOutput::Event(
                    ConnectionEvent::Disconnected(ps[p].conn, ps[p].node, ps[p].addr),
                ),
            ]
        } else {
            Seq::<NeighboursOutput>::empty()
        }),
    decreases p,
{
    if p == 0 {
        assert(ps.take(1)[0] == ps[0]);
        assert(ps.take(1).skip(1) =~= Seq::<Neighbour>::empty());
        assert(ps.take(0) =~= Seq::<Neighbour>::empty());
        assert(spec_tick_keep(ps.take(1), now) =~= spec_tick_keep(ps.take(0), now) + (
        if spec_peer_alive(ps[0], now) {
            seq![ps[0]]
        } else {
            Seq::<Neighbour>::empty()
        }));
        assert(spec_tick_outputs(ps.take(1), now, me, session) =~= spec_tick_outputs(
            ps.take(0),
            now,
            me,
            session,
        ) + (if spec_peer_alive(ps[0], now) {
            seq![spec_keepalive_of(ps[0], now, me, session)]
        } else if ps[0].state == NeighbourState::Connected {
            seq![
                NeighboursOutput::Event(
                    ConnectionEvent::Disconnected(ps[0].conn, ps[0].node, ps[0].addr),
                ),
            ]
        } else {
            Seq::<NeighboursOutput>::empty()
        }));
    } else {
        lemma_ntick_take_step(ps.skip(1), now, me, session, p - 1);
        assert(ps.take(p + 1)[0] == ps[0]);
        assert(ps.take(p)[0] == ps[0]);
        assert(ps.take(p + 1).skip(1) =~= ps.skip(1).take(p));
        assert(ps.take(p).skip(1) =~= ps.skip(1).take(p - 1));
        assert(ps.skip(1)[p - 1] == ps[p]);
        let head_keep = if spec_peer_alive(ps[0], now) {
            seq![ps[0]]
        } else {
            Seq::<Neighbour>::empty()
        };
        let head_out = if spec_peer_alive(ps[0], now) {
            seq![spec_keepalive_of(ps[0], now, me, session)]
        } else if ps[0].state == NeighbourState::Connected {
            seq![
                NeighboursOutput::Event(
                    ConnectionEvent::Disconnected(ps[0].conn, ps[0].node, ps[0].addr),
                ),
            ]
        } else {
            Seq::<NeighboursOutput>::empty()
        };
        let tail_keep = if spec_peer_alive(ps[p], now) {
            seq![ps[p]]
        } else {
            Seq::<Neighbour>::empty()
        };
        let tail_out = if spec_peer_alive(ps[p], now) {
            seq![spec_keepalive_of(ps[p], now, me, session)]
        } else if ps[p].state == NeighbourState::Connected {
            seq![
                NeighboursOutput::Event(
                    ConnectionEvent::Disconnected(ps[p].conn, ps[p].node, ps[p].addr),
                ),
            ]
        } else {
            Seq::<NeighboursOutput>::empty()
        };
        assert(head_keep + (spec_tick_keep(ps.skip(1).take(p - 1), now) + tail_keep) =~= (head_keep
            + spec_tick_keep(ps.skip(1).take(p - 1), now)) + tail_keep);
        assert(head_out + (spec_tick_outputs(ps.skip(1).take(p - 1), now, me, session) + tail_out)
            =~= (head_out + spec_tick_outputs(ps.skip(1).take(p - 1), now, me, session))
            + tail_out);
    }
}

/// Whether a disconnect request for `node` takes this peer down.
pub open spec fn spec_disc_hits(p: Neighbour, node: NodeId) -> bool {
    p.node == node && p.state == NeighbourState::Connected
}

/// The peers a disconnect request for `node` keeps, in order.
pub open spec fn spec_disc_keep(ps: Seq<Neighbour>, node: NodeId) -> Seq<Neighbour>
    decreases ps.len(),
{
    if ps.len() == 0 {
        Seq::empty()
    } else {
        (if spec_disc_hits(ps[0], node) {
            Seq::<Neighbour>::empty()
        } else {
            seq![ps[0]]
        }) + spec_disc_keep(ps.skip(1), node)
    }
}

/// What taking one peer down emits: the wire farewell, then the fall.
pub open spec fn spec_farewell_of(p: Neighbour, me: NodeId, session: u32) -> Seq<
    NeighboursOutput,
> {
    seq![
        NeighboursOutput::Net(p.addr, NeighboursControl::Disconnect { from: me, session }),
        NeighboursOutput::Event(ConnectionEvent::Disconnected(p.conn, p.node, p.addr)),
    ]
}

/// What a disconnect request for `node` emits, peer by peer.
pub open spec fn spec_disc_outputs(ps: Seq<Neighbour>, node: NodeId, me: NodeId, session: u32) -> Seq<
    NeighboursOutput,
>
    decreases ps.len(),
{
    if ps.len() == 0 {
        Seq::empty()
    } else {
        (if spec_disc_hits(ps[0], node) {
            spec_farewell_of(ps[0], me, session)
        } else {
            Seq::<NeighboursOutput>::empty()
        }) + spec_disc_outputs(ps.skip(1), node, me, session)
    }
}

/// Processing one more peer extends what the disconnect sweep keeps and
/// emits by that peer's share.
proof fn lemma_disc_take_step(ps: Seq<Neighbour>, node: NodeId, me: NodeId, session: u32, p: int)
    requires
        0 <= p < ps.len(),
    ensures
        spec_disc_keep(ps.take(p + 1), node) == spec_disc_keep(ps.take(p), node) + (
        if spec_disc_hits(ps[p], node) {
            Seq::<Neighbour>::empty()
        } else {
            seq![ps[p]]
        }),
        spec_disc_outputs(ps.take(p + 1), node, me, session) == spec_disc_outputs(
            ps.take(p),
            node,
            me,
            session,
        ) + (if spec_disc_hits(ps[p], node) {
            spec_farewell_of(ps[p], me, session)
        } else {
            Seq::<NeighboursOutput>::empty()
        }),
    decreases p,
{
    if p == 0 {
        assert(ps.take(1)[0] == ps[0]);
        assert(ps.take(1).skip(1) =~= Seq::<Neighbour>::empty());
        assert(ps.take(0) =~= Seq::<Neighbour>::empty());
        assert(spec_disc_keep(ps.take(1), node) =~= spec_disc_keep(ps.take(0), node) + (
        if spec_disc_hits(ps[0], node) {
            Seq::<Neighbour>::empty()
        } else {
            seq![ps[0]]
        }));
        assert(spec_disc_outputs(ps.take(1), node, me, session) =~= spec_disc_outputs(
            ps.take(0),
            node,
            me,
            session,
        ) + (if spec_disc_hits(ps[0], node) {
            spec_farewell_of(ps[0], me, session)
        } else {
            Seq::<NeighboursOutput>::empty()
        }));
    } else {
        lemma_disc_take_step(ps.skip(1), node, me, session, p - 1);
        assert(ps.take(p + 1)[0] == ps[0]);
        assert(ps.take(p)[0] == ps[0]);
        assert(ps.take(p + 1).skip(1) =~= ps.skip(1).take(p));
        assert(ps.take(p).skip(1) =~= ps.skip(1).take(p - 1));
        assert(ps.skip(1)[p - 1] == ps[p]);
        let head_keep = if spec_disc_hits(ps[0], node) {
            Seq::<Neighbour>::empty()
        } else {
            seq![ps[0]]
        };
        let head_out = if spec_disc_hits(ps[0], node) {
            spec_farewell_of(ps[0], me, session)
        } else {
            Seq::<NeighboursOutput>::empty()
        };
        let tail_keep = if spec_disc_hits(ps[p], node) {
            Seq::<Neighbour>::empty()
        } else {
            seq![ps[p]]
        };
        let tail_out = if spec_disc_hits(ps[p], node) {
            spec_farewell_of(ps[p], me, session)
        } else {
            Seq::<NeighboursOutput>::empty()
        };
        assert(head_keep + (spec_disc_keep(ps.skip(1).take(p - 1), node) + tail_keep) =~= (head_keep
            + spec_disc_keep(ps.skip(1).take(p - 1), node)) + tail_keep);
        assert(head_out + (spec_disc_outputs(ps.skip(1).take(p - 1), node, me, session) + tail_out)
            =~= (head_out + spec_disc_outputs(ps.skip(1).take(p - 1), node, me, session))
            + tail_out);
    }
}

/// What a shutdown emits: every peer's wire farewell (the fall event only
/// for connected ones), then the acknowledgement.
pub open spec fn spec_shutdown_outputs(ps: Seq<Neighbour>, me: NodeId, session: u32) -> Seq<
    NeighboursOutput,
>
    decreases ps.len(),
{
    if ps.len() == 0 {
        Seq::empty()
    } else {
        (if ps[0].state == NeighbourState::Connected {
            spec_farewell_of(ps[0], me, session)
        } else {
            seq![
                NeighboursOutput::Net(
                    ps[0].addr,
                    NeighboursControl::Disconnect { from: me, session },
                ),
            ]
        }) + spec_shutdown_outputs(ps.skip(1), me, session)
    }
}

/// The per-peer handshake and liveness state machine.
pub struct NeighboursManager {
    node_id: NodeId,
    session: u32,
    conn_seed: u64,
    peers: Vec<Neighbour>,
    queue: VecDeque<NeighboursOutput>,
}

impl NeighboursManager {
    /// Each peer address has one record, and connection identifiers never
    /// repeat.
    pub closed spec fn wf(&self) -> bool {
        &&& (forall|i: int, j: int| 0 <= i < j < self.peers@.len() ==> self.peers@[i].addr
            != self.peers@[j].addr)
        &&& (forall|i: int, j: int| 0 <= i < j < self.peers@.len() ==> self.peers@[i].conn
            != self.peers@[j].conn)
        &&& (forall|i: int| 0 <= i < self.peers@.len() ==> (#[trigger] self.peers@[i]).conn
            < self.conn_seed)
    }

    /// A manager for `node_id`, running `session`.
    pub fn new(node_id: NodeId, session: u32) -> (r: NeighboursManager)
        ensures
            r.wf(),
    {
        NeighboursManager { node_id, session, conn_seed: 0, peers: Vec::new(), queue: VecDeque::new() }
    }

    /// Looks a peer up by remote address.
    fn find_by_addr(&self, addr: u64) -> (r: Option<usize>)
        ensures
            match r {
                Some(i) => i < self.peers@.len() && self.peers@[i as int].addr == addr
                    && spec_find_peer(self.peers_view(), addr) == Some(i as int),
                None => spec_find_peer(self.peers_view(), addr) is None && forall|j: int|
                    0 <= j < self.peers@.len() ==> (#[trigger] self.peers@[j]).addr != addr,
            },
    {
        let mut i: usize = 0;
        while i < self.peers.len()
            invariant
                i <= self.peers@.len(),
                forall|j: int| 0 <= j < i ==> (#[trigger] self.peers@[j]).addr != addr,
            decreases self.peers.len() - i,
        {
            if self.peers[i].addr == addr {
                proof {
                    lemma_find_peer_skip(self.peers@, addr, i as int);
                    assert(self.peers@.skip(i as int)[0] == self.peers@[i as int]);
                }
                return Some(i);
            }
            i += 1;
        }
        proof {
            lemma_find_peer_skip(self.peers@, addr, self.peers@.len() as int);
            assert(self.peers@.skip(self.peers@.len() as int) =~= Seq::<Neighbour>::empty());
        }
        None
    }

    /// The node and remote address behind a connection, when it is up.
    pub fn conn(&self, conn: ConnId) -> (r: Option<(NodeId, u64)>)
        ensures
            match r {
                Some(pair) => exists|i: int| 0 <= i < self.peers_view().len() && {
                    let p = #[trigger] self.peers_view()[i];
                    &&& p.conn == conn
                    &&& p.state == NeighbourState::Connected
                    &&& pair == (p.node, p.addr)
                },
                None => forall|i: int| 0 <= i < self.peers_view().len() ==> ((
                #[trigger] self.peers_view()[i]).conn != conn || self.peers_view()[i].state
                    != NeighbourState::Connected),
            },
    {
        let mut i: usize = 0;
        while i < self.peers.len()
            invariant
                i <= self.peers@.len(),
                forall|j: int| 0 <= j < i ==> ((#[trigger] self.peers@[j]).conn != conn || self
                    .peers@[j].state != NeighbourState::Connected),
            decreases self.peers.len() - i,
        {
            let p = &self.peers[i];
            if p.conn == conn && matches!(p.state, NeighbourState::Connected) {
                proof {
                    assert(self.peers_view()[i as int].conn == conn);
                }
                return Some((p.node, p.addr));
            }
            i += 1;
        }
        None
    }

    /// Hands out a fresh connection identifier, or none when every
    /// identifier was used.
    fn next_conn(&mut self) -> (r: Option<ConnId>)
        requires
            old(self).wf(),
        ensures
            final(self).wf(),
            final(self).peers_view() == old(self).peers_view(),
            final(self).queue_view() == old(self).queue_view(),
            final(self).node_val() == old(self).node_val(),
            final(self).session_val() == old(self).session_val(),
            r is None <==> old(self).conn_seed_val() == 0xffff_ffff_ffff_ffff,
            match r {
                Some(c) => c == old(self).conn_seed_val() && final(self).conn_seed_val() == c + 1,
                None => *final(self) == *old(self),
            },
    {
        if self.conn_seed == 0xffff_ffff_ffff_ffff {
            return None;
        }
        let c = self.conn_seed;
        self.conn_seed = self.conn_seed + 1;
        Some(c)
    }

    /// The next connection identifier to hand out.
    pub closed spec fn conn_seed_val(&self) -> u64 {
        self.conn_seed
    }

    /// The peer records.
    pub closed spec fn peers_view(&self) -> Seq<Neighbour> {
        self.peers@
    }

    /// The pending outputs.
    pub closed spec fn queue_view(&self) -> Seq<NeighboursOutput> {
        self.queue@
    }

    /// This manager's node.
    pub closed spec fn node_val(&self) -> NodeId {
        self.node_id
    }

    /// The session this manager runs.
    pub closed spec fn session_val(&self) -> u32 {
        self.session
    }

    /// Whether some peer record stands at `addr`.
    pub open spec fn spec_knows_addr(&self, addr: u64) -> bool {
        exists|i: int| 0 <= i < self.peers_view().len() && (#[trigger] self.peers_view()[i]).addr
            == addr
    }

    /// Keepalive: every live connected peer is pinged and a still-open
    /// handshake re-sent its request, in peer order; a peer silent beyond
    /// the timeout leaves, a connected one with a `Disconnected` event.
    #[verifier::loop_isolation(false)]
    #[verifier::rlimit(60)]
    #[verifier::spinoff_prover]
    pub fn on_tick(&mut self, now_ms: u64)
        requires
            old(self).wf(),
        ensures
            final(self).wf(),
            final(self).node_val() == old(self).node_val(),
            final(self).session_val() == old(self).session_val(),
            final(self).conn_seed_val() == old(self).conn_seed_val(),
            final(self).peers_view() == spec_tick_keep(old(self).peers_view(), now_ms),
            final(self).queue_view() == old(self).queue_view() + spec_tick_outputs(
                old(self).peers_view(),
                now_ms,
                old(self).node_val(),
                old(self).session_val(),
            ),
    {
        let ghost pre = self.peers@;
        let ghost q0 = self.queue@;
        let mut i: usize = 0;
        let ghost mut p: int = 0;
        proof {
            assert(pre.take(0) =~= Seq::<Neighbour>::empty());
            assert(pre.skip(0) =~= pre);
            assert(self.peers@ =~= spec_tick_keep(pre.take(p), now_ms) + pre.skip(p));
            assert(q0 + spec_tick_outputs(pre.take(p), now_ms, self.node_id, self.session) =~= q0);
        }
        while i < self.peers.len()
            invariant
                self.wf(),
                self.node_id == old(self).node_val(),
                self.session == old(self).session_val(),
                self.conn_seed == old(self).conn_seed_val(),
                0 <= p <= pre.len(),
                i == spec_tick_keep(pre.take(p), now_ms).len(),
                self.peers@ == spec_tick_keep(pre.take(p), now_ms) + pre.skip(p),
                self.queue@ == q0 + spec_tick_outputs(
                    pre.take(p),
                    now_ms,
                    self.node_id,
                    self.session,
                ),
            decreases self.peers.len() - i,
        {
            proof {
                assert(pre.skip(p)[0] == pre[p]);
                assert(self.peers@[i as int] == pre[p]);
                lemma_ntick_take_step(pre, now_ms, self.node_id, self.session, p);
            }
            let expired = {
                let q = &self.peers[i];
                now_ms >= q.last_seen && now_ms - q.last_seen >= NEIGHBOUR_TIMEOUT_MS
            };
            if expired {
                let ghost mid = self.peers@;
                let peer = self.peers.remove(i);
                proof {
                    assert forall|a: int, b: int| 0 <= a < b < self.peers@.len() implies self
                        .peers@[a].addr != self.peers@[b].addr && self.peers@[a].conn != self
                        .peers@[b].conn by {
                        let a0: int = if a < i {
                            a
                        } else {
                            a + 1
                        };
                        let b0: int = if b < i {
                            b
                        } else {
                            b + 1
                        };
                        assert(self.peers@[a] == mid[a0]);
                        assert(self.peers@[b] == mid[b0]);
                    }
                    assert forall|a: int| 0 <= a < self.peers@.len() implies (
                    #[trigger] self.peers@[a]).conn < self.conn_seed by {
                        let a0: int = if a < i {
                            a
                        } else {
                            a + 1
                        };
                        assert(self.peers@[a] == mid[a0]);
                    }
                    assert(self.peers@ =~= spec_tick_keep(pre.take(p + 1), now_ms) + pre.skip(
                        p + 1,
                    ));
                }
                match peer.state {
                    NeighbourState::Connected => {
                        self.queue.push_back(
                            NeighboursOutput::Event(
                                ConnectionEvent::Disconnected(peer.conn, peer.node, peer.addr),
                            ),
                        );
                    },
                    NeighbourState::Connecting => {},
                }
                proof {
                    assert(self.queue@ =~= q0 + spec_tick_outputs(
                        pre.take(p + 1),
                        now_ms,
                        self.node_id,
                        self.session,
                    ));
                    p = p + 1;
                }
            } else {
                let q = &self.peers[i];
                match q.state {
                    NeighbourState::Connected => {
                        self.queue.push_back(
                            NeighboursOutput::Net(
                                q.addr,
                                NeighboursControl::Ping {
                                    from: self.node_id,
                                    seq: (now_ms & 0xffff_ffff) as u32,
                                },
                            ),
                        );
                    },
                    NeighbourState::Connecting => {
                        self.queue.push_back(
                            NeighboursOutput::Net(
                                q.addr,
                                NeighboursControl::ConnectRequest {
                                    from: self.node_id,
                                    session: self.session,
                                },
                            ),
                        );
                    },
                }
                i += 1;
                proof {
                    assert(self.peers@ =~= spec_tick_keep(pre.take(p + 1), now_ms) + pre.skip(
                        p + 1,
                    ));
                    assert(self.queue@ =~= q0 + spec_tick_outputs(
                        pre.take(p + 1),
                        now_ms,
                        self.node_id,
                        self.session,
                    ));
                    p = p + 1;
                }
            }
        }
        proof {
            assert(p == pre.len());
            assert(pre.take(pre.len() as int) =~= pre);
            assert(pre.skip(pre.len() as int) =~= Seq::<Neighbour>::empty());
            assert(self.peers@ =~= spec_tick_keep(pre, now_ms));
        }
    }

    /// One input of the host or the wire, run through the state machine.
    /// Asking to connect to a fresh address records one peer in its
    /// handshake and sends it one connect request; asking for an address
    /// already known changes nothing.
    #[verifier::loop_isolation(false)]
    pub fn on_input(&mut self, now_ms: u64, input: NeighboursInput)
        requires
            old(self).wf(),
        ensures
            final(self).wf(),
            match input {
                NeighboursInput::Control(remote, control) => Self::spec_control_effect(
                    *old(self),
                    *final(self),
                    now_ms,
                    remote,
                    control,
                ),
                NeighboursInput::DisconnectFrom(node) => {
                    &&& final(self).node_val() == old(self).node_val()
                    &&& final(self).session_val() == old(self).session_val()
                    &&& final(self).conn_seed_val() == old(self).conn_seed_val()
                    &&& final(self).peers_view() == spec_disc_keep(old(self).peers_view(), node)
                    &&& final(self).queue_view() == old(self).queue_view() + spec_disc_outputs(
                        old(self).peers_view(),
                        node,
                        old(self).node_val(),
                        old(self).session_val(),
                    )
                },
                NeighboursInput::ShutdownRequest => {
                    &&& final(self).node_val() == old(self).node_val()
                    &&& final(self).session_val() == old(self).session_val()
                    &&& final(self).conn_seed_val() == old(self).conn_seed_val()
                    &&& final(self).peers_view().len() == 0
                    &&& final(self).queue_view() == (old(self).queue_view()
                        + spec_shutdown_outputs(
                        old(self).peers_view(),
                        old(self).node_val(),
                        old(self).session_val(),
                    )).push(NeighboursOutput::ShutdownResponse)
                },
                NeighboursInput::ConnectTo(addr) => {
                    if old(self).spec_knows_addr(addr) || old(self).conn_seed_val()
                        == 0xffff_ffff_ffff_ffff {
                        *final(self) == *old(self)
                    } else {
                        &&& final(self).peers_view() == old(self).peers_view().push(
                            (Neighbour {
                                addr,
                                node: 0,
                                conn: old(self).conn_seed_val(),
                                state: NeighbourState::Connecting,
                                last_seen: now_ms,
                            }),
                        )
                        &&& final(self).queue_view() == old(self).queue_view().push(
                            NeighboursOutput::Net(
                                addr,
                                NeighboursControl::ConnectRequest {
                                    from: old(self).node_val(),
                                    session: old(self).session_val(),
                                },
                            ),
                        )
                    }
                },
                _ => true,
            },
    {
        match input {
            NeighboursInput::ConnectTo(addr) => {
                match self.find_by_addr(addr) {
                    Some(i) => {
                        proof {
                            assert(self.peers_view()[i as int].addr == addr);
                            assert(self.spec_knows_addr(addr));
                        }
                    },
                    None => {
                        proof {
                            if self.spec_knows_addr(addr) {
                                let i = choose|i: int| 0 <= i < self.peers_view().len() && self
                                    .peers_view()[i].addr == addr;
                                assert(false);
                            }
                        }
                        let conn = match self.next_conn() {
                            Some(c) => c,
                            None => {
                                return;
                            },
                        };
                        self.peers.push(
                            Neighbour {
                                addr,
                                node: 0,
                                conn,
                                state: NeighbourState::Connecting,
                                last_seen: now_ms,
                            },
                        );
                        self.queue.push_back(
                            NeighboursOutput::Net(
                                addr,
                                NeighboursControl::ConnectRequest {
                                    from: self.node_id,
                                    session: self.session,
                                },
                            ),
                        );
                        proof {
                            assert(self.peers@ =~= old(self).peers@.push(
                                Neighbour {
                                    addr,
                                    node: 0,
                                    conn: old(self).conn_seed_val(),
                                    state: NeighbourState::Connecting,
                                    last_seen: now_ms,
                                },
                            ));
                            assert(self.queue@ =~= old(self).queue@.push(
                                NeighboursOutput::Net(
                                    addr,
                                    NeighboursControl::ConnectRequest {
                                        from: old(self).node_val(),
                                        session: old(self).session_val(),
                                    },
                                ),
                            ));
                        }
                    },
                }
            },
            NeighboursInput::DisconnectFrom(node) => {
                self.disconnect_from(node);
            },
            NeighboursInput::Control(remote, control) => {
                self.on_control(now_ms, remote, control);
            },
            NeighboursInput::ShutdownRequest => {
                self.shutdown();
            },
        }
    }

    /// Takes down every connected peer of `node`: each leaves with a wire
    /// farewell and a fall event, in peer order.
    #[verifier::loop_isolation(false)]
    #[verifier::rlimit(60)]
    #[verifier::spinoff_prover]
    fn disconnect_from(&mut self, node: NodeId)
        requires
            old(self).wf(),
        ensures
            final(self).wf(),
            final(self).node_val() == old(self).node_val(),
            final(self).session_val() == old(self).session_val(),
            final(self).conn_seed_val() == old(self).conn_seed_val(),
            final(self).peers_view() == spec_disc_keep(old(self).peers_view(), node),
            final(self).queue_view() == old(self).queue_view() + spec_disc_outputs(
                old(self).peers_view(),
                node,
                old(self).node_val(),
                old(self).session_val(),
            ),
    {
                let ghost pre = self.peers@;
                let ghost q0 = self.queue@;
                let mut i: usize = 0;
                let ghost mut p: int = 0;
                proof {
                    assert(pre.take(0) =~= Seq::<Neighbour>::empty());
                    assert(pre.skip(0) =~= pre);
                    assert(self.peers@ =~= spec_disc_keep(pre.take(p), node) + pre.skip(p));
                    assert(q0 + spec_disc_outputs(pre.take(p), node, self.node_id, self.session)
                        =~= q0);
                }
                while i < self.peers.len()
                    invariant
                        self.wf(),
                        self.node_id == old(self).node_val(),
                        self.session == old(self).session_val(),
                        self.conn_seed == old(self).conn_seed_val(),
                        0 <= p <= pre.len(),
                        i == spec_disc_keep(pre.take(p), node).len(),
                        self.peers@ == spec_disc_keep(pre.take(p), node) + pre.skip(p),
                        self.queue@ == q0 + spec_disc_outputs(
                            pre.take(p),
                            node,
                            self.node_id,
                            self.session,
                        ),
                    decreases self.peers.len() - i,
                {
                    proof {
                        assert(pre.skip(p)[0] == pre[p]);
                        assert(self.peers@[i as int] == pre[p]);
                        lemma_disc_take_step(pre, node, self.node_id, self.session, p);
                    }
                    let hit = {
                        let q = &self.peers[i];
                        q.node == node && matches!(q.state, NeighbourState::Connected)
                    };
                    if hit {
                        let ghost mid = self.peers@;
                        let peer = self.peers.remove(i);
                        proof {
                            assert forall|a: int, b: int| 0 <= a < b < self.peers@.len() implies
                                self.peers@[a].addr != self.peers@[b].addr && self.peers@[a].conn
                                != self.peers@[b].conn by {
                                let a0: int = if a < i {
                                    a
                                } else {
                                    a + 1
                                };
                                let b0: int = if b < i {
                                    b
                                } else {
                                    b + 1
                                };
                                assert(self.peers@[a] == mid[a0]);
                                assert(self.peers@[b] == mid[b0]);
                            }
                            assert forall|a: int| 0 <= a < self.peers@.len() implies (
                            #[trigger] self.peers@[a]).conn < self.conn_seed by {
                                let a0: int = if a < i {
                                    a
                                } else {
                                    a + 1
                                };
                                assert(self.peers@[a] == mid[a0]);
                            }
                            assert(self.peers@ =~= spec_disc_keep(pre.take(p + 1), node)
                                + pre.skip(p + 1));
                        }
                        self.queue.push_back(
                            NeighboursOutput::Net(
                                peer.addr,
                                NeighboursControl::Disconnect {
                                    from: self.node_id,
                                    session: self.session,
                                },
                            ),
                        );
                        self.queue.push_back(
                            NeighboursOutput::Event(
                                ConnectionEvent::Disconnected(peer.conn, peer.node, peer.addr),
                            ),
                        );
                        proof {
                            assert(self.queue@ =~= q0 + spec_disc_outputs(
                                pre.take(p + 1),
                                node,
                                self.node_id,
                                self.session,
                            ));
                            p = p + 1;
                        }
                    } else {
                        i += 1;
                        proof {
                            assert(self.peers@ =~= spec_disc_keep(pre.take(p + 1), node)
                                + pre.skip(p + 1));
                            assert(self.queue@ =~= q0 + spec_disc_outputs(
                                pre.take(p + 1),
                                node,
                                self.node_id,
                                self.session,
                            ));
                            p = p + 1;
                        }
                    }
                }
                proof {
                    assert(p == pre.len());
                    assert(pre.take(pre.len() as int) =~= pre);
                    assert(pre.skip(pre.len() as int) =~= Seq::<Neighbour>::empty());
                    assert(self.peers@ =~= spec_disc_keep(pre, node));
                }
    }

    /// Winds every peer down: each gets a wire farewell (connected ones a
    /// fall event too), then the shutdown is acknowledged.
    #[verifier::loop_isolation(false)]
    #[verifier::rlimit(60)]
    #[verifier::spinoff_prover]
    fn shutdown(&mut self)
        requires
            old(self).wf(),
        ensures
            final(self).wf(),
            final(self).node_val() == old(self).node_val(),
            final(self).session_val() == old(self).session_val(),
            final(self).conn_seed_val() == old(self).conn_seed_val(),
            final(self).peers_view().len() == 0,
            final(self).queue_view() == (old(self).queue_view() + spec_shutdown_outputs(
                old(self).peers_view(),
                old(self).node_val(),
                old(self).session_val(),
            )).push(NeighboursOutput::ShutdownResponse),
    {
                let ghost pre = self.peers@;
                let ghost q0 = self.queue@;
                let ghost mut p: int = 0;
                proof {
                    assert(pre.skip(0) =~= pre);
                    assert(q0 + spec_shutdown_outputs(
                        pre.skip(pre.len() as int),
                        self.node_id,
                        self.session,
                    ) =~= q0 + Seq::<NeighboursOutput>::empty());
                    assert(q0 + Seq::<NeighboursOutput>::empty() =~= q0);
                }
                while self.peers.len() > 0
                    invariant
                        self.wf(),
                        self.node_id == old(self).node_val(),
                        self.session == old(self).session_val(),
                        self.conn_seed == old(self).conn_seed_val(),
                        0 <= p <= pre.len(),
                        self.peers@ == pre.skip(p),
                        self.queue@ + spec_shutdown_outputs(
                            pre.skip(p),
                            self.node_id,
                            self.session,
                        ) == q0 + spec_shutdown_outputs(pre, self.node_id, self.session),
                    decreases self.peers.len(),
                {
                    proof {
                        assert(pre.skip(p)[0] == pre[p]);
                        assert(pre.skip(p).skip(1) =~= pre.skip(p + 1));
                    }
                    let peer = self.peers.remove(0);
                    proof {
                        assert(self.peers@ =~= pre.skip(p + 1));
                    }
                    self.queue.push_back(
                        NeighboursOutput::Net(
                            peer.addr,
                            NeighboursControl::Disconnect {
                                from: self.node_id,
                                session: self.session,
                            },
                        ),
                    );
                    match peer.state {
                        NeighbourState::Connected => {
                            self.queue.push_back(
                                NeighboursOutput::Event(
                                    ConnectionEvent::Disconnected(peer.conn, peer.node, peer.addr),
                                ),
                            );
                        },
                        NeighbourState::Connecting => {},
                    }
                    proof {
                        assert(self.queue@ + spec_shutdown_outputs(
                            pre.skip(p + 1),
                            self.node_id,
                            self.session,
                        ) =~= q0 + spec_shutdown_outputs(pre, self.node_id, self.session));
                        p = p + 1;
                    }
                }
                proof {
                    assert(pre.skip(p) =~= Seq::<Neighbour>::empty());
                    assert(self.queue@ + Seq::<NeighboursOutput>::empty() =~= self.queue@);
                    assert(self.queue@ =~= q0 + spec_shutdown_outputs(
                        pre,
                        self.node_id,
                        self.session,
                    ));
                }
                self.queue.push_back(NeighboursOutput::ShutdownResponse);
    }

    /// The state machine, transition by transition: a connect request is
    /// granted and the peer connected; an accept completes an open
    /// handshake; a ping refreshes the peer and is answered with a pong;
    /// a pong refreshes the peer and reports its round-trip time; a
    /// disconnect removes the peer. A control from an unknown address
    /// changes nothing unless it is a connect request, which pins a new
    /// peer while connection identifiers remain.
    pub open spec fn spec_control_effect(
        pre: Self,
        post: Self,
        now: u64,
        remote: u64,
        control: NeighboursControl,
    ) -> bool {
        let ps = pre.peers_view();
        let q0 = pre.queue_view();
        let me = pre.node_val();
        let session = pre.session_val();
        let same_ids = post.node_val() == me && post.session_val() == session;
        match control {
            NeighboursControl::ConnectRequest { from, .. } => match spec_find_peer(ps, remote) {
                Some(i) => {
                    let accepted = NeighboursOutput::Net(
                        remote,
                        NeighboursControl::ConnectAccept { from: me, session },
                    );
                    &&& same_ids
                    &&& post.conn_seed_val() == pre.conn_seed_val()
                    &&& post.peers_view() == ps.update(
                        i,
                        (Neighbour {
                            addr: ps[i].addr,
                            node: from,
                            conn: ps[i].conn,
                            state: NeighbourState::Connected,
                            last_seen: now,
                        }),
                    )
                    &&& post.queue_view() == (if ps[i].state == NeighbourState::Connecting {
                        q0.push(accepted).push(
                            NeighboursOutput::Event(
                                ConnectionEvent::Connected(ps[i].conn, from, remote),
                            ),
                        )
                    } else {
                        q0.push(accepted)
                    })
                },
                None => if pre.conn_seed_val() == 0xffff_ffff_ffff_ffff {
                    post == pre
                } else {
                    &&& same_ids
                    &&& post.conn_seed_val() == pre.conn_seed_val() + 1
                    &&& post.peers_view() == ps.push(
                        (Neighbour {
                            addr: remote,
                            node: from,
                            conn: pre.conn_seed_val(),
                            state: NeighbourState::Connected,
                            last_seen: now,
                        }),
                    )
                    &&& post.queue_view() == q0.push(
                        NeighboursOutput::Net(
                            remote,
                            NeighboursControl::ConnectAccept { from: me, session },
                        ),
                    ).push(
                        NeighboursOutput::Event(
                            ConnectionEvent::Connected(pre.conn_seed_val(), from, remote),
                        ),
                    )
                },
            },
            NeighboursControl::ConnectAccept { from, .. } => match spec_find_peer(ps, remote) {
                Some(i) => if ps[i].state == NeighbourState::Connecting {
                    &&& same_ids
                    &&& post.conn_seed_val() == pre.conn_seed_val()
                    &&& post.peers_view() == ps.update(
                        i,
                        (Neighbour {
                            addr: ps[i].addr,
                            node: from,
                            conn: ps[i].conn,
                            state: NeighbourState::Connected,
                            last_seen: now,
                        }),
                    )
                    &&& post.queue_view() == q0.push(
                        NeighboursOutput::Event(
                            ConnectionEvent::Connected(ps[i].conn, from, remote),
                        ),
                    )
                } else {
                    post == pre
                },
                None => post == pre,
            },
            NeighboursControl::Ping { seq, .. } => match spec_find_peer(ps, remote) {
                Some(i) => {
                    &&& same_ids
                    &&& post.conn_seed_val() == pre.conn_seed_val()
                    &&& post.peers_view() == ps.update(
                        i,
                        (Neighbour { last_seen: now, ..ps[i] }),
                    )
                    &&& post.queue_view() == q0.push(
                        NeighboursOutput::Net(
                            remote,
                            NeighboursControl::Pong { from: me, seq },
                        ),
                    )
                },
                None => post == pre,
            },
            NeighboursControl::Pong { seq, .. } => match spec_find_peer(ps, remote) {
                Some(i) => {
                    let now_low = (now & 0xffff_ffff) as u32;
                    let rtt: u16 = if now_low >= seq && now_low - seq < 0xffff {
                        (now_low - seq) as u16
                    } else {
                        0xffff
                    };
                    &&& same_ids
                    &&& post.conn_seed_val() == pre.conn_seed_val()
                    &&& post.peers_view() == ps.update(
                        i,
                        (Neighbour { last_seen: now, ..ps[i] }),
                    )
                    &&& post.queue_view() == (if ps[i].state == NeighbourState::Connected {
                        q0.push(
                            NeighboursOutput::Event(
                                ConnectionEvent::Stats(ps[i].conn, ps[i].node, rtt),
                            ),
                        )
                    } else {
                        q0
                    })
                },
                None => post == pre,
            },
            NeighboursControl::Disconnect { .. } => match spec_find_peer(ps, remote) {
                Some(i) => {
                    &&& same_ids
                    &&& post.conn_seed_val() == pre.conn_seed_val()
                    &&& post.peers_view() == ps.remove(i)
                    &&& post.queue_view() == (if ps[i].state == NeighbourState::Connected {
                        q0.push(
                            NeighboursOutput::Event(
                                ConnectionEvent::Disconnected(ps[i].conn, ps[i].node, ps[i].addr),
                            ),
                        )
                    } else {
                        q0
                    })
                },
                None => post == pre,
            },
        }
    }

    /// One wire control, run through the state machine.
    fn on_control(&mut self, now_ms: u64, remote: u64, control: NeighboursControl)
        requires
            old(self).wf(),
        ensures
            final(self).wf(),
            Self::spec_control_effect(*old(self), *final(self), now_ms, remote, control),
    {
        match control {
            NeighboursControl::ConnectRequest { from, session: _ } => {
                match self.find_by_addr(remote) {
                    Some(i) => {
                        let was_connecting = matches!(
                            self.peers[i].state,
                            NeighbourState::Connecting,
                        );
                        let conn = self.peers[i].conn;
                        let p = peer_at_mut(&mut self.peers, i);
                        p.node = from;
                        p.state = NeighbourState::Connected;
                        p.last_seen = now_ms;
                        self.queue.push_back(
                            NeighboursOutput::Net(
                                remote,
                                NeighboursControl::ConnectAccept {
                                    from: self.node_id,
                                    session: self.session,
                                },
                            ),
                        );
                        if was_connecting {
                            self.queue.push_back(
                                NeighboursOutput::Event(
                                    ConnectionEvent::Connected(conn, from, remote),
                                ),
                            );
                        }
                    },
                    None => {
                        let conn = match self.next_conn() {
                            Some(c) => c,
                            None => {
                                return;
                            },
                        };
                        self.peers.push(
                            Neighbour {
                                addr: remote,
                                node: from,
                                conn,
                                state: NeighbourState::Connected,
                                last_seen: now_ms,
                            },
                        );
                        self.queue.push_back(
                            NeighboursOutput::Net(
                                remote,
                                NeighboursControl::ConnectAccept {
                                    from: self.node_id,
                                    session: self.session,
                                },
                            ),
                        );
                        self.queue.push_back(
                            NeighboursOutput::Event(
                                ConnectionEvent::Connected(conn, from, remote),
                            ),
                        );
                    },
                }
            },
            NeighboursControl::ConnectAccept { from, session: _ } => {
                match self.find_by_addr(remote) {
                    Some(i) => {
                        let was_connecting = matches!(
                            self.peers[i].state,
                            NeighbourState::Connecting,
                        );
                        if was_connecting {
                            let conn = self.peers[i].conn;
                            let p = peer_at_mut(&mut self.peers, i);
                            p.node = from;
                            p.state = NeighbourState::Connected;
                            p.last_seen = now_ms;
                            self.queue.push_back(
                                NeighboursOutput::Event(
                                    ConnectionEvent::Connected(conn, from, remote),
                                ),
                            );
                        }
                    },
                    None => {},
                }
            },
            NeighboursControl::Ping { from: _, seq } => {
                match self.find_by_addr(remote) {
                    Some(i) => {
                        let p = peer_at_mut(&mut self.peers, i);
                        p.last_seen = now_ms;
                        self.queue.push_back(
                            NeighboursOutput::Net(
                                remote,
                                NeighboursControl::Pong { from: self.node_id, seq },
                            ),
                        );
                    },
                    None => {},
                }
            },
            NeighboursControl::Pong { from: _, seq } => {
                match self.find_by_addr(remote) {
                    Some(i) => {
                        let connected = matches!(self.peers[i].state, NeighbourState::Connected);
                        let conn = self.peers[i].conn;
                        let node = self.peers[i].node;
                        let p = peer_at_mut(&mut self.peers, i);
                        p.last_seen = now_ms;
                        if connected {
                            let now_low = (now_ms & 0xffff_ffff) as u32;
                            let rtt: u16 = if now_low >= seq && now_low - seq < 0xffff {
                                (now_low - seq) as u16
                            } else {
                                0xffff
                            };
                            self.queue.push_back(
                                NeighboursOutput::Event(ConnectionEvent::Stats(conn, node, rtt)),
                            );
                        }
                    },
                    None => {},
                }
            },
            NeighboursControl::Disconnect { .. } => {
                match self.find_by_addr(remote) {
                    Some(i) => {
                        let p = self.peers.remove(i);
                        match p.state {
                            NeighbourState::Connected => {
                                self.queue.push_back(
                                    NeighboursOutput::Event(
                                        ConnectionEvent::Disconnected(p.conn, p.node, p.addr),
                                    ),
                                );
                            },
                            NeighbourState::Connecting => {},
                        }
                    },
                    None => {},
                }
            },
        }
    }

    /// The oldest queued output, if any.
    pub fn pop_output(&mut self) -> (r: Option<NeighboursOutput>)
        requires
            old(self).wf(),
        ensures
            final(self).wf(),
            final(self).peers_view() == old(self).peers_view(),
            final(self).node_val() == old(self).node_val(),
            final(self).session_val() == old(self).session_val(),
            final(self).conn_seed_val() == old(self).conn_seed_val(),
            match r {
                Some(out) => old(self).queue_view().len() > 0 && out == old(self).queue_view()[0]
                    && final(self).queue_view() == old(self).queue_view().skip(1),
                None => old(self).queue_view().len() == 0 && *final(self) == *old(self),
            },
    {
        if self.queue.len() == 0 {
            return None;
        }
        let r = self.queue.pop_front();
        proof {
            assert(final(self).queue_view() =~= old(self).queue_view().skip(1));
        }
        r
    }
}

/// A mutable borrow of peer `i`.
fn peer_at_mut(v: &mut Vec<Neighbour>, i: usize) -> (element: &mut Neighbour)
    requires
        i < old(v).len(),
    ensures
        *element == old(v)@[i as int],
        final(v)@ == old(v)@.update(i as int, *final(element)),
{
    &mut v[i]
}

} // verus!
