//! The transport message header, as it stands on the wire.
//!
//! Network byte order. Byte 0 packs the two version bits (zero), the
//! secure bit, three route-type bits and the from-node-present bit; its
//! lowest bit is reserved and must be zero. Bytes 1 to 3 are the feature
//! identifier, the TTL and the meta byte. An optional 32-bit source node
//! follows, then the route rule's payload: nothing for `Direct`, a node
//! for `ToNode` and `ToKey`, a service byte for `ToService`, a count and
//! that many nodes for `ToNodes`, and a 16-bit broadcast sequence number
//! for `Broadcast`.

use vstd::prelude::*;

use crate::addr::NodeId;
use crate::router::{RouteRule, RouteRuleV};

verus! {

/// Mathematical value of a header.
#[verifier::ext_equal]
pub struct HeaderV {
    pub secure: bool,
    pub feature: u8,
    pub ttl: u8,
    pub meta: u8,
    pub from_node: Option<NodeId>,
    pub route: RouteRuleV,
}

/// The parsed transport message header.
#[derive(Debug)]
pub struct TransportMsgHeader {
    /// Whether the payload is encrypted end to end on this hop.
    pub secure: bool,
    /// Which feature the payload belongs to.
    pub feature: u8,
    /// Hops the packet may still travel.
    pub ttl: u8,
    /// One free byte features may use.
    pub meta: u8,
    /// The node the packet originates from, when stamped.
    pub from_node: Option<NodeId>,
    /// Where the packet is told to go.
    pub route: RouteRule,
}

impl View for TransportMsgHeader {
    type V = HeaderV;

    open spec fn view(&self) -> HeaderV {
        HeaderV {
            secure: self.secure,
            feature: self.feature,
            ttl: self.ttl,
            meta: self.meta,
            from_node: self.from_node,
            route: self.route@,
        }
    }
}

/// Why a buffer does not parse as a header.
#[derive(Debug, Clone, Copy, PartialEq, Eq, Structural)]
pub enum HeaderError {
    /// The buffer ends before the header does.
    TooSmall,
    /// The version bits or the reserved bit are not zero.
    InvalidVersion,
    /// The route-type bits name no route rule.
    InvalidRouteType,
}

/// A node identifier in network byte order.
pub open spec fn spec_u32_be(x: u32) -> Seq<u8> {
    seq![
        (x >> 24) as u8,
        ((x >> 16) & 0xff) as u8,
        ((x >> 8) & 0xff) as u8,
        (x & 0xff) as u8,
    ]
}

/// A sequence number in network byte order.
pub open spec fn spec_u16_be(x: u16) -> Seq<u8> {
    seq![(x >> 8) as u8, (x & 0xff) as u8]
}

/// The three route-type bits of each rule.
pub open spec fn spec_route_type(r: RouteRuleV) -> u8 {
    match r {
        RouteRuleV::Direct => 0,
        RouteRuleV::ToNode(_) => 1,
        RouteRuleV::ToKey(_) => 2,
        RouteRuleV::ToService(_) => 3,
        RouteRuleV::ToNodes(_) => 4,
        RouteRuleV::Broadcast(_) => 5,
    }
}

/// A list of nodes, each in network byte order.
pub open spec fn spec_nodes_bytes(ns: Seq<NodeId>) -> Seq<u8>
    decreases ns.len(),
{
    if ns.len() == 0 {
        Seq::empty()
    } else {
        spec_u32_be(ns[0]) + spec_nodes_bytes(ns.skip(1))
    }
}

/// The payload that follows the fixed bytes, per rule.
pub open spec fn spec_route_payload(r: RouteRuleV) -> Seq<u8> {
    match r {
        RouteRuleV::Direct => Seq::empty(),
        RouteRuleV::ToNode(n) => spec_u32_be(n),
        RouteRuleV::ToKey(k) => spec_u32_be(k),
        RouteRuleV::ToService(s) => seq![s],
        RouteRuleV::ToNodes(ns) => seq![ns.len() as u8] + spec_nodes_bytes(ns),
        RouteRuleV::Broadcast(q) => spec_u16_be(q),
    }
}

/// Byte 0 of a header: version zero, the secure bit, the route type, the
/// from-node-present bit, and a zero reserved bit.
pub open spec fn spec_header_byte0(h: HeaderV) -> u8 {
    (((if h.secure {
        0x20u8
    } else {
        0u8
    }) | (spec_route_type(h.route) << 2)) | (if h.from_node is Some {
        2u8
    } else {
        0u8
    }))
}

/// The whole header on the wire.
pub open spec fn spec_encode_header(h: HeaderV) -> Seq<u8> {
    seq![spec_header_byte0(h), h.feature, h.ttl, h.meta] + (match h.from_node {
        Some(n) => spec_u32_be(n),
        None => Seq::empty(),
    }) + spec_route_payload(h.route)
}

/// A header that fits the wire form: a `ToNodes` set of at most 255
/// nodes.
pub open spec fn spec_header_wf(h: HeaderV) -> bool {
    match h.route {
        RouteRuleV::ToNodes(ns) => ns.len() <= 255,
        _ => true,
    }
}

/// The node at offset `at`, read in network byte order.
pub open spec fn spec_read_u32_be(b: Seq<u8>, at: int) -> u32 {
    (((b[at] as u32) << 24) | ((b[at + 1] as u32) << 16) | ((b[at + 2] as u32) << 8) | (b[at + 3]
        as u32))
}

/// The sequence number at offset `at`, read in network byte order.
pub open spec fn spec_read_u16_be(b: Seq<u8>, at: int) -> u16 {
    (((b[at] as u16) << 8) | (b[at + 1] as u16))
}

/// The `k` nodes starting at offset `at`.
pub open spec fn spec_read_nodes(b: Seq<u8>, at: int, k: int) -> Seq<NodeId>
    decreases k,
{
    if k <= 0 {
        Seq::empty()
    } else {
        spec_read_nodes(b, at, k - 1).push(spec_read_u32_be(b, at + 4 * (k - 1)))
    }
}

/// What parsing `b` yields: the header and how many bytes it took, or why
/// it is rejected. The fixed bytes come first, then the source node when
/// its bit is set, then the rule's payload; every length is checked
/// before it is read.
pub open spec fn spec_decode_header(b: Seq<u8>) -> Result<(HeaderV, int), HeaderError> {
    if b.len() < 4 {
        Err(HeaderError::TooSmall)
    } else if (b[0] >> 6) != 0 || (b[0] & 1) != 0 {
        Err(HeaderError::InvalidVersion)
    } else {
        let secure = ((b[0] >> 5) & 1) == 1;
        let rt = (b[0] >> 2) & 7;
        let has_from = ((b[0] >> 1) & 1) == 1;
        let from_len: int = if has_from {
            4
        } else {
            0
        };
        if b.len() < 4 + from_len {
            Err(HeaderError::TooSmall)
        } else {
            let from = if has_from {
                Some(spec_read_u32_be(b, 4))
            } else {
                None
            };
            let base = 4 + from_len;
            let head = HeaderV {
                secure,
                feature: b[1],
                ttl: b[2],
                meta: b[3],
                from_node: from,
                route: RouteRuleV::Direct,
            };
            if rt == 0 {
                Ok((head, base))
            } else if rt == 1 {
                if b.len() < base + 4 {
                    Err(HeaderError::TooSmall)
                } else {
                    Ok(
                        (
                            HeaderV { route: RouteRuleV::ToNode(spec_read_u32_be(b, base)), ..head },
                            base + 4,
                        ),
                    )
                }
            } else if rt == 2 {
                if b.len() < base + 4 {
                    Err(HeaderError::TooSmall)
                } else {
                    Ok(
                        (
                            HeaderV { route: RouteRuleV::ToKey(spec_read_u32_be(b, base)), ..head },
                            base + 4,
                        ),
                    )
                }
            } else if rt == 3 {
                if b.len() < base + 1 {
                    Err(HeaderError::TooSmall)
                } else {
                    Ok((HeaderV { route: RouteRuleV::ToService(b[base]), ..head }, base + 1))
                }
            } else if rt == 4 {
                if b.len() < base + 1 {
                    Err(HeaderError::TooSmall)
                } else {
                    let count = b[base] as int;
                    if b.len() < base + 1 + 4 * count {
                        Err(HeaderError::TooSmall)
                    } else {
                        Ok(
                            (
                                HeaderV {
                                    route: RouteRuleV::ToNodes(
                                        spec_read_nodes(b, base + 1, count),
                                    ),
                                    ..head
                                },
                                base + 1 + 4 * count,
                            ),
                        )
                    }
                }
            } else if rt == 5 {
                if b.len() < base + 2 {
                    Err(HeaderError::TooSmall)
                } else {
                    Ok(
                        (
                            HeaderV {
                                route: RouteRuleV::Broadcast(spec_read_u16_be(b, base)),
                                ..head
                            },
                            base + 2,
                        ),
                    )
                }
            } else {
                Err(HeaderError::InvalidRouteType)
            }
        }
    }
}

/// A node list's wire form is four bytes per node.
pub proof fn lemma_nodes_bytes_len(ns: Seq<NodeId>)
    ensures
        spec_nodes_bytes(ns).len() == 4 * ns.len(),
    decreases ns.len(),
{
    if ns.len() > 0 {
        lemma_nodes_bytes_len(ns.skip(1));
    }
}

/// Byte `4 * j + i` of a node list's wire form is byte `i` of node `j`.
pub proof fn lemma_nodes_bytes_at(ns: Seq<NodeId>, j: int, i: int)
    requires
        0 <= j < ns.len(),
        0 <= i < 4,
    ensures
        spec_nodes_bytes(ns).len() == 4 * ns.len(),
        spec_nodes_bytes(ns)[4 * j + i] == spec_u32_be(ns[j])[i],
    decreases j,
{
    lemma_nodes_bytes_len(ns);
    lemma_nodes_bytes_len(ns.skip(1));
    if j == 0 {
    } else {
        lemma_nodes_bytes_at(ns.skip(1), j - 1, i);
    }
}

/// Reading four bytes back yields the node they encode.
pub proof fn lemma_u32_be_round_trip(x: u32)
    ensures
        ((((x >> 24) as u8) as u32) << 24) | (((((x >> 16) & 0xff) as u8) as u32) << 16) | (((((x
            >> 8) & 0xff) as u8) as u32) << 8) | (((x & 0xff) as u8) as u32) == x,
{
    assert(((((x >> 24) as u8) as u32) << 24) | (((((x >> 16) & 0xff) as u8) as u32) << 16) | (((((
    x >> 8) & 0xff) as u8) as u32) << 8) | (((x & 0xff) as u8) as u32) == x) by (bit_vector);
}

/// Reading two bytes back yields the sequence number they encode.
pub proof fn lemma_u16_be_round_trip(x: u16)
    ensures
        ((((x >> 8) as u8) as u16) << 8) | (((x & 0xff) as u8) as u16) == x,
{
    assert(((((x >> 8) as u8) as u16) << 8) | (((x & 0xff) as u8) as u16) == x) by (bit_vector);
}

/// Reading a node list back, node by node, yields the nodes themselves.
proof fn lemma_read_nodes_of_bytes(b: Seq<u8>, at: int, ns: Seq<NodeId>, k: int)
    requires
        0 <= at,
        0 <= k <= ns.len(),
        at + 4 * ns.len() <= b.len(),
        forall|i: int| 0 <= i < 4 * ns.len() ==> b[at + i] == spec_nodes_bytes(ns)[i],
    ensures
        spec_read_nodes(b, at, k) == ns.take(k),
    decreases k,
{
    lemma_nodes_bytes_len(ns);
    if k == 0 {
        assert(spec_read_nodes(b, at, 0) =~= ns.take(0));
    } else {
        lemma_read_nodes_of_bytes(b, at, ns, k - 1);
        let j = k - 1;
        let n = ns[j];
        lemma_nodes_bytes_at(ns, j, 0);
        lemma_nodes_bytes_at(ns, j, 1);
        lemma_nodes_bytes_at(ns, j, 2);
        lemma_nodes_bytes_at(ns, j, 3);
        assert(b[at + 4 * j] == (n >> 24) as u8);
        assert(b[at + 4 * j + 1] == ((n >> 16) & 0xff) as u8);
        assert(b[at + 4 * j + 2] == ((n >> 8) & 0xff) as u8);
        assert(b[at + 4 * j + 3] == (n & 0xff) as u8);
        lemma_u32_be_round_trip(n);
        assert(spec_read_u32_be(b, at + 4 * j) == n);
        assert(spec_read_nodes(b, at, k) =~= ns.take(k));
    }
}

/// The first byte's fields unpack to what was packed into them.
proof fn lemma_byte0_fields(secure_bit: u8, rt: u8, from_bit: u8)
    requires
        secure_bit == 0 || secure_bit == 0x20,
        rt <= 5,
        from_bit == 0 || from_bit == 2,
    ensures
        ((secure_bit | (rt << 2)) | from_bit) >> 6 == 0,
        ((secure_bit | (rt << 2)) | from_bit) & 1 == 0,
        (((secure_bit | (rt << 2)) | from_bit) >> 5) & 1 == (if secure_bit == 0x20 {
            1u8
        } else {
            0u8
        }),
        (((secure_bit | (rt << 2)) | from_bit) >> 2) & 7 == rt,
        (((secure_bit | (rt << 2)) | from_bit) >> 1) & 1 == (if from_bit == 2 {
            1u8
        } else {
            0u8
        }),
{
    assert(((secure_bit | (rt << 2)) | from_bit) >> 6 == 0 && ((secure_bit | (rt << 2)) | from_bit)
        & 1 == 0 && (((secure_bit | (rt << 2)) | from_bit) >> 5) & 1 == (if secure_bit == 0x20 {
        1u8
    } else {
        0u8
    }) && (((secure_bit | (rt << 2)) | from_bit) >> 2) & 7 == rt && (((secure_bit | (rt << 2))
        | from_bit) >> 1) & 1 == (if from_bit == 2 {
        1u8
    } else {
        0u8
    })) by (bit_vector)
        requires
            secure_bit == 0 || secure_bit == 0x20,
            rt <= 5,
            from_bit == 0 || from_bit == 2,
    ;
}

/// A well-formed header's wire form parses back to the header itself,
/// taking exactly its own bytes.
#[verifier::rlimit(100)]
#[verifier::spinoff_prover]
pub proof fn lemma_header_round_trip(h: HeaderV)
    requires
        spec_header_wf(h),
    ensures
        spec_decode_header(spec_encode_header(h)) == Ok::<(HeaderV, int), HeaderError>(
            (h, spec_encode_header(h).len() as int),
        ),
{
    let b = spec_encode_header(h);
    let rt = spec_route_type(h.route);
    let secure_bit: u8 = if h.secure {
        0x20
    } else {
        0
    };
    let from_bit: u8 = if h.from_node is Some {
        2
    } else {
        0
    };
    let fromb = match h.from_node {
        Some(n) => spec_u32_be(n),
        None => Seq::<u8>::empty(),
    };
    let payload = spec_route_payload(h.route);
    assert(b[0] == spec_header_byte0(h));
    assert(spec_header_byte0(h) == (secure_bit | (rt << 2)) | from_bit);
    lemma_byte0_fields(secure_bit, rt, from_bit);
    assert(b[1] == h.feature);
    assert(b[2] == h.ttl);
    assert(b[3] == h.meta);
    let from_len: int = if h.from_node is Some {
        4
    } else {
        0
    };
    let base = 4 + from_len;
    assert(b.len() == base + payload.len());
    match h.from_node {
        Some(n) => {
            assert(b[4] == (n >> 24) as u8);
            assert(b[5] == ((n >> 16) & 0xff) as u8);
            assert(b[6] == ((n >> 8) & 0xff) as u8);
            assert(b[7] == (n & 0xff) as u8);
            lemma_u32_be_round_trip(n);
            assert(spec_read_u32_be(b, 4) == n);
        },
        None => {},
    }
    assert(forall|i: int| 0 <= i < payload.len() ==> b[base + i] == payload[i]);
    match h.route {
        RouteRuleV::Direct => {
        },
        RouteRuleV::ToNode(n) => {
            assert(payload == spec_u32_be(n));
            lemma_u32_be_round_trip(n);
            assert(spec_read_u32_be(b, base) == n);
        },
        RouteRuleV::ToKey(k) => {
            assert(payload == spec_u32_be(k));
            lemma_u32_be_round_trip(k);
            assert(spec_read_u32_be(b, base) == k);
        },
        RouteRuleV::ToService(s) => {
            assert(b[base] == s);
        },
        RouteRuleV::ToNodes(ns) => {
            lemma_nodes_bytes_len(ns);
            assert(payload.len() == 1 + 4 * ns.len());
            assert(b[base] == ns.len() as u8);
            assert(b[base] as int == ns.len());
            assert forall|i: int| 0 <= i < 4 * ns.len() implies b[base + 1 + i]
                == spec_nodes_bytes(ns)[i] by {
                assert(payload[1 + i] == spec_nodes_bytes(ns)[i]);
            }
            lemma_read_nodes_of_bytes(b, base + 1, ns, ns.len() as int);
            assert(ns.take(ns.len() as int) =~= ns);
            assert(spec_read_nodes(b, base + 1, ns.len() as int) == ns);
        },
        RouteRuleV::Broadcast(q) => {
            assert(b[base] == (q >> 8) as u8);
            assert(b[base + 1] == (q & 0xff) as u8);
            lemma_u16_be_round_trip(q);
            assert(spec_read_u16_be(b, base) == q);
        },
    }
    match spec_decode_header(b) {
        Ok((got, len)) => {
            assert(got =~= h);
            assert(len == b.len());
        },
        Err(_) => {
            assert(false);
        },
    }
}

/// Appends a node in network byte order.
pub(crate) fn push_u32_be(out: &mut Vec<u8>, x: u32)
    ensures
        final(out)@ == old(out)@ + spec_u32_be(x),
{
    out.push((x >> 24) as u8);
    out.push(((x >> 16) & 0xff) as u8);
    out.push(((x >> 8) & 0xff) as u8);
    out.push((x & 0xff) as u8);
    proof {
        assert(final(out)@ =~= old(out)@ + spec_u32_be(x));
    }
}

/// The node at offset `at`, read in network byte order.
pub(crate) fn read_u32_be(b: &Vec<u8>, at: usize) -> (r: u32)
    requires
        at + 4 <= b@.len(),
    ensures
        r == spec_read_u32_be(b@, at as int),
{
    let blen: usize = b.len();
    let b0 = b[at];
    let b1 = b[at + 1];
    let b2 = b[at + 2];
    let b3 = b[at + 3];
    proof {
        assert((b0 as u32) << 24u32 <= 0xff000000u32) by (bit_vector);
        assert((b1 as u32) << 16u32 <= 0xff0000u32) by (bit_vector);
        assert((b2 as u32) << 8u32 <= 0xff00u32) by (bit_vector);
    }
    ((b0 as u32) << 24) | ((b1 as u32) << 16) | ((b2 as u32) << 8) | (b3 as u32)
}

impl TransportMsgHeader {
    /// The header as it goes on the wire.
    pub fn to_bytes(&self) -> (r: Vec<u8>)
        requires
            spec_header_wf(self@),
        ensures
            r@ == spec_encode_header(self@),
    {
        let mut out: Vec<u8> = Vec::new();
        let route_type: u8 = match &self.route {
            RouteRule::Direct => 0,
            RouteRule::ToNode(_) => 1,
            RouteRule::ToKey(_) => 2,
            RouteRule::ToService(_) => 3,
            RouteRule::ToNodes(_) => 4,
            RouteRule::Broadcast(_) => 5,
        };
        let secure_bit: u8 = if self.secure {
            0x20
        } else {
            0
        };
        let from_bit: u8 = if self.from_node.is_some() {
            2
        } else {
            0
        };
        proof {
            assert(route_type << 2 <= 0x14u8) by (bit_vector)
                requires
                    route_type <= 5,
            ;
        }
        let byte0: u8 = (secure_bit | (route_type << 2)) | from_bit;
        out.push(byte0);
        out.push(self.feature);
        out.push(self.ttl);
        out.push(self.meta);
        let ghost fixed = out@;
        proof {
            assert(byte0 == spec_header_byte0(self@));
            assert(fixed =~= seq![spec_header_byte0(self@), self@.feature, self@.ttl, self@.meta]);
        }
        match self.from_node {
            Some(n) => {
                push_u32_be(&mut out, n);
            },
            None => {},
        }
        let ghost with_from = out@;
        proof {
            assert(with_from =~= fixed + (match self@.from_node {
                Some(n) => spec_u32_be(n),
                None => Seq::<u8>::empty(),
            }));
        }
        match &self.route {
            RouteRule::Direct => {},
            RouteRule::ToNode(n) => {
                push_u32_be(&mut out, *n);
            },
            RouteRule::ToKey(k) => {
                push_u32_be(&mut out, *k);
            },
            RouteRule::ToService(s) => {
                out.push(*s);
                proof {
                    assert(out@ =~= with_from + spec_route_payload(self@.route));
                }
            },
            RouteRule::ToNodes(ns) => {
                out.push(ns.len() as u8);
                let ghost with_count = out@;
                let mut i: usize = 0;
                while i < ns.len()
                    invariant
                        i <= ns@.len(),
                        out@ == with_count + spec_nodes_bytes(ns@.take(i as int)),
                    decreases ns.len() - i,
                {
                    let ghost pre = out@;
                    push_u32_be(&mut out, ns[i]);
                    i += 1;
                    proof {
                        lemma_nodes_bytes_take(ns@, i as int);
                    }
                }
                proof {
                    assert(ns@.take(ns@.len() as int) =~= ns@);
                    assert(with_count =~= with_from + seq![ns@.len() as u8]);
                    assert(out@ =~= with_from + spec_route_payload(self@.route));
                }
            },
            RouteRule::Broadcast(q) => {
                let q = *q;
                out.push((q >> 8) as u8);
                out.push((q & 0xff) as u8);
                proof {
                    assert(out@ =~= with_from + spec_route_payload(self@.route));
                }
            },
        }
        proof {
            assert(out@ =~= spec_encode_header(self@));
        }
        out
    }

    /// Parses a header off the front of `buf`, yielding it and how many
    /// bytes it took; rejected exactly as `spec_decode_header` states.
    pub fn from_bytes(buf: &Vec<u8>) -> (r: Result<(TransportMsgHeader, usize), HeaderError>)
        ensures
            match r {
                Ok((h, len)) => spec_decode_header(buf@) == Ok::<_, HeaderError>(
                    (h@, len as int),
                ) && len <= buf@.len(),
                Err(e) => spec_decode_header(buf@) == Err::<(HeaderV, int), _>(e),
            },
    {
        if buf.len() < 4 {
            return Err(HeaderError::TooSmall);
        }
        let b0 = buf[0];
        if (b0 >> 6) != 0 || (b0 & 1) != 0 {
            return Err(HeaderError::InvalidVersion);
        }
        let secure = ((b0 >> 5) & 1) == 1;
        let rt = (b0 >> 2) & 7;
        let has_from = ((b0 >> 1) & 1) == 1;
        let from_len: usize = if has_from {
            4
        } else {
            0
        };
        if buf.len() < 4 + from_len {
            return Err(HeaderError::TooSmall);
        }
        let from_node: Option<NodeId> = if has_from {
            Some(read_u32_be(buf, 4))
        } else {
            None
        };
        let base = 4 + from_len;
        let feature = buf[1];
        let ttl = buf[2];
        let meta = buf[3];
        if rt == 0 {
            Ok((
                TransportMsgHeader { secure, feature, ttl, meta, from_node, route: RouteRule::Direct },
                base,
            ))
        } else if rt == 1 {
            if buf.len() < base + 4 {
                return Err(HeaderError::TooSmall);
            }
            let n = read_u32_be(buf, base);
            Ok((
                TransportMsgHeader {
                    secure,
                    feature,
                    ttl,
                    meta,
                    from_node,
                    route: RouteRule::ToNode(n),
                },
                base + 4,
            ))
        } else if rt == 2 {
            if buf.len() < base + 4 {
                return Err(HeaderError::TooSmall);
            }
            let k = read_u32_be(buf, base);
            Ok((
                TransportMsgHeader {
                    secure,
                    feature,
                    ttl,
                    meta,
                    from_node,
                    route: RouteRule::ToKey(k),
                },
                base + 4,
            ))
        } else if rt == 3 {
            if buf.len() < base + 1 {
                return Err(HeaderError::TooSmall);
            }
            Ok((
                TransportMsgHeader {
                    secure,
                    feature,
                    ttl,
                    meta,
                    from_node,
                    route: RouteRule::ToService(buf[base]),
                },
                base + 1,
            ))
        } else if rt == 4 {
            if buf.len() < base + 1 {
                return Err(HeaderError::TooSmall);
            }
            let count = buf[base] as usize;
            let blen: usize = buf.len();
            if (blen - base - 1) / 4 < count {
                proof {
                    assert(buf@.len() < base + 1 + 4 * (count as int));
                }
                return Err(HeaderError::TooSmall);
            }
            let mut nodes: Vec<NodeId> = Vec::new();
            let mut i: usize = 0;
            while i < count
                invariant
                    i <= count,
                    base == 4 + from_len,
                    blen == buf@.len(),
                    base + 1 + 4 * count <= blen,
                    nodes@ == spec_read_nodes(buf@, base as int + 1, i as int),
                decreases count - i,
            {
                nodes.push(read_u32_be(buf, base + 1 + 4 * i));
                i += 1;
            }
            Ok((
                TransportMsgHeader {
                    secure,
                    feature,
                    ttl,
                    meta,
                    from_node,
                    route: RouteRule::ToNodes(nodes),
                },
                base + 1 + 4 * count,
            ))
        } else if rt == 5 {
            if buf.len() < base + 2 {
                return Err(HeaderError::TooSmall);
            }
            let q = ((buf[base] as u16) << 8) | (buf[base + 1] as u16);
            Ok((
                TransportMsgHeader {
                    secure,
                    feature,
                    ttl,
                    meta,
                    from_node,
                    route: RouteRule::Broadcast(q),
                },
                base + 2,
            ))
        } else {
            Err(HeaderError::InvalidRouteType)
        }
    }

    /// Whether the secure bit of a wire header's first byte is set.
    pub fn is_secure(byte0: u8) -> (r: bool)
        ensures
            r == (((byte0 >> 5) & 1) == 1),
    {
        ((byte0 >> 5) & 1) == 1
    }

    /// Takes one hop off a wire packet's TTL: false, leaving the packet
    /// untouched, when the TTL already reached zero or the buffer is too
    /// short; otherwise the TTL byte drops by exactly one and nothing
    /// else changes.
    pub fn decrease_ttl(buf: &mut Vec<u8>) -> (r: bool)
        ensures
            r == (old(buf)@.len() > 2 && old(buf)@[2] > 0),
            r ==> final(buf)@ == old(buf)@.update(2, (old(buf)@[2] - 1) as u8),
            !r ==> final(buf)@ == old(buf)@,
    {
        if buf.len() <= 2 {
            return false;
        }
        let ttl = buf[2];
        if ttl == 0 {
            return false;
        }
        buf.set(2, ttl - 1);
        true
    }
}

/// Encoding one more node extends the byte list by that node's bytes.
pub(crate) proof fn lemma_nodes_bytes_take(ns: Seq<NodeId>, i: int)
    requires
        0 < i <= ns.len(),
    ensures
        spec_nodes_bytes(ns.take(i)) == spec_nodes_bytes(ns.take(i - 1)) + spec_u32_be(ns[i - 1]),
    decreases i,
{
    if i == 1 {
        assert(ns.take(1)[0] == ns[0]);
        assert(ns.take(1).skip(1) =~= Seq::<NodeId>::empty());
        assert(ns.take(0) =~= Seq::<NodeId>::empty());
        assert(spec_u32_be(ns[0]) + Seq::<u8>::empty() =~= spec_u32_be(ns[0]));
        assert(ns.take(1).len() == 1);
        assert(spec_nodes_bytes(Seq::<NodeId>::empty()) =~= Seq::<u8>::empty());
        assert(spec_nodes_bytes(ns.take(1).skip(1)) =~= Seq::<u8>::empty());
        assert(spec_nodes_bytes(ns.take(1)) =~= spec_u32_be(ns.take(1)[0]) + spec_nodes_bytes(
            ns.take(1).skip(1),
        ));
        assert(spec_nodes_bytes(ns.take(1)) =~= spec_u32_be(ns[0]));
        assert(spec_nodes_bytes(ns.take(0)) + spec_u32_be(ns[0]) =~= spec_u32_be(ns[0]));
    } else {
        lemma_nodes_bytes_take(ns.skip(1), i - 1);
        assert(ns.take(i).skip(1) =~= ns.skip(1).take(i - 1));
        assert(ns.take(i - 1).skip(1) =~= ns.skip(1).take(i - 2));
        assert(ns.take(i)[0] == ns[0]);
        assert(ns.take(i - 1)[0] == ns[0]);
        assert(ns.skip(1)[i - 2] == ns[i - 1]);
        assert(spec_nodes_bytes(ns.take(i)) == spec_u32_be(ns[0]) + spec_nodes_bytes(
            ns.skip(1).take(i - 1),
        ));
        assert(spec_nodes_bytes(ns.take(i - 1)) == spec_u32_be(ns[0]) + spec_nodes_bytes(
            ns.skip(1).take(i - 2),
        ));
        assert(spec_u32_be(ns[0]) + (spec_nodes_bytes(ns.skip(1).take(i - 2)) + spec_u32_be(
            ns[i - 1],
        )) =~= (spec_u32_be(ns[0]) + spec_nodes_bytes(ns.skip(1).take(i - 2))) + spec_u32_be(
            ns[i - 1],
        ));
    }
}

} // verus!
