use sdn_core::header::{HeaderError, TransportMsgHeader};
use sdn_core::metric::Metric;
use sdn_core::neighbours::NeighboursControl;
use sdn_core::router::RouteRule;
use sdn_core::sync_codec::{decode_table_sync, encode_table_sync};
use sdn_core::table::TableSync;

fn header(route: RouteRule, from_node: Option<u32>) -> TransportMsgHeader {
    TransportMsgHeader {
        secure: false,
        feature: 1,
        ttl: 7,
        meta: 3,
        from_node,
        route,
    }
}

fn assert_round_trip(h: TransportMsgHeader) {
    let bytes = h.to_bytes();
    let (parsed, used) = TransportMsgHeader::from_bytes(&bytes).expect("parses");
    assert_eq!(used, bytes.len());
    assert_eq!(parsed.secure, h.secure);
    assert_eq!(parsed.feature, h.feature);
    assert_eq!(parsed.ttl, h.ttl);
    assert_eq!(parsed.meta, h.meta);
    assert_eq!(parsed.from_node, h.from_node);
    assert_eq!(parsed.route, h.route);
}

#[test]
fn header_round_trip_every_rule() {
    assert_round_trip(header(RouteRule::Direct, None));
    assert_round_trip(header(RouteRule::ToNode(0xdeadbeef), Some(0x01020304)));
    assert_round_trip(header(RouteRule::ToKey(42), None));
    assert_round_trip(header(RouteRule::ToService(9), Some(5)));
    assert_round_trip(header(RouteRule::ToNodes(vec![1, 2, 0xffffffff]), None));
    assert_round_trip(header(RouteRule::Broadcast(0xabcd), Some(7)));
}

#[test]
fn header_exact_bytes() {
    // ToNode: byte0 = route type 1 << 2 | from bit; feature, ttl, meta;
    // then the source and the destination, big endian.
    let h = header(RouteRule::ToNode(0x01020304), Some(0x0a0b0c0d));
    let bytes = h.to_bytes();
    assert_eq!(
        bytes,
        vec![0x06, 1, 7, 3, 0x0a, 0x0b, 0x0c, 0x0d, 0x01, 0x02, 0x03, 0x04]
    );
}

fn parse_err(bytes: &Vec<u8>) -> HeaderError {
    match TransportMsgHeader::from_bytes(bytes) {
        Ok(_) => panic!("expected a parse error"),
        Err(e) => e,
    }
}

#[test]
fn header_rejects_bad_version() {
    let h = header(RouteRule::Direct, None);
    let mut bytes = h.to_bytes();
    bytes[0] |= 0x80;
    assert_eq!(parse_err(&bytes), HeaderError::InvalidVersion);
    let mut low = h.to_bytes();
    low[0] |= 1;
    assert_eq!(parse_err(&low), HeaderError::InvalidVersion);
}

#[test]
fn header_rejects_unknown_route_type() {
    // Route type 6 names nothing.
    let bytes = vec![6u8 << 2, 0, 0, 0];
    assert_eq!(parse_err(&bytes), HeaderError::InvalidRouteType);
}

#[test]
fn header_rejects_short_buffers() {
    assert_eq!(parse_err(&vec![0, 0, 0]), HeaderError::TooSmall);
    // ToNode without its destination bytes.
    let bytes = vec![1u8 << 2, 0, 0, 0, 1, 2];
    assert_eq!(parse_err(&bytes), HeaderError::TooSmall);
    // ToNodes whose count byte promises more nodes than follow.
    let bytes = vec![4u8 << 2, 0, 0, 0, 2, 0, 0, 0, 1];
    assert_eq!(parse_err(&bytes), HeaderError::TooSmall);
}

#[test]
fn decrease_ttl_takes_exactly_one() {
    let h = header(RouteRule::Direct, None);
    let mut bytes = h.to_bytes();
    assert_eq!(bytes[2], 7);
    assert!(TransportMsgHeader::decrease_ttl(&mut bytes));
    assert_eq!(bytes[2], 6);
    let untouched = {
        let mut copy = bytes.clone();
        copy[2] = 6;
        copy
    };
    assert_eq!(bytes, untouched);
}

#[test]
fn decrease_ttl_refuses_expired() {
    let mut h = header(RouteRule::Direct, None);
    h.ttl = 0;
    let mut bytes = h.to_bytes();
    assert!(!TransportMsgHeader::decrease_ttl(&mut bytes));
    assert_eq!(bytes[2], 0);
}

#[test]
fn neighbours_control_round_trip() {
    let controls = [
        NeighboursControl::ConnectRequest { from: 1, session: 2 },
        NeighboursControl::ConnectAccept { from: 3, session: 4 },
        NeighboursControl::Ping { from: 5, seq: 6 },
        NeighboursControl::Pong { from: 7, seq: 8 },
        NeighboursControl::Disconnect { from: 9, session: 10 },
    ];
    for c in controls {
        let bytes = c.to_bytes();
        assert_eq!(bytes.len(), 9);
        assert_eq!(NeighboursControl::try_from_bytes(&bytes), Some(c));
    }
}

#[test]
fn neighbours_control_rejects_headers() {
    // A transport header never parses as a neighbour control: its top
    // two bits are zero.
    let h = header(RouteRule::ToService(1), None);
    let mut bytes = h.to_bytes();
    bytes.resize(9, 0);
    assert_eq!(NeighboursControl::try_from_bytes(&bytes), None);
}

#[test]
fn table_sync_round_trip() {
    let sync = TableSync(vec![
        (2, Metric::new(1, vec![2, 1], 100)),
        (3, Metric::new(2, vec![3, 1], 0xffffffff)),
        (9, Metric::new(0xffff, vec![], 0)),
    ]);
    let bytes = encode_table_sync(&sync).expect("encodes");
    let (parsed, used) = decode_table_sync(&bytes).expect("parses");
    assert_eq!(used, bytes.len());
    assert_eq!(parsed, sync);
}

#[test]
fn table_sync_empty_round_trip() {
    let sync = TableSync(vec![]);
    let bytes = encode_table_sync(&sync).expect("encodes");
    assert_eq!(bytes, vec![0]);
    let (parsed, used) = decode_table_sync(&bytes).expect("parses");
    assert_eq!(used, 1);
    assert_eq!(parsed, sync);
}

#[test]
fn table_sync_rejects_truncation() {
    let sync = TableSync(vec![(2, Metric::new(1, vec![2, 1], 100))]);
    let mut bytes = encode_table_sync(&sync).expect("encodes");
    bytes.pop();
    assert!(decode_table_sync(&bytes).is_none());
}
