use sdn_core::dht_kv::{
    KvControl, KvEvent, KvGetResult, KvRemote, LocalStorage, LocalStorageOutput, MapCmd,
    MAP_GET_TIMEOUT_MS,
};
use sdn_core::router::RouteRule;

#[test]
fn map_cmd_forwards_to_key_owner() {
    let mut kv = LocalStorage::new();
    kv.on_local(0, 7, KvControl::MapCmd(0x55, MapCmd::Put(1, 2)));
    assert_eq!(
        kv.pop_action(),
        Some(LocalStorageOutput::Remote(KvRemote::MapCmd(
            0x55,
            MapCmd::Put(1, 2)
        )))
    );
    assert!(kv.pop_action().is_none());
    assert_eq!(sdn_core::dht_kv::route(0x55), RouteRule::ToKey(0x55));
}

#[test]
fn map_get_answered() {
    let mut kv = LocalStorage::new();
    kv.on_local(0, 7, KvControl::MapGet(0x55));
    let req_id = match kv.pop_action() {
        Some(LocalStorageOutput::Remote(KvRemote::MapGet(0x55, req_id))) => req_id,
        other => panic!("expected a forwarded read, got {:?}", other),
    };

    kv.on_server(
        100,
        sdn_core::dht_kv::ServerEvent::MapGetRes(0x55, req_id, 42),
    );
    assert_eq!(
        kv.pop_action(),
        Some(LocalStorageOutput::Local(
            7,
            KvEvent::MapGetRes(0x55, KvGetResult::Value(42))
        ))
    );

    // A late second answer to the same read is dropped.
    kv.on_server(
        101,
        sdn_core::dht_kv::ServerEvent::MapGetRes(0x55, req_id, 43),
    );
    assert!(kv.pop_action().is_none());
}

#[test]
fn map_get_times_out() {
    let mut kv = LocalStorage::new();
    kv.on_local(0, 7, KvControl::MapGet(0x55));
    kv.pop_action().expect("the forwarded read");

    // Not yet.
    kv.on_tick(MAP_GET_TIMEOUT_MS - 1);
    assert!(kv.pop_action().is_none());

    // Now: the service hears the timeout error.
    kv.on_tick(MAP_GET_TIMEOUT_MS);
    assert_eq!(
        kv.pop_action(),
        Some(LocalStorageOutput::Local(
            7,
            KvEvent::MapGetRes(0x55, KvGetResult::Timeout)
        ))
    );
    assert!(kv.pop_action().is_none());

    // The wait is gone: a later answer is dropped.
    kv.on_server(9999, sdn_core::dht_kv::ServerEvent::MapGetRes(0x55, 0, 42));
    assert!(kv.pop_action().is_none());
}

#[test]
fn map_get_requests_are_distinct() {
    let mut kv = LocalStorage::new();
    kv.on_local(0, 1, KvControl::MapGet(0x55));
    kv.on_local(0, 2, KvControl::MapGet(0x66));
    let first = match kv.pop_action() {
        Some(LocalStorageOutput::Remote(KvRemote::MapGet(_, id))) => id,
        other => panic!("expected a forwarded read, got {:?}", other),
    };
    let second = match kv.pop_action() {
        Some(LocalStorageOutput::Remote(KvRemote::MapGet(_, id))) => id,
        other => panic!("expected a forwarded read, got {:?}", other),
    };
    assert_ne!(first, second);

    // Each answer reaches the service that asked.
    kv.on_server(5, sdn_core::dht_kv::ServerEvent::MapGetRes(0x66, second, 9));
    assert_eq!(
        kv.pop_action(),
        Some(LocalStorageOutput::Local(
            2,
            KvEvent::MapGetRes(0x66, KvGetResult::Value(9))
        ))
    );
}
