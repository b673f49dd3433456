use sdn_core::addr::NodeId;
use sdn_core::metric::Metric;
use sdn_core::dest::Path;
use sdn_core::table::{Table, TableSync};

fn layer0(node: NodeId) -> u8 {
    (node & 0xff) as u8
}

#[test]
fn create_manual() {
    let node0: NodeId = 0x0;
    let mut table = Table::new(node0, 0);
    let node1: NodeId = 0x1;
    let node2: NodeId = 0x2;
    let node3: NodeId = 0x3;

    let conn1: u64 = 0x1;
    let conn2: u64 = 0x2;
    let conn3: u64 = 0x3;

    table.add_direct(conn1, node1, Metric::new(1, vec![1, 0], 1));
    table.add_direct(conn2, node2, Metric::new(2, vec![2, 4, 0], 1));
    table.add_direct(conn3, node3, Metric::new(1, vec![3, 0], 1));

    assert_eq!(table.slots(), vec![0, 1, 2, 3]);

    assert_eq!(table.next(node1, &vec![node2]), Some((conn1, node1)));

    assert_eq!(
        table.sync_for(node1),
        Some(TableSync(vec![
            (2, Metric::new(2, vec![2, 4, 0], 1)),
            (3, Metric::new(1, vec![3, 0], 1))
        ]))
    );
    assert_eq!(
        table.sync_for(4),
        Some(TableSync(vec![
            (1, Metric::new(1, vec![1, 0], 1)),
            (3, Metric::new(1, vec![3, 0], 1))
        ]))
    );

    table.del_direct(conn1);
    assert_eq!(table.next(node1, &vec![node2]), None);
}

#[test]
fn create_manual_other_layer() {
    let node0: NodeId = 0x0;
    let table = Table::new(node0, 0);
    assert_eq!(table.sync_for(0x10000000), None);
}

#[test]
fn apply_sync() {
    let node0: NodeId = 0x0;
    let mut table = Table::new(node0, 0);
    let node1: NodeId = 0x1;
    let node2: NodeId = 0x2;
    let node3: NodeId = 0x3;

    let conn1: u64 = 0x1;

    table.add_direct(conn1, node1, Metric::new(1, vec![1, 0], 1));

    let sync = vec![
        (2, Metric::new(1, vec![2, 1], 1)),
        (3, Metric::new(1, vec![3, 1], 1)),
    ];
    table.apply_sync(conn1, node1, Metric::new(1, vec![1, 0], 2), &TableSync(sync));

    assert_eq!(table.slots(), vec![0, 1, 2, 3]);
    assert_eq!(
        table.next_path(node1, &vec![node2]),
        Some(Path(conn1, node1, Metric::new(1, vec![1, 0], 1)))
    );
    assert_eq!(
        table.next_path(node2, &vec![node2]),
        Some(Path(conn1, node1, Metric::new(2, vec![2, 1, 0], 1)))
    );
    assert_eq!(
        table.next_path(node3, &vec![node2]),
        Some(Path(conn1, node1, Metric::new(2, vec![3, 1, 0], 1)))
    );

    let sync = vec![(3, Metric::new(1, vec![3, 1], 1))];
    table.apply_sync(conn1, node1, Metric::new(1, vec![1, 0], 1), &TableSync(sync));
    assert_eq!(table.next(node1, &vec![node2]), Some((conn1, node1)));
    assert_eq!(table.next(node2, &vec![node2]), None);
    assert_eq!(table.next(node3, &vec![node2]), Some((conn1, node1)));
}

#[test]
fn apply_sync_multi() {
    let node_a: NodeId = 0x0;
    let node_b: NodeId = 0x1;
    let node_c: NodeId = 0x2;
    let node_d: NodeId = 0x3;

    let conn_b: u64 = 0x1;
    let conn_c: u64 = 0x2;

    let mut table_a = Table::new(node_a, 0);

    table_a.add_direct(conn_b, node_b, Metric::new(1, vec![node_b, node_a], 1));
    table_a.add_direct(conn_c, node_c, Metric::new(1, vec![node_c, node_a], 1));

    let sync1 = vec![
        (layer0(node_c), Metric::new(1, vec![node_c, node_b], 1)),
        (layer0(node_d), Metric::new(2, vec![node_d, node_b], 1)),
    ];
    table_a.apply_sync(
        conn_b,
        node_b,
        Metric::new(1, vec![node_b, node_a], 1),
        &TableSync(sync1),
    );

    let sync2 = vec![
        (layer0(node_b), Metric::new(2, vec![node_b, node_c], 2)),
        (layer0(node_d), Metric::new(1, vec![node_d, node_c], 1)),
    ];
    table_a.apply_sync(
        conn_c,
        node_c,
        Metric::new(1, vec![node_c, node_a], 1),
        &TableSync(sync2),
    );

    assert_eq!(
        table_a.next_path(node_b, &vec![]),
        Some(Path(
            conn_b,
            node_b,
            Metric::new(1, vec![node_b, node_a], 1)
        ))
    );
    assert_eq!(table_a.next(node_c, &vec![]), Some((conn_c, node_c)));
    assert_eq!(table_a.next(node_d, &vec![]), Some((conn_c, node_c)));

    let sync2 = vec![(layer0(node_b), Metric::new(2, vec![node_b, node_c], 1))];
    table_a.apply_sync(
        conn_c,
        node_c,
        Metric::new(1, vec![node_c, node_a], 1),
        &TableSync(sync2),
    );

    assert_eq!(table_a.next(node_b, &vec![]), Some((conn_b, node_b)));
    assert_eq!(table_a.next(node_c, &vec![]), Some((conn_c, node_c)));
    assert_eq!(table_a.next(node_d, &vec![]), Some((conn_b, node_b)));
}

#[test]
fn triangle_direct_beats_relayed() {
    // Three nodes: a direct route to a neighbour stays preferred over the
    // same destination advertised through another neighbour.
    let a: NodeId = 0x0;
    let b: NodeId = 0x1;
    let c: NodeId = 0x2;
    let d: NodeId = 0x3;

    let mut table = Table::new(a, 0);
    table.add_direct(1, b, Metric::new(1, vec![b, a], 1));
    table.add_direct(2, c, Metric::new(1, vec![c, a], 1));

    let sync = vec![
        (layer0(c), Metric::new(1, vec![c, b], 1)),
        (layer0(d), Metric::new(2, vec![d, b], 1)),
    ];
    table.apply_sync(1, b, Metric::new(1, vec![b, a], 1), &TableSync(sync));

    assert_eq!(
        table.next_path(b, &vec![]),
        Some(Path(1, b, Metric::new(1, vec![b, a], 1)))
    );
    assert_eq!(table.next(c, &vec![]), Some((2, c)));
    assert_eq!(table.next(d, &vec![]), Some((1, b)));
}

#[test]
fn withdraw_via_sync_omission() {
    // A slot learned from a neighbour is withdrawn when a later sync from
    // the same neighbour no longer advertises it.
    let a: NodeId = 0x0;
    let b: NodeId = 0x1;
    let c: NodeId = 0x2;
    let d: NodeId = 0x3;

    let mut table = Table::new(a, 0);
    table.add_direct(1, b, Metric::new(1, vec![b, a], 1));
    table.add_direct(2, c, Metric::new(1, vec![c, a], 1));
    let sync = vec![
        (layer0(c), Metric::new(1, vec![c, b], 1)),
        (layer0(d), Metric::new(2, vec![d, b], 1)),
    ];
    table.apply_sync(1, b, Metric::new(1, vec![b, a], 1), &TableSync(sync));
    assert_eq!(table.next(d, &vec![]), Some((1, b)));

    let second = vec![(layer0(c), Metric::new(1, vec![c, b], 1))];
    table.apply_sync(1, b, Metric::new(1, vec![b, a], 1), &TableSync(second));
    assert_eq!(table.next(d, &vec![]), None);
}

#[test]
fn loop_suppression() {
    // An advertisement whose concatenated hop list would repeat this node
    // is not inserted.
    let a: NodeId = 0x0;
    let b: NodeId = 0x1;

    let mut table = Table::new(a, 0);
    table.add_direct(1, b, Metric::new(1, vec![b, a], 1));

    let sync = vec![(layer0(a), Metric::new(1, vec![a, b], 1))];
    table.apply_sync(1, b, Metric::new(1, vec![b, a], 1), &TableSync(sync));

    // The combined list would be [a, b, a]: rejected, so the self slot
    // stays empty and the slot list is untouched.
    assert_eq!(table.next(a, &vec![]), None);
    assert_eq!(table.slots(), vec![0, 1]);
}

#[test]
fn apply_sync_twice_is_idempotent() {
    // Applying the same advertisement twice, with the same measured
    // metric, leaves exactly the state the first application left.
    let a: NodeId = 0x0;
    let b: NodeId = 0x1;
    let c: NodeId = 0x2;
    let d: NodeId = 0x3;

    let mut once = Table::new(a, 0);
    once.add_direct(1, b, Metric::new(1, vec![b, a], 1));
    once.add_direct(2, c, Metric::new(1, vec![c, a], 1));
    let sync = vec![
        (layer0(c), Metric::new(1, vec![c, b], 1)),
        (layer0(d), Metric::new(2, vec![d, b], 1)),
    ];
    once.apply_sync(1, b, Metric::new(1, vec![b, a], 1), &TableSync(sync.clone()));

    let mut twice = Table::new(a, 0);
    twice.add_direct(1, b, Metric::new(1, vec![b, a], 1));
    twice.add_direct(2, c, Metric::new(1, vec![c, a], 1));
    twice.apply_sync(1, b, Metric::new(1, vec![b, a], 1), &TableSync(sync.clone()));
    twice.apply_sync(1, b, Metric::new(1, vec![b, a], 1), &TableSync(sync));

    assert_eq!(once.slots(), twice.slots());
    for node in [b, c, d] {
        assert_eq!(once.next_path(node, &vec![]), twice.next_path(node, &vec![]));
        assert_eq!(once.sync_for(node), twice.sync_for(node));
    }
}

#[test]
fn sync_never_names_its_audience() {
    // Poisoned reverse: whatever the table holds, an advertisement for a
    // node never carries a metric whose hops include that node.
    let a: NodeId = 0x0;
    let b: NodeId = 0x1;
    let c: NodeId = 0x2;
    let d: NodeId = 0x3;

    let mut table = Table::new(a, 0);
    table.add_direct(1, b, Metric::new(1, vec![b, a], 1));
    table.add_direct(2, c, Metric::new(1, vec![c, a], 1));
    let sync = vec![
        (layer0(c), Metric::new(1, vec![c, b], 1)),
        (layer0(d), Metric::new(2, vec![d, b], 1)),
    ];
    table.apply_sync(1, b, Metric::new(1, vec![b, a], 1), &TableSync(sync));

    for audience in [b, c, d] {
        let advert = table.sync_for(audience).expect("in scope");
        for (_slot, metric) in advert.0 {
            assert!(!metric.hops.contains(&audience));
        }
    }
}

#[test]
fn self_slot_never_synced() {
    // No advertisement touches the slot of the table's own node.
    let a: NodeId = 0x0;
    let b: NodeId = 0x1;

    let mut table = Table::new(a, 0);
    table.add_direct(1, b, Metric::new(1, vec![b, a], 1));
    // A malicious or confused sync naming the self slot with a loop-free
    // metric: the loop check alone would not stop slot 0, the self-slot
    // rule must.
    let sync = vec![(layer0(a), Metric::new(1, vec![0x10, b], 1))];
    table.apply_sync(1, b, Metric::new(1, vec![b, a], 1), &TableSync(sync));
    assert_eq!(table.next(a, &vec![]), None);
}
