use sdn_core::addr::eq_util_layer;
use sdn_core::metric::{Metric, BANDWIDTH_LIMIT, MAX_HOP_COUNT};

#[test]
fn add_concatenates() {
    // Reaching 2 as advertised by 1, over the measured route to 1.
    let advertised = Metric::new(10, vec![2, 1], 50);
    let over = Metric::new(5, vec![1, 0], 80);
    let sum = advertised.add(&over).expect("no loop");
    assert_eq!(sum, Metric::new(15, vec![2, 1, 0], 50));
}

#[test]
fn add_rejects_loops() {
    // The advertised route already passes through this node.
    let advertised = Metric::new(1, vec![0, 1], 1);
    let over = Metric::new(1, vec![1, 0], 1);
    assert!(advertised.add(&over).is_none());
}

#[test]
fn add_rejects_overlong_routes() {
    let advertised = Metric::new(1, vec![9, 8, 7, 6, 5, 4, 3, 2], 1);
    let over = Metric::new(1, vec![2, 0], 1);
    assert_eq!(advertised.hops.len(), MAX_HOP_COUNT);
    assert!(advertised.add(&over).is_none());
}

#[test]
fn add_saturates_latency() {
    let advertised = Metric::new(0xfffe, vec![2, 1], 1);
    let over = Metric::new(7, vec![1, 0], 1);
    let sum = advertised.add(&over).expect("no loop");
    assert_eq!(sum.latency, 0xffff);
}

#[test]
fn bandwidth_limit_is_neutral() {
    let advertised = Metric::new(1, vec![2, 1], BANDWIDTH_LIMIT);
    let over = Metric::new(1, vec![1, 0], 123);
    let sum = advertised.add(&over).expect("no loop");
    assert_eq!(sum.bandwidth, 123);
}

#[test]
fn metric_order() {
    // Latency first.
    assert!(Metric::new(1, vec![9, 0], 1).less(&Metric::new(2, vec![1, 0], 100)));
    // Then bandwidth, descending.
    assert!(Metric::new(1, vec![9, 0], 100).less(&Metric::new(1, vec![1, 0], 1)));
    // Then hop count.
    assert!(Metric::new(1, vec![1, 0], 1).less(&Metric::new(1, vec![9, 8, 0], 1)));
    // Then the hop list itself.
    assert!(Metric::new(1, vec![1, 0], 1).less(&Metric::new(1, vec![2, 0], 1)));
    assert!(!Metric::new(1, vec![1, 0], 1).less(&Metric::new(1, vec![1, 0], 1)));
}

#[test]
fn util_layer_values() {
    assert_eq!(eq_util_layer(0, 0), 0);
    assert_eq!(eq_util_layer(0, 1), 1);
    assert_eq!(eq_util_layer(0x10000000, 0), 4);
    assert_eq!(eq_util_layer(0x00010000, 0), 3);
    assert_eq!(eq_util_layer(0x00000100, 0), 2);
    assert_eq!(eq_util_layer(0xa1b2c3d4, 0xa1b2c3d4), 0);
    assert_eq!(eq_util_layer(0xa1b2c3d4, 0xa1b2c300), 1);
}
