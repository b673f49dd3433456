//! Node identifiers and the hierarchical layer structure.
//!
//! A `NodeId` is a 32-bit unsigned integer viewed as four layers of eight
//! bits each: `layer(0)` is the lowest byte and `layer(3)` the highest.
//! Two nodes' *util layer* is zero when they are equal, and otherwise one
//! plus the highest layer at which their bytes disagree; routing for a
//! destination is decided at layer `util_layer - 1`.

use vstd::prelude::*;

verus! {

/// A node identifier: four eight-bit layers packed into 32 bits.
pub type NodeId = u32;

/// A transport connection identifier, opaque to the routing logic.
pub type ConnId = u64;

/// Byte `i` of `node`, for layers 0 (lowest) through 3 (highest).
pub open spec fn spec_node_layer(node: NodeId, i: u8) -> u8 {
    ((node >> (8 * i as u32)) & 0xff) as u8
}

/// Zero when the two identifiers are equal, otherwise one plus the
/// highest layer at which their bytes disagree.
pub open spec fn spec_eq_util_layer(a: NodeId, b: NodeId) -> u8 {
    if spec_node_layer(a, 3) != spec_node_layer(b, 3) {
        4
    } else if spec_node_layer(a, 2) != spec_node_layer(b, 2) {
        3
    } else if spec_node_layer(a, 1) != spec_node_layer(b, 1) {
        2
    } else if spec_node_layer(a, 0) != spec_node_layer(b, 0) {
        1
    } else {
        0
    }
}

/// Extracts byte `i` of `node`; layers above 3 are empty.
pub fn node_layer(node: NodeId, i: u8) -> (r: u8)
    requires
        i < 4,
    ensures
        r == spec_node_layer(node, i),
{
    ((node >> (8 * i as u32)) & 0xff) as u8
}

/// Zero when the two identifiers are equal, otherwise one plus the
/// highest layer at which their bytes disagree.
pub fn eq_util_layer(a: NodeId, b: NodeId) -> (r: u8)
    ensures
        r == spec_eq_util_layer(a, b),
        r <= 4,
{
    if node_layer(a, 3) != node_layer(b, 3) {
        4
    } else if node_layer(a, 2) != node_layer(b, 2) {
        3
    } else if node_layer(a, 1) != node_layer(b, 1) {
        2
    } else if node_layer(a, 0) != node_layer(b, 0) {
        1
    } else {
        0
    }
}

/// Two identifiers that agree on every layer are equal.
pub proof fn lemma_eq_util_layer_zero(a: NodeId, b: NodeId)
    ensures
        spec_eq_util_layer(a, b) == 0 <==> a == b,
{
    if spec_eq_util_layer(a, b) == 0 {
        assert(a == b) by (bit_vector)
            requires
                (((a >> 24u32) & 0xff) as u8) == (((b >> 24u32) & 0xff) as u8),
                (((a >> 16u32) & 0xff) as u8) == (((b >> 16u32) & 0xff) as u8),
                (((a >> 8u32) & 0xff) as u8) == (((b >> 8u32) & 0xff) as u8),
                (((a >> 0u32) & 0xff) as u8) == (((b >> 0u32) & 0xff) as u8),
        ;
    }
}

} // verus!
