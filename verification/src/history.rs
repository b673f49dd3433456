//! Duplicate suppression for broadcasts.
//!
//! Every broadcast datagram carries its source node and a sequence
//! number; the data plane records the pair (with the feature it belongs
//! to) and drops any datagram whose triple it has already seen, whichever
//! remote delivered it.

use vstd::prelude::*;

use crate::addr::NodeId;

verus! {

/// One remembered broadcast: its source, its feature, its sequence
/// number.
pub type HistoryKey = (Option<NodeId>, u8, u16);

/// The set of broadcasts already handled.
pub struct BroadcastHistory {
    seen: Vec<HistoryKey>,
}

impl View for BroadcastHistory {
    type V = Seq<HistoryKey>;

    closed spec fn view(&self) -> Seq<HistoryKey> {
        self.seen@
    }
}

impl BroadcastHistory {
    /// An empty history.
    pub fn new() -> (r: BroadcastHistory)
        ensures
            r@ == Seq::<HistoryKey>::empty(),
    {
        let r = BroadcastHistory { seen: Vec::new() };
        proof {
            assert(r@ =~= Seq::<HistoryKey>::empty());
        }
        r
    }

    /// Whether this broadcast was handled before.
    pub fn contains(&self, key: HistoryKey) -> (r: bool)
        ensures
            r == self@.contains(key),
    {
        let mut i: usize = 0;
        while i < self.seen.len()
            invariant
                i <= self.seen@.len(),
                forall|j: int| 0 <= j < i ==> self@[j] != key,
            decreases self.seen.len() - i,
        {
            let e = &self.seen[i];
            let same_from = match (e.0, key.0) {
                (Some(a), Some(b)) => a == b,
                (None, None) => true,
                _ => false,
            };
            if same_from && e.1 == key.1 && e.2 == key.2 {
                proof {
                    assert(self@[i as int] == key);
                }
                return true;
            }
            i += 1;
        }
        false
    }

    /// Records a broadcast and says whether it was fresh: true exactly
    /// when the history did not hold it yet, which afterwards it does.
    pub fn check_and_insert(&mut self, key: HistoryKey) -> (r: bool)
        ensures
            r == !old(self)@.contains(key),
            final(self)@ == (if old(self)@.contains(key) {
                old(self)@
            } else {
                old(self)@.push(key)
            }),
            final(self)@.contains(key),
    {
        if self.contains(key) {
            false
        } else {
            let ghost pre = self@;
            self.seen.push(key);
            proof {
                assert(pre.push(key)[pre.len() as int] == key);
            }
            true
        }
    }
}

} // verus!
