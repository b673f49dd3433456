//! Distance-vector metric with a full hop list for loop avoidance.
//!
//! A `Metric` records the accumulated latency, the minimal bandwidth along
//! the way, and every node the route traverses: `hops[0]` is the
//! destination and the last element is the node that measured the metric.
//! `Metric::add` concatenates a remote-advertised metric with the locally
//! measured metric to the advertiser, rejecting the result when the
//! combined hop list repeats a node (a routing loop) or grows beyond
//! `MAX_HOP_COUNT`.

use vstd::prelude::*;

use crate::addr::NodeId;

verus! {

/// Hop lists longer than this are rejected by `Metric::add`.
pub const MAX_HOP_COUNT: usize = 8;

/// Sentinel bandwidth meaning "unlimited": the minimum of it and any
/// other bandwidth is the other bandwidth.
pub const BANDWIDTH_LIMIT: u32 = 0xffff_ffff;

/// Mathematical value of a `Metric`.
#[verifier::ext_equal]
pub struct MetricV {
    pub latency: u16,
    pub bandwidth: u32,
    pub hops: Seq<NodeId>,
}

/// Distance-vector metric: latency in milliseconds, the hop list, and the
/// bottleneck bandwidth.
#[derive(Debug)]
pub struct Metric {
    pub latency: u16,
    pub hops: Vec<NodeId>,
    pub bandwidth: u32,
}

impl View for Metric {
    type V = MetricV;

    open spec fn view(&self) -> MetricV {
        MetricV { latency: self.latency, bandwidth: self.bandwidth, hops: self.hops@ }
    }
}

/// No node occurs twice in `s`.
pub open spec fn seq_no_dup(s: Seq<NodeId>) -> bool {
    forall|i: int, j: int| 0 <= i < j < s.len() ==> s[i] != s[j]
}

/// Latency of a route that first crosses `b`, then `a`, capped at the
/// largest representable value.
pub open spec fn spec_latency_sum(a: u16, b: u16) -> u16 {
    if a + b > 0xffff {
        0xffff
    } else {
        (a + b) as u16
    }
}

/// The bottleneck of two bandwidths.
pub open spec fn spec_bw_min(a: u32, b: u32) -> u32 {
    if a <= b {
        a
    } else {
        b
    }
}

/// The hop list of a route advertised as `a`, reached over `b`: all of
/// `a`, then `b` without its first node (that node is `a`'s last hop, the
/// advertiser, which would otherwise appear twice).
pub open spec fn spec_combined_hops(a: Seq<NodeId>, b: Seq<NodeId>) -> Seq<NodeId> {
    if b.len() == 0 {
        a
    } else {
        a + b.skip(1)
    }
}

/// Value of `Metric::add`: the concatenated metric, or `None` when the
/// combined hop list repeats a node or exceeds `MAX_HOP_COUNT`.
pub open spec fn spec_metric_add(a: MetricV, b: MetricV) -> Option<MetricV> {
    let hops = spec_combined_hops(a.hops, b.hops);
    if seq_no_dup(hops) && hops.len() <= MAX_HOP_COUNT {
        Some(
            MetricV {
                latency: spec_latency_sum(a.latency, b.latency),
                bandwidth: spec_bw_min(a.bandwidth, b.bandwidth),
                hops,
            },
        )
    } else {
        None
    }
}

/// Lexicographic order on hop lists; a strict prefix is smaller.
pub open spec fn seq_lex_lt(a: Seq<NodeId>, b: Seq<NodeId>) -> bool
    decreases a.len(),
{
    if b.len() == 0 {
        false
    } else if a.len() == 0 {
        true
    } else if a[0] != b[0] {
        a[0] < b[0]
    } else {
        seq_lex_lt(a.skip(1), b.skip(1))
    }
}

/// Strict order on metrics: latency ascending, then bandwidth descending,
/// then hop count ascending, with the hop lists' lexicographic order as
/// the final tie break.
pub open spec fn spec_metric_lt(a: MetricV, b: MetricV) -> bool {
    if a.latency != b.latency {
        a.latency < b.latency
    } else if a.bandwidth != b.bandwidth {
        a.bandwidth > b.bandwidth
    } else if a.hops.len() != b.hops.len() {
        a.hops.len() < b.hops.len()
    } else {
        seq_lex_lt(a.hops, b.hops)
    }
}

/// Two hop lists of equal length, neither below the other, are equal.
pub proof fn lemma_lex_antisymmetric(a: Seq<NodeId>, b: Seq<NodeId>)
    requires
        a.len() == b.len(),
        !seq_lex_lt(a, b),
        !seq_lex_lt(b, a),
    ensures
        a == b,
    decreases a.len(),
{
    if a.len() > 0 {
        assert(a[0] == b[0]);
        lemma_lex_antisymmetric(a.skip(1), b.skip(1));
        assert(a =~= seq![a[0]] + a.skip(1));
        assert(b =~= seq![b[0]] + b.skip(1));
    } else {
        assert(a =~= b);
    }
}

/// The lexicographic order is transitive.
pub proof fn lemma_lex_transitive(a: Seq<NodeId>, b: Seq<NodeId>, c: Seq<NodeId>)
    requires
        seq_lex_lt(a, b),
        seq_lex_lt(b, c),
    ensures
        seq_lex_lt(a, c),
    decreases a.len(),
{
    if a.len() > 0 && b.len() > 0 && c.len() > 0 && a[0] == b[0] && b[0] == c[0] {
        lemma_lex_transitive(a.skip(1), b.skip(1), c.skip(1));
    }
}

/// Two metrics neither of which is below the other are equal in every
/// part the order reads: the order is total.
pub proof fn lemma_metric_lt_antisymmetric(a: MetricV, b: MetricV)
    requires
        !spec_metric_lt(a, b),
        !spec_metric_lt(b, a),
    ensures
        a.latency == b.latency,
        a.bandwidth == b.bandwidth,
        a.hops == b.hops,
{
    lemma_lex_antisymmetric(a.hops, b.hops);
}

/// The metric order is transitive.
pub proof fn lemma_metric_lt_transitive(a: MetricV, b: MetricV, c: MetricV)
    requires
        spec_metric_lt(a, b),
        spec_metric_lt(b, c),
    ensures
        spec_metric_lt(a, c),
{
    if a.latency == b.latency && b.latency == c.latency && a.bandwidth == b.bandwidth
        && b.bandwidth == c.bandwidth && a.hops.len() == b.hops.len() && b.hops.len()
        == c.hops.len() {
        lemma_lex_transitive(a.hops, b.hops, c.hops);
    }
}

/// Copies a hop list.
pub fn clone_hops(v: &Vec<NodeId>) -> (r: Vec<NodeId>)
    ensures
        r@ == v@,
{
    let mut r: Vec<NodeId> = Vec::new();
    let mut i: usize = 0;
    while i < v.len()
        invariant
            i <= v.len(),
            r@ == v@.take(i as int),
        decreases v.len() - i,
    {
        r.push(v[i]);
        i += 1;
        proof {
            assert(r@ =~= v@.take(i as int));
        }
    }
    proof {
        assert(r@ =~= v@);
    }
    r
}

/// True when two hop lists hold the same nodes in the same order.
pub fn hops_equal(a: &Vec<NodeId>, b: &Vec<NodeId>) -> (r: bool)
    ensures
        r == (a@ == b@),
{
    if a.len() != b.len() {
        proof {
            assert(a@ != b@);
        }
        return false;
    }
    let mut i: usize = 0;
    while i < a.len()
        invariant
            i <= a.len(),
            a.len() == b.len(),
            forall|j: int| 0 <= j < i ==> a@[j] == b@[j],
        decreases a.len() - i,
    {
        if a[i] != b[i] {
            proof {
                assert(a@[i as int] != b@[i as int]);
            }
            return false;
        }
        i += 1;
    }
    proof {
        assert(a@ =~= b@);
    }
    true
}

/// True when `v` repeats some node.
fn has_dup(v: &Vec<NodeId>) -> (r: bool)
    ensures
        r == !seq_no_dup(v@),
{
    let mut i: usize = 1;
    while i < v.len()
        invariant
            1 <= i || v.len() == 0,
            i <= v.len() || v.len() == 0,
            forall|p: int, q: int| 0 <= p < q < i && q < v@.len() ==> v@[p] != v@[q],
        decreases v.len() - i,
    {
        let mut j: usize = 0;
        while j < i
            invariant
                j <= i,
                i < v.len(),
                forall|p: int| 0 <= p < j ==> v@[p] != v@[i as int],
            decreases i - j,
        {
            if v[j] == v[i] {
                proof {
                    assert(!seq_no_dup(v@));
                }
                return true;
            }
            j += 1;
        }
        i += 1;
    }
    proof {
        assert(seq_no_dup(v@));
    }
    false
}

/// The order of two hop lists is decided by their first difference.
proof fn lemma_lex_skip(a: Seq<NodeId>, b: Seq<NodeId>, i: int)
    requires
        0 <= i <= a.len(),
        i <= b.len(),
        forall|j: int| 0 <= j < i ==> a[j] == b[j],
    ensures
        seq_lex_lt(a, b) == seq_lex_lt(a.skip(i), b.skip(i)),
    decreases i,
{
    if i > 0 {
        assert(a[0] == b[0]);
        assert(seq_lex_lt(a, b) == seq_lex_lt(a.skip(1), b.skip(1)));
        lemma_lex_skip(a.skip(1), b.skip(1), i - 1);
        assert(a.skip(1).skip(i - 1) =~= a.skip(i));
        assert(b.skip(1).skip(i - 1) =~= b.skip(i));
    } else {
        assert(a.skip(0) =~= a);
        assert(b.skip(0) =~= b);
    }
}

/// Lexicographic comparison of two hop lists.
fn lex_less(a: &Vec<NodeId>, b: &Vec<NodeId>) -> (r: bool)
    ensures
        r == seq_lex_lt(a@, b@),
{
    let mut i: usize = 0;
    while i < a.len() && i < b.len()
        invariant
            i <= a.len(),
            i <= b.len(),
            forall|j: int| 0 <= j < i ==> a@[j] == b@[j],
        decreases a.len() - i,
    {
        if a[i] != b[i] {
            proof {
                lemma_lex_skip(a@, b@, i as int);
            }
            return a[i] < b[i];
        }
        i += 1;
    }
    proof {
        lemma_lex_skip(a@, b@, i as int);
    }
    i == a.len() && i < b.len()
}

impl Metric {
    /// Builds a metric from its parts.
    pub fn new(latency: u16, hops: Vec<NodeId>, bandwidth: u32) -> (r: Metric)
        ensures
            r@ == (MetricV { latency, bandwidth, hops: hops@ }),
    {
        Metric { latency, hops, bandwidth }
    }

    /// The metric for reaching `self`'s destination through the `over`
    /// path: latencies add, bandwidths bottleneck, and the hop lists are
    /// concatenated. `None` when the combined hop list repeats a node
    /// (the route would loop) or exceeds `MAX_HOP_COUNT`.
    pub fn add(&self, over: &Metric) -> (r: Option<Metric>)
        ensures
            match r {
                Some(m) => spec_metric_add(self@, over@) == Some(m@),
                None => spec_metric_add(self@, over@) is None,
            },
    {
        let mut hops = clone_hops(&self.hops);
        if over.hops.len() > 0 {
            let mut i: usize = 1;
            while i < over.hops.len()
                invariant
                    1 <= i <= over.hops.len(),
                    hops@ == self.hops@ + over.hops@.subrange(1, i as int),
                decreases over.hops.len() - i,
            {
                hops.push(over.hops[i]);
                i += 1;
                proof {
                    assert(hops@ =~= self.hops@ + over.hops@.subrange(1, i as int));
                }
            }
            proof {
                assert(over.hops@.subrange(1, over.hops@.len() as int) =~= over.hops@.skip(1));
                assert(hops@ == spec_combined_hops(self.hops@, over.hops@));
            }
        }
        if hops.len() > MAX_HOP_COUNT {
            return None;
        }
        if has_dup(&hops) {
            return None;
        }
        let latency: u16 = if (self.latency as u32) + (over.latency as u32) > 0xffff {
            0xffff
        } else {
            self.latency + over.latency
        };
        let bandwidth: u32 = if self.bandwidth <= over.bandwidth {
            self.bandwidth
        } else {
            over.bandwidth
        };
        Some(Metric { latency, hops, bandwidth })
    }

    /// Strictly smaller, in the order that `spec_metric_lt` states.
    pub fn less(&self, other: &Metric) -> (r: bool)
        ensures
            r == spec_metric_lt(self@, other@),
    {
        if self.latency != other.latency {
            self.latency < other.latency
        } else if self.bandwidth != other.bandwidth {
            self.bandwidth > other.bandwidth
        } else if self.hops.len() != other.hops.len() {
            self.hops.len() < other.hops.len()
        } else {
            lex_less(&self.hops, &other.hops)
        }
    }
}

impl Clone for Metric {
    /// An equal metric.
    fn clone(&self) -> (r: Self)
        ensures
            r@ == self@,
    {
        Metric { latency: self.latency, hops: clone_hops(&self.hops), bandwidth: self.bandwidth }
    }
}

impl PartialEq for Metric {
    fn eq(&self, other: &Self) -> (r: bool) {
        let r = self.latency == other.latency && self.bandwidth == other.bandwidth
            && hops_equal(&self.hops, &other.hops);
        proof {
            if r {
                assert(self@ =~= other@);
            }
        }
        r
    }
}

impl vstd::std_specs::cmp::PartialEqSpecImpl for Metric {
    open spec fn obeys_eq_spec() -> bool {
        true
    }

    open spec fn eq_spec(&self, other: &Metric) -> bool {
        self@ == other@
    }
}

impl Eq for Metric {

}

} // verus!
