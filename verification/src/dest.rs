//! The set of candidate paths towards one table slot.
//!
//! A `Dest` is an insertion-ordered map from connection to path. The best
//! path is the one with the minimal metric; ties are broken by connection
//! identifier so that every node picks the same path for the same state.

use vstd::prelude::*;

use crate::addr::{ConnId, NodeId};
use crate::metric::{
    lemma_metric_lt_antisymmetric, lemma_metric_lt_transitive, spec_metric_lt, Metric, MetricV,
};

verus! {

/// Mathematical value of a `Path`.
#[verifier::ext_equal]
pub struct PathV {
    pub conn: ConnId,
    pub next: NodeId,
    pub metric: MetricV,
}

/// One way to reach a destination: the connection to use, the neighbour
/// behind it, and the metric of the whole route.
#[derive(Debug)]
pub struct Path(pub ConnId, pub NodeId, pub Metric);

impl View for Path {
    type V = PathV;

    open spec fn view(&self) -> PathV {
        PathV { conn: self.0, next: self.1, metric: self.2@ }
    }
}

impl Clone for Path {
    /// An equal path.
    fn clone(&self) -> (r: Self)
        ensures
            r@ == self@,
    {
        Path(self.0, self.1, self.2.clone())
    }
}

impl PartialEq for Path {
    fn eq(&self, other: &Self) -> (r: bool) {
        let r = self.0 == other.0 && self.1 == other.1 && self.2 == other.2;
        proof {
            if r {
                assert(self@ =~= other@);
            }
        }
        r
    }
}

impl vstd::std_specs::cmp::PartialEqSpecImpl for Path {
    open spec fn obeys_eq_spec() -> bool {
        true
    }

    open spec fn eq_spec(&self, other: &Path) -> bool {
        self@ == other@
    }
}

impl Eq for Path {

}

/// `a` is preferred over `b`: strictly smaller metric, or an equal metric
/// and a smaller connection identifier.
pub open spec fn spec_path_better(a: PathV, b: PathV) -> bool {
    if spec_metric_lt(a.metric, b.metric) {
        true
    } else if spec_metric_lt(b.metric, a.metric) {
        false
    } else {
        a.conn < b.conn
    }
}

/// Value of `Dest::set_path`: replaces the path of the same connection in
/// place, or appends a new one.
pub open spec fn spec_set_path(d: Seq<PathV>, p: PathV) -> Seq<PathV>
    decreases d.len(),
{
    if d.len() == 0 {
        seq![p]
    } else if d[0].conn == p.conn {
        seq![p] + d.skip(1)
    } else {
        seq![d[0]] + spec_set_path(d.skip(1), p)
    }
}

/// Value of `Dest::del_path`: drops the path of `conn`.
pub open spec fn spec_del_path(d: Seq<PathV>, conn: ConnId) -> Seq<PathV>
    decreases d.len(),
{
    if d.len() == 0 {
        d
    } else if d[0].conn == conn {
        d.skip(1)
    } else {
        seq![d[0]] + spec_del_path(d.skip(1), conn)
    }
}

/// Value of `Dest::next_path`: the preferred path among those whose next
/// hop is not in `excepts`.
pub open spec fn spec_next(d: Seq<PathV>, excepts: Seq<NodeId>) -> Option<PathV>
    decreases d.len(),
{
    if d.len() == 0 {
        None
    } else {
        let rest = spec_next(d.skip(1), excepts);
        if excepts.contains(d[0].next) {
            rest
        } else {
            match rest {
                None => Some(d[0]),
                Some(b) => if spec_path_better(d[0], b) {
                    Some(d[0])
                } else {
                    Some(b)
                },
            }
        }
    }
}

/// Value of `Dest::best_for`: the preferred path among those whose route
/// does not traverse `node`.
pub open spec fn spec_best_for(d: Seq<PathV>, node: NodeId) -> Option<PathV>
    decreases d.len(),
{
    if d.len() == 0 {
        None
    } else {
        let rest = spec_best_for(d.skip(1), node);
        if d[0].metric.hops.contains(node) {
            rest
        } else {
            match rest {
                None => Some(d[0]),
                Some(b) => if spec_path_better(d[0], b) {
                    Some(d[0])
                } else {
                    Some(b)
                },
            }
        }
    }
}

/// Every connection occurs at most once.
pub open spec fn dest_paths_wf(d: Seq<PathV>) -> bool {
    forall|i: int, j: int| 0 <= i < j < d.len() ==> d[i].conn != d[j].conn
}

/// Replacing the path of a connection first found at `k` updates index `k`.
proof fn lemma_set_path_update(d: Seq<PathV>, p: PathV, k: int)
    requires
        0 <= k < d.len(),
        d[k].conn == p.conn,
        forall|j: int| 0 <= j < k ==> d[j].conn != p.conn,
    ensures
        spec_set_path(d, p) == d.update(k, p),
    decreases k,
{
    if k == 0 {
        assert(spec_set_path(d, p) =~= d.update(0, p));
    } else {
        lemma_set_path_update(d.skip(1), p, k - 1);
        assert(seq![d[0]] + d.skip(1).update(k - 1, p) =~= d.update(k, p));
    }
}

/// Setting a connection no path holds appends.
proof fn lemma_set_path_push(d: Seq<PathV>, p: PathV)
    requires
        forall|j: int| 0 <= j < d.len() ==> d[j].conn != p.conn,
    ensures
        spec_set_path(d, p) == d.push(p),
    decreases d.len(),
{
    if d.len() == 0 {
        assert(spec_set_path(d, p) =~= d.push(p));
    } else {
        lemma_set_path_push(d.skip(1), p);
        assert(seq![d[0]] + d.skip(1).push(p) =~= d.push(p));
    }
}

/// Deleting a connection first found at `k` removes index `k`.
proof fn lemma_del_path_remove(d: Seq<PathV>, conn: ConnId, k: int)
    requires
        0 <= k < d.len(),
        d[k].conn == conn,
        forall|j: int| 0 <= j < k ==> d[j].conn != conn,
    ensures
        spec_del_path(d, conn) == d.remove(k),
    decreases k,
{
    if k == 0 {
        assert(spec_del_path(d, conn) =~= d.remove(0));
    } else {
        lemma_del_path_remove(d.skip(1), conn, k - 1);
        assert(seq![d[0]] + d.skip(1).remove(k - 1) =~= d.remove(k));
    }
}

/// Deleting a connection no path holds changes nothing.
pub proof fn lemma_del_path_absent(d: Seq<PathV>, conn: ConnId)
    requires
        forall|j: int| 0 <= j < d.len() ==> d[j].conn != conn,
    ensures
        spec_del_path(d, conn) == d,
    decreases d.len(),
{
    if d.len() > 0 {
        lemma_del_path_absent(d.skip(1), conn);
        assert(seq![d[0]] + d.skip(1) =~= d);
    }
}

/// Every path after `set_path` is the new path or one of the old ones.
pub proof fn lemma_set_path_elems(d: Seq<PathV>, p: PathV)
    ensures
        forall|k: int| 0 <= k < spec_set_path(d, p).len() ==> (#[trigger] spec_set_path(d, p)[k]
            == p || d.contains(spec_set_path(d, p)[k])),
    decreases d.len(),
{
    if d.len() > 0 && d[0].conn != p.conn {
        lemma_set_path_elems(d.skip(1), p);
        assert forall|k: int| 0 <= k < spec_set_path(d, p).len() implies (
        #[trigger] spec_set_path(d, p)[k] == p || d.contains(spec_set_path(d, p)[k])) by {
            if k == 0 {
                assert(d[0] == spec_set_path(d, p)[0]);
            } else {
                let e = spec_set_path(d, p)[k];
                assert(e == spec_set_path(d.skip(1), p)[k - 1]);
                if e != p {
                    let j = choose|j: int| 0 <= j < d.skip(1).len() && d.skip(1)[j] == e;
                    assert(d[j + 1] == e);
                }
            }
        }
    } else if d.len() > 0 {
        assert forall|k: int| 0 <= k < spec_set_path(d, p).len() implies (
        #[trigger] spec_set_path(d, p)[k] == p || d.contains(spec_set_path(d, p)[k])) by {
            if k > 0 {
                assert(spec_set_path(d, p)[k] == d.skip(1)[k - 1]);
                assert(d[k] == d.skip(1)[k - 1]);
            }
        }
    }
}

/// Every path after `del_path` is one of the old ones.
pub proof fn lemma_del_path_elems(d: Seq<PathV>, conn: ConnId)
    ensures
        forall|k: int| 0 <= k < spec_del_path(d, conn).len() ==> d.contains(
            #[trigger] spec_del_path(d, conn)[k],
        ),
    decreases d.len(),
{
    if d.len() > 0 && d[0].conn != conn {
        lemma_del_path_elems(d.skip(1), conn);
        assert forall|k: int| 0 <= k < spec_del_path(d, conn).len() implies d.contains(
            #[trigger] spec_del_path(d, conn)[k],
        ) by {
            if k == 0 {
                assert(d[0] == spec_del_path(d, conn)[0]);
            } else {
                let e = spec_del_path(d, conn)[k];
                assert(e == spec_del_path(d.skip(1), conn)[k - 1]);
                let j = choose|j: int| 0 <= j < d.skip(1).len() && d.skip(1)[j] == e;
                assert(d[j + 1] == e);
            }
        }
    } else if d.len() > 0 {
        assert forall|k: int| 0 <= k < spec_del_path(d, conn).len() implies d.contains(
            #[trigger] spec_del_path(d, conn)[k],
        ) by {
            assert(d[k + 1] == spec_del_path(d, conn)[k]);
        }
    }
}

/// After `del_path`, no path of `conn` is left, and the paths stay
/// well-formed.
pub proof fn lemma_del_path_removes(d: Seq<PathV>, conn: ConnId)
    requires
        dest_paths_wf(d),
    ensures
        dest_paths_wf(spec_del_path(d, conn)),
        forall|k: int| 0 <= k < spec_del_path(d, conn).len() ==> (#[trigger] spec_del_path(
            d,
            conn,
        )[k]).conn != conn,
    decreases d.len(),
{
    if d.len() > 0 {
        assert(dest_paths_wf(d.skip(1)));
        lemma_del_path_removes(d.skip(1), conn);
        if d[0].conn == conn {
            assert forall|k: int| 0 <= k < spec_del_path(d, conn).len() implies (
            #[trigger] spec_del_path(d, conn)[k]).conn != conn by {
                assert(spec_del_path(d, conn)[k] == d[k + 1]);
            }
        } else {
            lemma_del_path_elems(d.skip(1), conn);
            let r = spec_del_path(d, conn);
            assert forall|i: int, j: int| 0 <= i < j < r.len() implies r[i].conn != r[j].conn by {
                if i == 0 {
                    assert(r[j] == spec_del_path(d.skip(1), conn)[j - 1]);
                    let e = r[j];
                    let k = choose|k: int| 0 <= k < d.skip(1).len() && d.skip(1)[k] == e;
                    assert(d[k + 1] == e);
                } else {
                    assert(r[i] == spec_del_path(d.skip(1), conn)[i - 1]);
                    assert(r[j] == spec_del_path(d.skip(1), conn)[j - 1]);
                }
            }
        }
    }
}

/// Applying `set_path` twice with the same path is the same as applying
/// it once.
pub proof fn lemma_set_path_idempotent(d: Seq<PathV>, p: PathV)
    ensures
        spec_set_path(spec_set_path(d, p), p) == spec_set_path(d, p),
    decreases d.len(),
{
    if d.len() == 0 {
        assert(spec_set_path(spec_set_path(d, p), p) =~= spec_set_path(d, p));
    } else if d[0].conn == p.conn {
        let r = seq![p] + d.skip(1);
        assert(r[0].conn == p.conn);
        assert(spec_set_path(r, p) == seq![p] + r.skip(1));
        assert(seq![p] + r.skip(1) =~= r);
    } else {
        lemma_set_path_idempotent(d.skip(1), p);
        let r = seq![d[0]] + spec_set_path(d.skip(1), p);
        assert(r[0].conn != p.conn);
        assert(r.skip(1) =~= spec_set_path(d.skip(1), p));
        assert(spec_set_path(r, p) == seq![r[0]] + spec_set_path(r.skip(1), p));
    }
}

/// The path `next_path` picks is one of the destination's paths, and its
/// next hop is outside the exclusion list.
pub proof fn lemma_next_in_dest(d: Seq<PathV>, excepts: Seq<NodeId>)
    ensures
        spec_next(d, excepts) matches Some(p) ==> d.contains(p) && !excepts.contains(p.next),
    decreases d.len(),
{
    if d.len() > 0 {
        lemma_next_in_dest(d.skip(1), excepts);
        match spec_next(d, excepts) {
            Some(p) => {
                if p == d[0] {
                    assert(d.contains(p));
                } else {
                    assert(d.skip(1).contains(p));
                    let j = choose|j: int| 0 <= j < d.skip(1).len() && d.skip(1)[j] == p;
                    assert(d[j + 1] == p);
                }
            },
            None => {},
        }
    }
}

/// The path `best_for` picks is one of the destination's paths, and its
/// route does not traverse `node`.
pub proof fn lemma_best_for_avoids(d: Seq<PathV>, node: NodeId)
    ensures
        spec_best_for(d, node) matches Some(p) ==> d.contains(p) && !p.metric.hops.contains(node),
    decreases d.len(),
{
    if d.len() > 0 {
        lemma_best_for_avoids(d.skip(1), node);
        match spec_best_for(d, node) {
            Some(p) => {
                if p == d[0] {
                    assert(d.contains(p));
                } else {
                    assert(d.skip(1).contains(p));
                    let j = choose|j: int| 0 <= j < d.skip(1).len() && d.skip(1)[j] == p;
                    assert(d[j + 1] == p);
                }
            },
            None => {},
        }
    }
}

/// The preference between paths is transitive.
pub proof fn lemma_path_better_transitive(a: PathV, b: PathV, c: PathV)
    requires
        spec_path_better(a, b),
        spec_path_better(b, c),
    ensures
        spec_path_better(a, c),
{
    if !spec_metric_lt(a.metric, b.metric) && !spec_metric_lt(b.metric, a.metric) {
        lemma_metric_lt_antisymmetric(a.metric, b.metric);
        assert(a.metric =~= b.metric);
    }
    if !spec_metric_lt(b.metric, c.metric) && !spec_metric_lt(c.metric, b.metric) {
        lemma_metric_lt_antisymmetric(b.metric, c.metric);
        assert(b.metric =~= c.metric);
    }
    if spec_metric_lt(a.metric, b.metric) && spec_metric_lt(b.metric, c.metric) {
        lemma_metric_lt_transitive(a.metric, b.metric, c.metric);
    }
}

/// Between paths of different connections, one is preferred.
pub proof fn lemma_path_better_total(a: PathV, b: PathV)
    requires
        a.conn != b.conn,
        !spec_path_better(a, b),
    ensures
        spec_path_better(b, a),
{
    if !spec_metric_lt(a.metric, b.metric) && !spec_metric_lt(b.metric, a.metric) {
        lemma_metric_lt_antisymmetric(a.metric, b.metric);
    }
}

/// The chosen path is minimal: among the paths whose next hop is not
/// excluded, the one `spec_next` picks is preferred over every other, and
/// `None` comes only when every path is excluded.
pub proof fn lemma_next_minimal(d: Seq<PathV>, excepts: Seq<NodeId>)
    requires
        dest_paths_wf(d),
    ensures
        match spec_next(d, excepts) {
            Some(p) => forall|j: int| 0 <= j < d.len() && !excepts.contains((#[trigger] d[j]).next)
                && d[j] != p ==> spec_path_better(p, d[j]),
            None => forall|j: int| 0 <= j < d.len() ==> excepts.contains((#[trigger] d[j]).next),
        },
    decreases d.len(),
{
    if d.len() > 0 {
        let tail = d.skip(1);
        assert(dest_paths_wf(tail));
        lemma_next_minimal(tail, excepts);
        lemma_next_in_dest(tail, excepts);
        match spec_next(d, excepts) {
            Some(p) => {
                assert forall|j: int| 0 <= j < d.len() && !excepts.contains(
                    (#[trigger] d[j]).next,
                ) && d[j] != p implies spec_path_better(p, d[j]) by {
                    let rest = spec_next(tail, excepts);
                    if excepts.contains(d[0].next) {
                        // The head is no candidate: the pick is the tail's.
                        assert(j > 0);
                        assert(tail[j - 1] == d[j]);
                    } else {
                        match rest {
                            None => {
                                // Every tail path is excluded, so the pick
                                // is the head and no other candidate exists.
                                if j > 0 {
                                    assert(tail[j - 1] == d[j]);
                                    assert(false);
                                }
                            },
                            Some(b) => {
                                let k = choose|k: int| 0 <= k < tail.len() && tail[k] == b;
                                if spec_path_better(d[0], b) {
                                    assert(p == d[0]);
                                    if j > 0 && d[j] != b {
                                        assert(tail[j - 1] == d[j]);
                                        lemma_path_better_transitive(d[0], b, d[j]);
                                    }
                                } else {
                                    assert(p == b);
                                    if j == 0 {
                                        assert(d[0].conn != tail[k].conn);
                                        lemma_path_better_total(d[0], b);
                                    } else if d[j] != b {
                                        assert(tail[j - 1] == d[j]);
                                    }
                                }
                            },
                        }
                    }
                }
            },
            None => {
                assert forall|j: int| 0 <= j < d.len() implies excepts.contains(
                    (#[trigger] d[j]).next,
                ) by {
                    if j > 0 {
                        assert(tail[j - 1] == d[j]);
                    }
                }
            },
        }
    }
}

/// True when `v` holds `x`.
pub fn nodes_contain(v: &Vec<NodeId>, x: NodeId) -> (r: bool)
    ensures
        r == v@.contains(x),
{
    let mut i: usize = 0;
    while i < v.len()
        invariant
            i <= v.len(),
            forall|j: int| 0 <= j < i ==> v@[j] != x,
        decreases v.len() - i,
    {
        if v[i] == x {
            return true;
        }
        i += 1;
    }
    false
}

/// `a` is preferred over `b`.
fn path_better(a: &Path, b: &Path) -> (r: bool)
    ensures
        r == spec_path_better(a@, b@),
{
    if a.2.less(&b.2) {
        true
    } else if b.2.less(&a.2) {
        false
    } else {
        a.0 < b.0
    }
}

/// The candidate paths towards one slot, keyed by connection.
#[derive(Debug)]
pub struct Dest {
    paths: Vec<Path>,
}

impl View for Dest {
    type V = Seq<PathV>;

    closed spec fn view(&self) -> Seq<PathV> {
        Seq::new(self.paths@.len(), |i: int| self.paths@[i]@)
    }
}

impl Dest {
    /// Every connection occurs at most once.
    pub open spec fn wf(&self) -> bool {
        dest_paths_wf(self@)
    }

    /// A destination no path reaches yet.
    pub fn new() -> (r: Dest)
        ensures
            r@ == Seq::<PathV>::empty(),
            r.wf(),
    {
        let r = Dest { paths: Vec::new() };
        proof {
            assert(r@ =~= Seq::<PathV>::empty());
        }
        r
    }

    /// No path reaches this destination.
    pub fn is_empty(&self) -> (r: bool)
        ensures
            r == (self@.len() == 0),
    {
        self.paths.len() == 0
    }

    /// Inserts the path of `conn`, or replaces it: afterwards the paths
    /// are `spec_set_path` of the old ones.
    pub fn set_path(&mut self, conn: ConnId, node: NodeId, metric: Metric)
        requires
            old(self).wf(),
        ensures
            final(self)@ == spec_set_path(old(self)@, (PathV { conn, next: node, metric: metric@ })),
            final(self).wf(),
    {
        let ghost p = PathV { conn, next: node, metric: metric@ };
        let mut i: usize = 0;
        while i < self.paths.len()
            invariant
                i <= self.paths.len(),
                self.wf(),
                self@ == old(self)@,
                p == (PathV { conn, next: node, metric: metric@ }),
                forall|j: int| 0 <= j < i ==> #[trigger] self@[j].conn != conn,
            decreases self.paths.len() - i,
        {
            proof {
                assert(self@[i as int] == self.paths@[i as int]@);
            }
            if self.paths[i].0 == conn {
                proof {
                    lemma_set_path_update(self@, p, i as int);
                }
                let ghost pre = self@;
                self.paths.set(i, Path(conn, node, metric));
                proof {
                    assert forall|j: int| 0 <= j < self@.len() implies self@[j] == pre.update(
                        i as int,
                        p,
                    )[j] by {
                        assert(self@[j] == self.paths@[j]@);
                    }
                    assert(self@ =~= pre.update(i as int, p));
                }
                return;
            }
            i += 1;
        }
        proof {
            lemma_set_path_push(self@, p);
        }
        let ghost pre = self@;
        self.paths.push(Path(conn, node, metric));
        proof {
            assert(self@ =~= pre.push(p));
        }
    }

    /// Removes the path of `conn`, if any: afterwards the paths are
    /// `spec_del_path` of the old ones.
    pub fn del_path(&mut self, conn: ConnId)
        requires
            old(self).wf(),
        ensures
            final(self)@ == spec_del_path(old(self)@, conn),
            final(self).wf(),
    {
        let mut i: usize = 0;
        while i < self.paths.len()
            invariant
                i <= self.paths.len(),
                forall|j: int| 0 <= j < i ==> self@[j].conn != conn,
                self.wf(),
                self@ == old(self)@,
            decreases self.paths.len() - i,
        {
            proof {
                assert(self@[i as int] == self.paths@[i as int]@);
            }
            if self.paths[i].0 == conn {
                proof {
                    lemma_del_path_remove(self@, conn, i as int);
                }
                let ghost pre = self@;
                self.paths.remove(i);
                proof {
                    assert(self@ =~= pre.remove(i as int));
                }
                return;
            }
            i += 1;
        }
        proof {
            lemma_del_path_absent(self@, conn);
        }
    }

    /// The preferred path whose next hop is not among `excepts`, as the
    /// pair of its connection and next hop.
    pub fn next(&self, excepts: &Vec<NodeId>) -> (r: Option<(ConnId, NodeId)>)
        ensures
            match r {
                Some(pair) => {
                    &&& spec_next(self@, excepts@) matches Some(p)
                    &&& pair.0 == p.conn
                    &&& pair.1 == p.next
                },
                None => spec_next(self@, excepts@) is None,
            },
    {
        match self.next_path(excepts) {
            Some(p) => Some((p.0, p.1)),
            None => None,
        }
    }

    /// The preferred path whose next hop is not among `excepts`.
    pub fn next_path(&self, excepts: &Vec<NodeId>) -> (r: Option<Path>)
        ensures
            match r {
                Some(p) => spec_next(self@, excepts@) == Some(p@),
                None => spec_next(self@, excepts@) is None,
            },
    {
        let mut i: usize = self.paths.len();
        let mut best: Option<&Path> = None;
        proof {
            assert(self@.skip(i as int) =~= Seq::<PathV>::empty());
        }
        while i > 0
            invariant
                i <= self.paths.len(),
                match best {
                    Some(b) => spec_next(self@.skip(i as int), excepts@) == Some(b@),
                    None => spec_next(self@.skip(i as int), excepts@) is None,
                },
            decreases i,
        {
            i -= 1;
            let cand = &self.paths[i];
            let ghost tail = self@.skip(i as int + 1);
            proof {
                assert(self@[i as int] == cand@);
                assert(self@.skip(i as int) =~= seq![cand@] + tail);
                assert((seq![cand@] + tail).skip(1) =~= tail);
            }
            if !nodes_contain(excepts, cand.1) {
                best = match best {
                    Some(b) => {
                        if path_better(cand, b) {
                            Some(cand)
                        } else {
                            Some(b)
                        }
                    },
                    None => Some(cand),
                };
            }
        }
        proof {
            assert(self@.skip(0) =~= self@);
        }
        match best {
            Some(b) => Some(b.clone()),
            None => None,
        }
    }

    /// The preferred path whose route does not traverse `node`: what the
    /// table advertises to `node` (poisoned reverse).
    pub fn best_for(&self, node: NodeId) -> (r: Option<Path>)
        ensures
            match r {
                Some(p) => spec_best_for(self@, node) == Some(p@),
                None => spec_best_for(self@, node) is None,
            },
    {
        let mut i: usize = self.paths.len();
        let mut best: Option<&Path> = None;
        proof {
            assert(self@.skip(i as int) =~= Seq::<PathV>::empty());
        }
        while i > 0
            invariant
                i <= self.paths.len(),
                match best {
                    Some(b) => spec_best_for(self@.skip(i as int), node) == Some(b@),
                    None => spec_best_for(self@.skip(i as int), node) is None,
                },
            decreases i,
        {
            i -= 1;
            let cand = &self.paths[i];
            let ghost tail = self@.skip(i as int + 1);
            proof {
                assert(self@[i as int] == cand@);
                assert(self@.skip(i as int) =~= seq![cand@] + tail);
                assert((seq![cand@] + tail).skip(1) =~= tail);
            }
            if !nodes_contain(&cand.2.hops, node) {
                best = match best {
                    Some(b) => {
                        if path_better(cand, b) {
                            Some(cand)
                        } else {
                            Some(b)
                        }
                    },
                    None => Some(cand),
                };
            }
        }
        proof {
            assert(self@.skip(0) =~= self@);
        }
        match best {
            Some(b) => Some(b.clone()),
            None => None,
        }
    }
}

} // verus!
