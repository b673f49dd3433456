//! The wire form of a routing-table advertisement.
//!
//! A router-sync packet's payload is the layer byte, then the table sync:
//! a count byte and that many entries, each the slot byte, the latency in
//! two bytes, the bandwidth in four, a hop count byte and the hops, four
//! bytes each, everything in network byte order. A sync of more than 255
//! entries, or one carrying a hop list of more than 255 nodes, has no
//! wire form.

use vstd::prelude::*;

use crate::header::{
    lemma_nodes_bytes_len, lemma_nodes_bytes_take, lemma_u16_be_round_trip,
    lemma_u32_be_round_trip, push_u32_be, read_u32_be, spec_nodes_bytes, spec_read_nodes,
    spec_read_u16_be, spec_read_u32_be, spec_u16_be, spec_u32_be,
};
use crate::addr::NodeId;
use crate::metric::{Metric, MetricV};
use crate::table::TableSync;

verus! {

/// One entry on the wire: the slot, then the metric.
pub open spec fn spec_entry_bytes(e: (u8, MetricV)) -> Option<Seq<u8>> {
    if e.1.hops.len() > 255 {
        None
    } else {
        Some(
            seq![e.0] + spec_u16_be(e.1.latency) + spec_u32_be(e.1.bandwidth) + seq![
                e.1.hops.len() as u8,
            ] + spec_nodes_bytes(e.1.hops),
        )
    }
}

/// The entries from `k` on, one after the other; `None` as soon as one
/// has no wire form.
pub open spec fn spec_entries_bytes_from(es: Seq<(u8, MetricV)>, k: int) -> Option<Seq<u8>>
    decreases es.len() - k,
{
    if k < 0 || k >= es.len() {
        Some(Seq::empty())
    } else {
        match (spec_entry_bytes(es[k]), spec_entries_bytes_from(es, k + 1)) {
            (Some(e), Some(rest)) => Some(e + rest),
            _ => None,
        }
    }
}

/// The whole advertisement on the wire: the count, then the entries.
pub open spec fn spec_encode_sync(es: Seq<(u8, MetricV)>) -> Option<Seq<u8>> {
    if es.len() > 255 {
        None
    } else {
        match spec_entries_bytes_from(es, 0) {
            Some(body) => Some(seq![es.len() as u8] + body),
            None => None,
        }
    }
}

/// Wire length of the entry at offset `at`: the fixed eight bytes plus
/// four per hop; the hop count stands at offset `at + 7`.
pub open spec fn spec_entry_len(b: Seq<u8>, at: int) -> int {
    8 + 4 * (b[at + 7] as int)
}

/// The `k` entries starting at offset `at`, and the offset after them;
/// `None` when the buffer ends first.
pub open spec fn spec_decode_entries(b: Seq<u8>, at: int, k: int) -> Option<
    (Seq<(u8, MetricV)>, int),
>
    decreases k,
{
    if k <= 0 {
        Some((Seq::empty(), at))
    } else if b.len() < at + 8 || b.len() < at + spec_entry_len(b, at) {
        None
    } else {
        let hc = b[at + 7] as int;
        let entry = (
            b[at],
            MetricV {
                latency: spec_read_u16_be(b, at + 1),
                bandwidth: spec_read_u32_be(b, at + 3),
                hops: spec_read_nodes(b, at + 8, hc),
            },
        );
        match spec_decode_entries(b, at + spec_entry_len(b, at), k - 1) {
            Some((rest, end)) => Some((seq![entry] + rest, end)),
            None => None,
        }
    }
}

/// What parsing an advertisement yields: the entries and the offset after
/// them.
pub open spec fn spec_decode_sync(b: Seq<u8>) -> Option<(Seq<(u8, MetricV)>, int)> {
    if b.len() < 1 {
        None
    } else {
        spec_decode_entries(b, 1, b[0] as int)
    }
}

/// Reading the nodes of one entry back yields the nodes themselves.
proof fn lemma_read_entry_nodes(b: Seq<u8>, at: int, ns: Seq<NodeId>, k: int)
    requires
        0 <= at,
        0 <= k <= ns.len(),
        at + 4 * ns.len() <= b.len(),
        forall|i: int| 0 <= i < 4 * ns.len() ==> b[at + i] == spec_nodes_bytes(ns)[i],
    ensures
        spec_read_nodes(b, at, k) == ns.take(k),
    decreases k,
{
    lemma_nodes_bytes_len(ns);
    if k == 0 {
        assert(spec_read_nodes(b, at, 0) =~= ns.take(0));
    } else {
        lemma_read_entry_nodes(b, at, ns, k - 1);
        let j = k - 1;
        let n = ns[j];
        crate::header::lemma_nodes_bytes_at(ns, j, 0);
        crate::header::lemma_nodes_bytes_at(ns, j, 1);
        crate::header::lemma_nodes_bytes_at(ns, j, 2);
        crate::header::lemma_nodes_bytes_at(ns, j, 3);
        lemma_u32_be_round_trip(n);
        assert(spec_read_u32_be(b, at + 4 * j) == n);
        assert(spec_read_nodes(b, at, k) =~= ns.take(k));
    }
}

/// A run of encoded entries parses back to the entries themselves,
/// ending exactly where the run ends.
proof fn lemma_entries_round_trip(b: Seq<u8>, at: int, es: Seq<(u8, MetricV)>, k: int)
    requires
        0 <= at,
        0 <= k <= es.len(),
        spec_entries_bytes_from(es, k) is Some,
        at + spec_entries_bytes_from(es, k).unwrap().len() == b.len(),
        forall|i: int| 0 <= i < spec_entries_bytes_from(es, k).unwrap().len() ==> b[at + i]
            == spec_entries_bytes_from(es, k).unwrap()[i],
    ensures
        spec_decode_entries(b, at, es.len() - k) == Some((es.skip(k), b.len() as int)),
    decreases es.len() - k,
{
    let body = spec_entries_bytes_from(es, k).unwrap();
    if k == es.len() {
        assert(body.len() == 0);
        assert(spec_decode_entries(b, at, 0) == Some((Seq::<(u8, MetricV)>::empty(), at)));
        assert(es.skip(k) =~= Seq::<(u8, MetricV)>::empty());
    } else {
        let e = es[k];
        let eb = spec_entry_bytes(e).unwrap();
        let rest = spec_entries_bytes_from(es, k + 1).unwrap();
        assert(body == eb + rest);
        let ns = e.1.hops;
        lemma_nodes_bytes_len(ns);
        assert(eb.len() == 8 + 4 * ns.len());
        assert forall|i: int| 0 <= i < eb.len() implies b[at + i] == eb[i] by {
            assert(b[at + i] == body[i]);
        }
        assert(eb[0] == e.0);
        assert(eb[1] == (e.1.latency >> 8) as u8);
        assert(eb[2] == (e.1.latency & 0xff) as u8);
        assert(eb[3] == (e.1.bandwidth >> 24) as u8);
        assert(eb[4] == ((e.1.bandwidth >> 16) & 0xff) as u8);
        assert(eb[5] == ((e.1.bandwidth >> 8) & 0xff) as u8);
        assert(eb[6] == (e.1.bandwidth & 0xff) as u8);
        assert(eb[7] == ns.len() as u8);
        assert(b[at] == b[at + 0]);
        assert(b[at] == e.0);
        lemma_u16_be_round_trip(e.1.latency);
        assert(spec_read_u16_be(b, at + 1) == e.1.latency);
        lemma_u32_be_round_trip(e.1.bandwidth);
        assert(spec_read_u32_be(b, at + 3) == e.1.bandwidth);
        assert(b[at + 7] == ns.len() as u8);
        assert(spec_entry_len(b, at) == eb.len());
        assert forall|i: int| 0 <= i < 4 * ns.len() implies b[(at + 8) + i] == spec_nodes_bytes(
            ns,
        )[i] by {
            assert(b[at + (8 + i)] == eb[8 + i]);
            assert(eb[8 + i] == spec_nodes_bytes(ns)[i]);
            assert(b[(at + 8) + i] == b[at + (8 + i)]);
        }
        lemma_read_entry_nodes(b, at + 8, ns, ns.len() as int);
        assert(ns.take(ns.len() as int) =~= ns);
        assert(spec_read_nodes(b, at + 8, b[at + 7] as int) == ns);
        assert forall|i: int| 0 <= i < rest.len() implies b[(at + eb.len()) + i] == rest[i] by {
            assert(b[at + (eb.len() + i)] == body[eb.len() + i]);
            assert(body[eb.len() + i] == rest[i]);
            assert(b[(at + eb.len()) + i] == b[at + (eb.len() + i)]);
        }
        lemma_entries_round_trip(b, at + eb.len(), es, k + 1);
        let decoded_entry = (
            b[at],
            MetricV {
                latency: spec_read_u16_be(b, at + 1),
                bandwidth: spec_read_u32_be(b, at + 3),
                hops: spec_read_nodes(b, at + 8, b[at + 7] as int),
            },
        );
        assert(decoded_entry.1 =~= e.1);
        assert(decoded_entry == e);
        assert(seq![e] + es.skip(k + 1) =~= es.skip(k));
    }
}

/// An advertisement's wire form parses back to the advertisement itself,
/// taking exactly its own bytes.
pub proof fn lemma_sync_round_trip(es: Seq<(u8, MetricV)>)
    requires
        spec_encode_sync(es) is Some,
    ensures
        spec_decode_sync(spec_encode_sync(es).unwrap()) == Some(
            (es, spec_encode_sync(es).unwrap().len() as int),
        ),
{
    let b = spec_encode_sync(es).unwrap();
    let body = spec_entries_bytes_from(es, 0).unwrap();
    assert(b == seq![es.len() as u8] + body);
    assert(b[0] == es.len() as u8);
    assert(es.len() <= 255);
    assert(b[0] as int == es.len());
    assert forall|i: int| 0 <= i < body.len() implies b[1 + i] == body[i] by {}
    lemma_entries_round_trip(b, 1, es, 0);
    assert(es.skip(0) =~= es);
}

/// Appends a sequence number in network byte order.
fn push_u16_be(out: &mut Vec<u8>, x: u16)
    ensures
        final(out)@ == old(out)@ + spec_u16_be(x),
{
    out.push((x >> 8) as u8);
    out.push((x & 0xff) as u8);
    proof {
        assert(final(out)@ =~= old(out)@ + spec_u16_be(x));
    }
}

/// Appends one entry's wire form, or reports that it has none.
fn push_entry(out: &mut Vec<u8>, slot: u8, metric: &Metric) -> (r: bool)
    ensures
        r == (spec_entry_bytes((slot, metric@)) is Some),
        r ==> (spec_entry_bytes((slot, metric@)) matches Some(v) && final(out)@ == old(out)@ + v),
        !r ==> final(out)@ == old(out)@,
{
    if metric.hops.len() > 255 {
        return false;
    }
    let ghost pre = out@;
    out.push(slot);
    push_u16_be(out, metric.latency);
    push_u32_be(out, metric.bandwidth);
    out.push(metric.hops.len() as u8);
    let ghost mid = out@;
    let mut i: usize = 0;
    while i < metric.hops.len()
        invariant
            i <= metric.hops@.len(),
            out@ == mid + spec_nodes_bytes(metric.hops@.take(i as int)),
        decreases metric.hops.len() - i,
    {
        push_u32_be(out, metric.hops[i]);
        i += 1;
        proof {
            lemma_nodes_bytes_take(metric.hops@, i as int);
            assert(out@ =~= mid + spec_nodes_bytes(metric.hops@.take(i as int)));
        }
    }
    proof {
        assert(metric.hops@.take(metric.hops@.len() as int) =~= metric.hops@);
        assert(out@ =~= pre + (seq![slot] + spec_u16_be(metric@.latency) + spec_u32_be(
            metric@.bandwidth,
        ) + seq![metric@.hops.len() as u8] + spec_nodes_bytes(metric@.hops)));
    }
    true
}

/// An advertisement's wire form, or `None` when it has none.
pub fn encode_table_sync(sync: &TableSync) -> (r: Option<Vec<u8>>)
    ensures
        match r {
            Some(v) => spec_encode_sync(sync@) == Some(v@),
            None => spec_encode_sync(sync@) is None,
        },
{
    if sync.0.len() > 255 {
        return None;
    }
    let mut out: Vec<u8> = Vec::new();
    out.push(sync.0.len() as u8);
    proof {
        assert(out@ =~= seq![sync@.len() as u8]);
    }
    let mut i: usize = 0;
    while i < sync.0.len()
        invariant
            i <= sync.0@.len(),
            sync.0@.len() <= 255,
            match spec_entries_bytes_from(sync@, i as int) {
                Some(rest) => spec_encode_sync(sync@) == Some(out@ + rest),
                None => spec_encode_sync(sync@) is None,
            },
        decreases sync.0.len() - i,
    {
        let e = &sync.0[i];
        let ghost pre = out@;
        proof {
            assert(sync@[i as int] == (sync.0@[i as int].0, sync.0@[i as int].1@));
        }
        if !push_entry(&mut out, e.0, &e.1) {
            return None;
        }
        i += 1;
        proof {
            let eb = spec_entry_bytes(sync@[i as int - 1]).unwrap();
            match spec_entries_bytes_from(sync@, i as int) {
                Some(rest) => {
                    assert(spec_entries_bytes_from(sync@, i as int - 1) == Some(eb + rest));
                    assert(pre + (eb + rest) =~= (pre + eb) + rest);
                },
                None => {},
            }
        }
    }
    proof {
        assert(spec_entries_bytes_from(sync@, sync@.len() as int) == Some(Seq::<u8>::empty()));
        assert(out@ + Seq::<u8>::empty() =~= out@);
    }
    Some(out)
}

/// The sequence number at offset `at`, read in network byte order.
fn read_u16_be(b: &Vec<u8>, at: usize) -> (r: u16)
    requires
        at + 2 <= b@.len(),
    ensures
        r == spec_read_u16_be(b@, at as int),
{
    let blen: usize = b.len();
    let b0 = b[at];
    let b1 = b[at + 1];
    proof {
        assert((b0 as u16) << 8u16 <= 0xff00u16) by (bit_vector);
    }
    ((b0 as u16) << 8) | (b1 as u16)
}

/// Parses an advertisement off the front of `buf`, yielding it and how
/// many bytes it took; `None` exactly when `spec_decode_sync` has none.
pub fn decode_table_sync(buf: &Vec<u8>) -> (r: Option<(TableSync, usize)>)
    ensures
        match r {
            Some((ts, len)) => spec_decode_sync(buf@) == Some((ts@, len as int)) && len
                <= buf@.len(),
            None => spec_decode_sync(buf@) is None,
        },
{
    let blen: usize = buf.len();
    if blen < 1 {
        return None;
    }
    let count = buf[0] as usize;
    let mut entries: Vec<(u8, Metric)> = Vec::new();
    let mut at: usize = 1;
    let mut done: usize = 0;
    while done < count
        invariant
            done <= count,
            1 <= at <= buf@.len(),
            blen == buf@.len(),
            count == buf@[0] as int,
            entries@.len() == done,
            match spec_decode_entries(buf@, at as int, count - done as int) {
                Some((rest, end)) => spec_decode_sync(buf@) == Some(
                    (
                        Seq::new(entries@.len(), |j: int| (entries@[j].0, entries@[j].1@)) + rest,
                        end,
                    ),
                ),
                None => spec_decode_sync(buf@) is None,
            },
        decreases count - done,
    {
        if blen - at < 8 {
            return None;
        }
        let hc = buf[at + 7] as usize;
        if (blen - at - 8) / 4 < hc {
            proof {
                assert(buf@.len() < at + spec_entry_len(buf@, at as int));
            }
            return None;
        }
        let slot = buf[at];
        let latency = read_u16_be(buf, at + 1);
        let bandwidth = read_u32_be(buf, at + 3);
        let mut hops: Vec<u32> = Vec::new();
        let mut h: usize = 0;
        while h < hc
            invariant
                h <= hc,
                blen == buf@.len(),
                at + 8 + 4 * hc <= blen,
                hops@ == spec_read_nodes(buf@, at as int + 8, h as int),
            decreases hc - h,
        {
            hops.push(read_u32_be(buf, at + 8 + 4 * h));
            h += 1;
        }
        let ghost pre_entries = Seq::new(entries@.len(), |j: int| (entries@[j].0, entries@[j].1@));
        entries.push((slot, Metric::new(latency, hops, bandwidth)));
        proof {
            let cur = Seq::new(entries@.len(), |j: int| (entries@[j].0, entries@[j].1@));
            let e = (
                buf@[at as int],
                MetricV {
                    latency: spec_read_u16_be(buf@, at as int + 1),
                    bandwidth: spec_read_u32_be(buf@, at as int + 3),
                    hops: spec_read_nodes(buf@, at as int + 8, buf@[at as int + 7] as int),
                },
            );
            assert(cur =~= pre_entries.push(e));
            match spec_decode_entries(
                buf@,
                at as int + spec_entry_len(buf@, at as int),
                count - done - 1,
            ) {
                Some((rest, end)) => {
                    assert(spec_decode_entries(buf@, at as int, count - done as int) == Some(
                        (seq![e] + rest, end),
                    ));
                    assert(pre_entries + (seq![e] + rest) =~= cur + rest);
                },
                None => {},
            }
        }
        at = at + 8 + 4 * hc;
        done += 1;
    }
    proof {
        let fin = Seq::new(entries@.len(), |j: int| (entries@[j].0, entries@[j].1@));
        assert(fin + Seq::<(u8, MetricV)>::empty() =~= fin);
    }
    Some((TableSync(entries), at))
}

} // verus!
