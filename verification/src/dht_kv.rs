//! The client side of the eventually consistent key-value feature.
//!
//! A map lives on the node closest to its key; this client forwards map
//! commands towards that node and tracks its own `MapGet` requests: each
//! is given a fresh request identifier, and one the server does not
//! answer within `MAP_GET_TIMEOUT_MS` is answered locally with a timeout
//! error.

use vstd::prelude::*;

use std::collections::VecDeque;

use crate::router::RouteRule;

verus! {

/// Milliseconds a map read may stay unanswered.
pub const MAP_GET_TIMEOUT_MS: u64 = 5000;

/// A map's key; the node closest to it hosts the map.
pub type Key = u64;

/// A service identifier waiting for an answer.
pub type ServiceId = u8;

/// A command on one map, forwarded to its host.
#[derive(Debug, Clone, Copy, PartialEq, Eq, Structural)]
pub enum MapCmd {
    /// Bind a sub-key to a value, here a plain integer handle.
    Put(u64, u64),
    /// Drop a sub-key.
    Del(u64),
    /// Follow the map's changes.
    Sub,
    /// Stop following.
    Unsub,
}

/// What the host asks its key-value client.
#[derive(Debug, Clone, Copy, PartialEq, Eq, Structural)]
pub enum KvControl {
    /// A command on one map.
    MapCmd(Key, MapCmd),
    /// Read one map.
    MapGet(Key),
}

/// The outcome of a map read.
#[derive(Debug, Clone, Copy, PartialEq, Eq, Structural)]
pub enum KvGetResult {
    /// The value the map's host answered with.
    Value(u64),
    /// The map's host did not answer in time.
    Timeout,
}

/// What the client reports back.
#[derive(Debug, Clone, Copy, PartialEq, Eq, Structural)]
pub enum KvEvent {
    /// The answer to a map read, or the timeout error.
    MapGetRes(Key, KvGetResult),
}

/// What the map's host sent back.
#[derive(Debug, Clone, Copy, PartialEq, Eq, Structural)]
pub enum ServerEvent {
    /// The answer to the read with this request identifier.
    MapGetRes(Key, u64, u64),
}

/// One queued client action.
#[derive(Debug, Clone, Copy, PartialEq, Eq, Structural)]
pub enum LocalStorageOutput {
    /// An event for the service that asked.
    Local(ServiceId, KvEvent),
    /// A command for the map's host, routed by the map's key.
    Remote(KvRemote),
}



/// The rule a command for `key` travels by: towards whoever is closest
/// to the key.
pub fn route(key: Key) -> (r: RouteRule)
    ensures
        r == RouteRule::ToKey(key as u32),
{
    RouteRule::ToKey(#[verifier::truncate] (key as u32))
}

/// A command on its way to a map's host.
#[derive(Debug, Clone, Copy, PartialEq, Eq, Structural)]
pub enum KvRemote {
    /// A map command.
    MapCmd(Key, MapCmd),
    /// A map read, with its request identifier.
    MapGet(Key, u64),
}

/// One outstanding map read.
#[derive(Debug, Clone, Copy, PartialEq, Eq, Structural)]
pub struct GetWait {
    pub key: Key,
    pub req_id: u64,
    pub service: ServiceId,
    pub sent_at: u64,
}

/// The first outstanding read matching `key` and `req_id`, by index.
pub open spec fn spec_find_wait(ws: Seq<GetWait>, key: Key, req_id: u64) -> Option<int>
    decreases ws.len(),
{
    if ws.len() == 0 {
        None
    } else if ws[0].req_id == req_id && ws[0].key == key {
        Some(0)
    } else {
        match spec_find_wait(ws.skip(1), key, req_id) {
            Some(i) => Some(i + 1),
            None => None,
        }
    }
}

/// Searching past a prefix without a match shifts the found index by the
/// prefix's length.
proof fn lemma_find_wait_skip(ws: Seq<GetWait>, key: Key, req_id: u64, p: int)
    requires
        0 <= p <= ws.len(),
        forall|j: int| 0 <= j < p ==> !((#[trigger] ws[j]).req_id == req_id && ws[j].key == key),
    ensures
        spec_find_wait(ws, key, req_id) == match spec_find_wait(ws.skip(p), key, req_id) {
            Some(i) => Some(i + p),
            None => None::<int>,
        },
    decreases p,
{
    if p > 0 {
        lemma_find_wait_skip(ws.skip(1), key, req_id, p - 1);
        assert(ws.skip(1).skip(p - 1) =~= ws.skip(p));
        assert forall|j: int| 0 <= j < p - 1 implies !((#[trigger] ws.skip(1)[j]).req_id == req_id
            && ws.skip(1)[j].key == key) by {
            assert(ws.skip(1)[j] == ws[j + 1]);
        }
    } else {
        assert(ws.skip(0) =~= ws);
    }
}

/// Whether a read is still within its answer window at `now`.
pub open spec fn spec_wait_alive(w: GetWait, now: u64) -> bool {
    !(now >= w.sent_at && now - w.sent_at >= MAP_GET_TIMEOUT_MS)
}

/// The reads a tick at `now` keeps, in order.
pub open spec fn spec_tick_keep(ws: Seq<GetWait>, now: u64) -> Seq<GetWait>
    decreases ws.len(),
{
    if ws.len() == 0 {
        Seq::empty()
    } else {
        (if spec_wait_alive(ws[0], now) {
            seq![ws[0]]
        } else {
            Seq::<GetWait>::empty()
        }) + spec_tick_keep(ws.skip(1), now)
    }
}

/// The timeout events a tick at `now` emits, one per expired read, in
/// order.
pub open spec fn spec_tick_timeouts(ws: Seq<GetWait>, now: u64) -> Seq<LocalStorageOutput>
    decreases ws.len(),
{
    if ws.len() == 0 {
        Seq::empty()
    } else {
        (if spec_wait_alive(ws[0], now) {
            Seq::<LocalStorageOutput>::empty()
        } else {
            seq![
                LocalStorageOutput::Local(
                    ws[0].service,
                    KvEvent::MapGetRes(ws[0].key, KvGetResult::Timeout),
                ),
            ]
        }) + spec_tick_timeouts(ws.skip(1), now)
    }
}

/// Processing one more read extends what the sweep keeps and emits by
/// that read's share.
proof fn lemma_tick_take_step(ws: Seq<GetWait>, now: u64, p: int)
    requires
        0 <= p < ws.len(),
    ensures
        spec_tick_keep(ws.take(p + 1), now) == spec_tick_keep(ws.take(p), now) + (if spec_wait_alive(
            ws[p],
            now,
        ) {
            seq![ws[p]]
        } else {
            Seq::<GetWait>::empty()
        }),
        spec_tick_timeouts(ws.take(p + 1), now) == spec_tick_timeouts(ws.take(p), now) + (
        if spec_wait_alive(ws[p], now) {
            Seq::<LocalStorageOutput>::empty()
        } else {
            seq![
                LocalStorageOutput::Local(
                    ws[p].service,
                    KvEvent::MapGetRes(ws[p].key, KvGetResult::Timeout),
                ),
            ]
        }),
    decreases p,
{
    if p == 0 {
        assert(ws.take(1)[0] == ws[0]);
        assert(ws.take(1).skip(1) =~= Seq::<GetWait>::empty());
        assert(ws.take(0) =~= Seq::<GetWait>::empty());
        assert(spec_tick_keep(ws.take(1), now) =~= spec_tick_keep(ws.take(0), now) + (
        if spec_wait_alive(ws[0], now) {
            seq![ws[0]]
        } else {
            Seq::<GetWait>::empty()
        }));
        assert(spec_tick_timeouts(ws.take(1), now) =~= spec_tick_timeouts(ws.take(0), now) + (
        if spec_wait_alive(ws[0], now) {
            Seq::<LocalStorageOutput>::empty()
        } else {
            seq![
                LocalStorageOutput::Local(
                    ws[0].service,
                    KvEvent::MapGetRes(ws[0].key, KvGetResult::Timeout),
                ),
            ]
        }));
    } else {
        lemma_tick_take_step(ws.skip(1), now, p - 1);
        assert(ws.take(p + 1)[0] == ws[0]);
        assert(ws.take(p)[0] == ws[0]);
        assert(ws.take(p + 1).skip(1) =~= ws.skip(1).take(p));
        assert(ws.take(p).skip(1) =~= ws.skip(1).take(p - 1));
        assert(ws.skip(1)[p - 1] == ws[p]);
        let head_keep = if spec_wait_alive(ws[0], now) {
            seq![ws[0]]
        } else {
            Seq::<GetWait>::empty()
        };
        let head_out = if spec_wait_alive(ws[0], now) {
            Seq::<LocalStorageOutput>::empty()
        } else {
            seq![
                LocalStorageOutput::Local(
                    ws[0].service,
                    KvEvent::MapGetRes(ws[0].key, KvGetResult::Timeout),
                ),
            ]
        };
        let tail_keep = if spec_wait_alive(ws[p], now) {
            seq![ws[p]]
        } else {
            Seq::<GetWait>::empty()
        };
        let tail_out = if spec_wait_alive(ws[p], now) {
            Seq::<LocalStorageOutput>::empty()
        } else {
            seq![
                LocalStorageOutput::Local(
                    ws[p].service,
                    KvEvent::MapGetRes(ws[p].key, KvGetResult::Timeout),
                ),
            ]
        };
        assert(head_keep + (spec_tick_keep(ws.skip(1).take(p - 1), now) + tail_keep) =~= (head_keep
            + spec_tick_keep(ws.skip(1).take(p - 1), now)) + tail_keep);
        assert(head_out + (spec_tick_timeouts(ws.skip(1).take(p - 1), now) + tail_out) =~= (head_out
            + spec_tick_timeouts(ws.skip(1).take(p - 1), now)) + tail_out);
    }
}

/// The key-value client: outstanding reads and queued actions.
pub struct LocalStorage {
    waits: Vec<GetWait>,
    queue: VecDeque<LocalStorageOutput>,
    req_id_seed: u64,
}

impl LocalStorage {
    /// The outstanding reads.
    pub closed spec fn waits_view(&self) -> Seq<GetWait> {
        self.waits@
    }

    /// The queued actions.
    pub closed spec fn queue_view(&self) -> Seq<LocalStorageOutput> {
        self.queue@
    }

    /// The next request identifier to hand out.
    pub closed spec fn seed_val(&self) -> u64 {
        self.req_id_seed
    }

    /// Internal invariant: every outstanding read has its own request
    /// identifier, below the seed.
    pub closed spec fn wf(&self) -> bool {
        &&& (forall|i: int, j: int| 0 <= i < j < self.waits@.len() ==> self.waits@[i].req_id
            != self.waits@[j].req_id)
        &&& (forall|i: int| 0 <= i < self.waits@.len() ==> (#[trigger] self.waits@[i]).req_id
            < self.req_id_seed)
    }

    /// A client with nothing outstanding.
    pub fn new() -> (r: LocalStorage)
        ensures
            r.wf(),
            r.waits_view().len() == 0,
            r.queue_view().len() == 0,
    {
        LocalStorage { waits: Vec::new(), queue: VecDeque::new(), req_id_seed: 0 }
    }

    /// One control of the host: a map command is forwarded towards the
    /// map's host; a map read is forwarded and recorded, so its answer or
    /// its timeout can be delivered to `service`.
    pub fn on_local(&mut self, now_ms: u64, service: ServiceId, control: KvControl)
        requires
            old(self).wf(),
        ensures
            final(self).wf(),
            match control {
                KvControl::MapCmd(key, cmd) => {
                    &&& final(self).waits_view() == old(self).waits_view()
                    &&& final(self).queue_view() == old(self).queue_view().push(
                        LocalStorageOutput::Remote(KvRemote::MapCmd(key, cmd)),
                    )
                },
                KvControl::MapGet(key) => {
                    if old(self).seed_val() < 0xffff_ffff_ffff_ffff {
                        &&& final(self).waits_view() == old(self).waits_view().push(
                            (GetWait {
                                key,
                                req_id: old(self).seed_val(),
                                service,
                                sent_at: now_ms,
                            }),
                        )
                        &&& final(self).queue_view() == old(self).queue_view().push(
                            LocalStorageOutput::Remote(
                                KvRemote::MapGet(key, old(self).seed_val()),
                            ),
                        )
                    } else {
                        // Request identifiers exhausted: the read is
                        // answered with a timeout at once.
                        &&& final(self).waits_view() == old(self).waits_view()
                        &&& final(self).queue_view() == old(self).queue_view().push(
                            LocalStorageOutput::Local(
                                service,
                                KvEvent::MapGetRes(key, KvGetResult::Timeout),
                            ),
                        )
                    }
                },
            },
    {
        match control {
            KvControl::MapCmd(key, cmd) => {
                self.queue.push_back(
                    LocalStorageOutput::Remote(KvRemote::MapCmd(key, cmd)),
                );
            },
            KvControl::MapGet(key) => {
                if self.req_id_seed == 0xffff_ffff_ffff_ffff {
                    self.queue.push_back(
                        LocalStorageOutput::Local(
                            service,
                            KvEvent::MapGetRes(key, KvGetResult::Timeout),
                        ),
                    );
                    return;
                }
                let req_id = self.req_id_seed;
                self.req_id_seed = self.req_id_seed + 1;
                self.waits.push(GetWait { key, req_id, service, sent_at: now_ms });
                self.queue.push_back(
                    LocalStorageOutput::Remote(KvRemote::MapGet(key, req_id)),
                );
            },
        }
    }

    /// One answer of a map's host: the matching outstanding read is
    /// resolved and its service told; an answer nothing waits for is
    /// dropped.
    #[verifier::loop_isolation(false)]
    pub fn on_server(&mut self, _now_ms: u64, event: ServerEvent)
        requires
            old(self).wf(),
        ensures
            final(self).wf(),
            final(self).seed_val() == old(self).seed_val(),
            match event {
                ServerEvent::MapGetRes(key, req_id, value) => match spec_find_wait(
                    old(self).waits_view(),
                    key,
                    req_id,
                ) {
                    Some(i) => final(self).waits_view() == old(self).waits_view().remove(i)
                        && final(self).queue_view() == old(self).queue_view().push(
                        LocalStorageOutput::Local(
                            old(self).waits_view()[i].service,
                            KvEvent::MapGetRes(key, KvGetResult::Value(value)),
                        ),
                    ),
                    None => *final(self) == *old(self),
                },
            },
    {
        match event {
            ServerEvent::MapGetRes(key, req_id, value) => {
                let ghost pre = self.waits@;
                let mut i: usize = 0;
                while i < self.waits.len()
                    invariant
                        i <= self.waits@.len(),
                        self.wf(),
                        self.waits@ == pre,
                        pre == old(self).waits_view(),
                        *self == *old(self),
                        forall|j: int| 0 <= j < i ==> !((#[trigger] pre[j]).req_id == req_id
                            && pre[j].key == key),
                    decreases self.waits.len() - i,
                {
                    if self.waits[i].req_id == req_id && self.waits[i].key == key {
                        proof {
                            lemma_find_wait_skip(pre, key, req_id, i as int);
                            assert(pre.skip(i as int)[0] == pre[i as int]);
                            assert(spec_find_wait(pre, key, req_id) == Some(i as int));
                        }
                        let wait = self.waits.remove(i);
                        proof {
                            assert forall|a: int, b: int| 0 <= a < b < self.waits@.len() implies
                                self.waits@[a].req_id != self.waits@[b].req_id by {
                                let a0: int = if a < i {
                                    a
                                } else {
                                    a + 1
                                };
                                let b0: int = if b < i {
                                    b
                                } else {
                                    b + 1
                                };
                                assert(self.waits@[a] == pre[a0]);
                                assert(self.waits@[b] == pre[b0]);
                            }
                            assert forall|a: int| 0 <= a < self.waits@.len() implies (
                            #[trigger] self.waits@[a]).req_id < self.req_id_seed by {
                                let a0: int = if a < i {
                                    a
                                } else {
                                    a + 1
                                };
                                assert(self.waits@[a] == pre[a0]);
                            }
                        }
                        self.queue.push_back(
                            LocalStorageOutput::Local(
                                wait.service,
                                KvEvent::MapGetRes(key, KvGetResult::Value(value)),
                            ),
                        );
                        proof {
                            assert(self.waits@ == old(self).waits_view().remove(i as int));
                            assert(self.queue@ == old(self).queue_view().push(
                                LocalStorageOutput::Local(
                                    old(self).waits_view()[i as int].service,
                                    KvEvent::MapGetRes(key, KvGetResult::Value(value)),
                                ),
                            ));
                        }
                        return;
                    }
                    i += 1;
                }
                proof {
                    lemma_find_wait_skip(pre, key, req_id, pre.len() as int);
                    assert(pre.skip(pre.len() as int) =~= Seq::<GetWait>::empty());
                }
            },
        }
    }

    /// Time advanced: the reads older than the timeout leave, in order,
    /// and each resolves with a timeout error towards its service.
    #[verifier::loop_isolation(false)]
    pub fn on_tick(&mut self, now_ms: u64)
        requires
            old(self).wf(),
        ensures
            final(self).wf(),
            final(self).seed_val() == old(self).seed_val(),
            final(self).waits_view() == spec_tick_keep(old(self).waits_view(), now_ms),
            final(self).queue_view() == old(self).queue_view() + spec_tick_timeouts(
                old(self).waits_view(),
                now_ms,
            ),
    {
        let ghost pre = self.waits@;
        let ghost q0 = self.queue@;
        let mut i: usize = 0;
        let ghost mut p: int = 0;
        proof {
            assert(pre.take(0) =~= Seq::<GetWait>::empty());
            assert(pre.skip(0) =~= pre);
            assert(self.waits@ =~= spec_tick_keep(pre.take(p), now_ms) + pre.skip(p));
            assert(q0 + spec_tick_timeouts(pre.take(p), now_ms) =~= q0);
        }
        while i < self.waits.len()
            invariant
                self.wf(),
                self.req_id_seed == old(self).seed_val(),
                0 <= p <= pre.len(),
                i == spec_tick_keep(pre.take(p), now_ms).len(),
                self.waits@ == spec_tick_keep(pre.take(p), now_ms) + pre.skip(p),
                self.queue@ == q0 + spec_tick_timeouts(pre.take(p), now_ms),
            decreases self.waits.len() - i,
        {
            proof {
                assert(pre.skip(p)[0] == pre[p]);
                assert(self.waits@[i as int] == pre[p]);
                lemma_tick_take_step(pre, now_ms, p);
            }
            let w = self.waits[i];
            if now_ms >= w.sent_at && now_ms - w.sent_at >= MAP_GET_TIMEOUT_MS {
                let ghost mid = self.waits@;
                self.waits.remove(i);
                proof {
                    assert(!spec_wait_alive(pre[p], now_ms));
                    assert(self.waits@ =~= spec_tick_keep(pre.take(p + 1), now_ms) + pre.skip(
                        p + 1,
                    ));
                    assert forall|a: int, b: int| 0 <= a < b < self.waits@.len() implies self
                        .waits@[a].req_id != self.waits@[b].req_id by {
                        let a0: int = if a < i {
                            a
                        } else {
                            a + 1
                        };
                        let b0: int = if b < i {
                            b
                        } else {
                            b + 1
                        };
                        assert(self.waits@[a] == mid[a0]);
                        assert(self.waits@[b] == mid[b0]);
                    }
                    assert forall|a: int| 0 <= a < self.waits@.len() implies (
                    #[trigger] self.waits@[a]).req_id < self.req_id_seed by {
                        let a0: int = if a < i {
                            a
                        } else {
                            a + 1
                        };
                        assert(self.waits@[a] == mid[a0]);
                    }
                }
                self.queue.push_back(
                    LocalStorageOutput::Local(
                        w.service,
                        KvEvent::MapGetRes(w.key, KvGetResult::Timeout),
                    ),
                );
                proof {
                    assert(self.queue@ =~= q0 + spec_tick_timeouts(pre.take(p + 1), now_ms));
                    p = p + 1;
                }
            } else {
                i += 1;
                proof {
                    assert(spec_wait_alive(pre[p], now_ms));
                    assert(self.waits@ =~= spec_tick_keep(pre.take(p + 1), now_ms) + pre.skip(
                        p + 1,
                    ));
                    assert(self.queue@ =~= q0 + spec_tick_timeouts(pre.take(p + 1), now_ms));
                    p = p + 1;
                }
            }
        }
        proof {
            assert(p == pre.len());
            assert(pre.take(pre.len() as int) =~= pre);
            assert(pre.skip(pre.len() as int) =~= Seq::<GetWait>::empty());
            assert(self.waits@ =~= spec_tick_keep(pre, now_ms));
        }
    }

    /// The oldest queued action, if any.
    pub fn pop_action(&mut self) -> (r: Option<LocalStorageOutput>)
        requires
            old(self).wf(),
        ensures
            final(self).wf(),
            r is None ==> old(self).queue_view().len() == 0,
            match r {
                Some(out) => old(self).queue_view().len() > 0 && out == old(self).queue_view()[0]
                    && final(self).queue_view() == old(self).queue_view().skip(1),
                None => final(self).queue_view() == old(self).queue_view(),
            },
    {
        let r = self.queue.pop_front();
        proof {
            if old(self).queue_view().len() > 0 {
                assert(final(self).queue_view() =~= old(self).queue_view().skip(1));
            }
        }
        r
    }
}

} // verus!
