//! What the time-bin batching promises, for every request and over whole
//! runs of requests: no event is lost, duplicated or reordered within its
//! bin; bins are finalized in order, each once, and only when an event
//! closes them; chunk numbers count up within each bin; and with events in
//! time order, no event falls into a bin already finalized.

use vstd::prelude::*;

use crate::event_sharing::bins::{
    bin_or_fresh, spec_adapter_wf, spec_bin_start, spec_final_chunk, spec_finalize_from,
    spec_flush_full_chunk, spec_on_request, lemma_time_in_its_bin, lemma_finalize_facts,
    lemma_multiple_below, lemma_push_flush_wf, spec_push_event, stamped, BinStateView, ChunkView,
    EventSharingServiceAdapterView, BIN_FINALIZATION_LAG_SECS,
};
use crate::event_sharing::InternalEventSharingRequestPayload;

verus! {

/// The events of bin `k` in a sequence of chunks, in order.
pub open spec fn bin_events_in(chunks: Seq<ChunkView>, k: u32) -> Seq<
    InternalEventSharingRequestPayload,
>
    decreases chunks.len(),
{
    if chunks.len() == 0 {
        Seq::empty()
    } else {
        let c = chunks[0];
        (if c.completed_bin_start == k {
            c.events
        } else {
            Seq::empty()
        }) + bin_events_in(chunks.drop_first(), k)
    }
}

/// The events bin `k` holds, none if it holds no state.
pub open spec fn pending_of(bins: Map<u32, BinStateView>, k: u32) -> Seq<
    InternalEventSharingRequestPayload,
> {
    bin_or_fresh(bins, k).pending
}

proof fn lemma_bin_events_in_cons(c: ChunkView, rest: Seq<ChunkView>, k: u32)
    ensures
        bin_events_in(seq![c] + rest, k) == (if c.completed_bin_start == k {
            c.events
        } else {
            Seq::empty()
        }) + bin_events_in(rest, k),
{
    assert((seq![c] + rest)[0] == c);
    assert((seq![c] + rest).drop_first() =~= rest);
}

proof fn lemma_bin_events_in_append(a: Seq<ChunkView>, b: Seq<ChunkView>, k: u32)
    ensures
        bin_events_in(a + b, k) == bin_events_in(a, k) + bin_events_in(b, k),
    decreases a.len(),
{
    if a.len() == 0 {
        assert(a + b =~= b);
        assert(Seq::<InternalEventSharingRequestPayload>::empty() + bin_events_in(b, k)
            =~= bin_events_in(b, k));
    } else {
        assert((a + b)[0] == a[0]);
        assert((a + b).drop_first() =~= a.drop_first() + b);
        lemma_bin_events_in_append(a.drop_first(), b, k);
        let h = if a[0].completed_bin_start == k {
            a[0].events
        } else {
            Seq::empty()
        };
        assert(h + (bin_events_in(a.drop_first(), k) + bin_events_in(b, k)) =~= (h
            + bin_events_in(a.drop_first(), k)) + bin_events_in(b, k));
    }
}

/// Finalizing moves each finalized bin's events, whole and in order, into
/// its final chunk.
proof fn lemma_finalize_conserves(bins: Map<u32, BinStateView>, cur: u32, size: u32, t: u32, k: u32)
    requires
        forall|j: u32| #[trigger] bins.contains_key(j) ==> bins[j].saw_any_event,
    ensures
        ({
            let f = spec_finalize_from(bins, cur, size, t);
            pending_of(bins, k) == bin_events_in(f.2, k) + pending_of(f.0, k)
        }),
    decreases t - cur,
{
    let f = spec_finalize_from(bins, cur, size, t);
    if size > 0 && cur + size + BIN_FINALIZATION_LAG_SECS <= t {
        let end = (cur + size) as u32;
        let rest = spec_finalize_from(bins.remove(cur), end, size, t);
        let c = spec_final_chunk(bin_or_fresh(bins, cur), cur, end);
        lemma_finalize_conserves(bins.remove(cur), end, size, t, k);
        lemma_bin_events_in_cons(c, rest.2, k);
        if k == cur {
            assert(pending_of(bins.remove(cur), k) =~= Seq::empty());
            assert(bin_events_in(rest.2, k).len() + pending_of(rest.0, k).len() == 0);
            assert(bin_events_in(rest.2, k) =~= Seq::empty());
            assert(pending_of(rest.0, k) =~= Seq::empty());
            assert(c.events == pending_of(bins, k));
            assert(pending_of(bins, k) =~= c.events + bin_events_in(rest.2, k) + pending_of(
                rest.0,
                k,
            ));
        } else {
            assert(pending_of(bins.remove(cur), k) == pending_of(bins, k));
            assert(Seq::<InternalEventSharingRequestPayload>::empty() + bin_events_in(rest.2, k)
                =~= bin_events_in(rest.2, k));
        }
    } else {
        assert(Seq::<InternalEventSharingRequestPayload>::empty() + pending_of(bins, k)
            =~= pending_of(bins, k));
    }
}

/// No event is lost, duplicated or reordered: for every bin, the events it
/// held, followed by the new event if it belongs there, are exactly the
/// events of that bin in the chunks sent, in order, followed by the events
/// it still holds.
pub proof fn law_events_conserved_in_order(
    v: EventSharingServiceAdapterView,
    payload: InternalEventSharingRequestPayload,
    arrival_stamp: Option<i64>,
    k: u32,
)
    requires
        spec_adapter_wf(v),
        v.bin_size_secs > 0,
    ensures
        ({
            let ev = stamped(payload, arrival_stamp);
            let b = spec_bin_start(ev.now, v.bin_size_secs) as u32;
            let r = spec_on_request(v, payload, arrival_stamp);
            pending_of(v.bins, k) + (if k == b {
                seq![ev]
            } else {
                Seq::empty()
            }) == bin_events_in(r.1, k) + pending_of(r.0.bins, k)
        }),
{
    let ev = stamped(payload, arrival_stamp);
    let b = spec_bin_start(ev.now, v.bin_size_secs) as u32;
    let v1 = spec_push_event(v, ev);
    let fl = spec_flush_full_chunk(v1, b);
    let v2 = fl.0;
    let fin = spec_finalize_from(
        v2.bins,
        v2.oldest_unfinalized_bin_start.unwrap(),
        v2.bin_size_secs,
        ev.now,
    );
    let r = spec_on_request(v, payload, arrival_stamp);
    let added: Seq<InternalEventSharingRequestPayload> = if k == b {
        seq![ev]
    } else {
        Seq::empty()
    };
    assert(pending_of(v1.bins, k) =~= pending_of(v.bins, k) + added);
    assert forall|j: u32| #[trigger] v2.bins.contains_key(j) implies v2.bins[j].saw_any_event by {
        if j != b {
            assert(v.bins.contains_key(j));
        }
    }
    lemma_finalize_conserves(
        v2.bins,
        v2.oldest_unfinalized_bin_start.unwrap(),
        v2.bin_size_secs,
        ev.now,
        k,
    );
    lemma_bin_events_in_append(fl.1, fin.2, k);
    let n = v1.max_events_per_bin_chunk as int;
    if v1.bins[b].pending.len() >= n && k == b {
        let c = fl.1[0];
        assert(fl.1 =~= seq![c] + Seq::empty());
        lemma_bin_events_in_cons(c, Seq::empty(), k);
        assert(pending_of(v1.bins, k) =~= c.events + pending_of(v2.bins, k));
        assert(bin_events_in(Seq::<ChunkView>::empty(), k) =~= Seq::empty());
        assert(bin_events_in(fl.1, k) =~= c.events);
    } else if v1.bins[b].pending.len() >= n {
        let c = fl.1[0];
        assert(fl.1 =~= seq![c] + Seq::empty());
        lemma_bin_events_in_cons(c, Seq::empty(), k);
        assert(bin_events_in(Seq::<ChunkView>::empty(), k) =~= Seq::empty());
        assert(bin_events_in(fl.1, k) =~= Seq::empty());
        assert(pending_of(v2.bins, k) == pending_of(v1.bins, k));
    } else {
        assert(bin_events_in(fl.1, k) =~= Seq::empty());
    }
    assert(pending_of(v.bins, k) + added =~= bin_events_in(fl.1, k) + (bin_events_in(fin.2, k)
        + pending_of(fin.0, k)));
    assert(r.0.bins == fin.0);
    assert(r.1 == fl.1 + fin.2);
}


/// Each finalized bin yields one final chunk for the bin right after the
/// previous one, ending at its start plus the bin size, closed by `t`, with
/// fewer events than a full chunk; finalizing stops at the first bin `t`
/// does not close.
proof fn lemma_finalize_shape(bins: Map<u32, BinStateView>, cur: u32, size: u32, t: u32, n: usize)
    requires
        size > 0,
        n > 0,
        forall|j: u32| #[trigger] bins.contains_key(j) ==> bins[j].pending.len() < n,
    ensures
        ({
            let f = spec_finalize_from(bins, cur, size, t);
            &&& forall|i: int|
                0 <= i < f.2.len() ==> {
                    &&& (#[trigger] f.2[i]).publish_snapshot
                    &&& f.2[i].completed_bin_end == f.2[i].completed_bin_start + size
                    &&& f.2[i].completed_bin_end + BIN_FINALIZATION_LAG_SECS <= t
                    &&& f.2[i].events.len() < n
                    &&& (f.2[i].empty_bin ==> f.2[i].events.len() == 0)
                }
            &&& forall|i: int, j: int|
                0 <= i && j == i + 1 && j < f.2.len() ==> (#[trigger] f.2[j]).completed_bin_start
                    == (#[trigger] f.2[i]).completed_bin_end
            &&& f.2.len() > 0 ==> f.2[0].completed_bin_start == cur
            &&& f.1 == if f.2.len() > 0 {
                f.2.last().completed_bin_end
            } else {
                cur
            }
            &&& f.1 + size + BIN_FINALIZATION_LAG_SECS > t
            &&& f.1 >= cur
        }),
    decreases t - cur,
{
    let f = spec_finalize_from(bins, cur, size, t);
    if cur + size + BIN_FINALIZATION_LAG_SECS <= t {
        let end = (cur + size) as u32;
        let rest = spec_finalize_from(bins.remove(cur), end, size, t);
        let c = spec_final_chunk(bin_or_fresh(bins, cur), cur, end);
        lemma_finalize_shape(bins.remove(cur), end, size, t, n);
        assert(f.2 == seq![c] + rest.2);
        assert(f.2[0] == c);
        assert forall|i: int| 0 < i < f.2.len() implies f.2[i] == rest.2[i - 1] by {}
        assert forall|i: int, j: int|
            0 <= i && j == i + 1 && j < f.2.len() implies (#[trigger] f.2[j]).completed_bin_start
            == (#[trigger] f.2[i]).completed_bin_end by {
            if i > 0 {
                assert(rest.2[j - 1].completed_bin_start == rest.2[i - 1].completed_bin_end);
            }
        }
        if rest.2.len() > 0 {
            assert(f.2.last() == rest.2.last());
        }
    }
}

/// Bins are finalized in order, each once, and only when closed: a chunk
/// that does not complete its bin can only come first, for the new event's
/// bin, and holds exactly a chunk's worth of events; every other chunk is a
/// final chunk, for the bin right after the one before, starting at the
/// oldest unfinalized bin, ending one bin size after its start and at least
/// the finalization lag before the event; the oldest unfinalized bin then
/// moves to the end of the last final chunk, and is not closed by the event.
pub proof fn law_bins_finalized_in_order(
    v: EventSharingServiceAdapterView,
    payload: InternalEventSharingRequestPayload,
    arrival_stamp: Option<i64>,
)
    requires
        spec_adapter_wf(v),
        v.bin_size_secs > 0,
        v.max_events_per_bin_chunk > 0,
        spec_bin_start(payload.now, v.bin_size_secs) + v.bin_size_secs + BIN_FINALIZATION_LAG_SECS
            <= u32::MAX,
    ensures
        ({
            let t = payload.now;
            let size = v.bin_size_secs;
            let b = spec_bin_start(t, size) as u32;
            let o0: u32 = match v.oldest_unfinalized_bin_start {
                Some(o) => o,
                None => 0,
            };
            let r = spec_on_request(v, payload, arrival_stamp);
            let cs = r.1;
            &&& forall|i: int|
                0 <= i < cs.len() && !(#[trigger] cs[i]).publish_snapshot ==> {
                    &&& i == 0
                    &&& cs[i].completed_bin_start == b
                    &&& cs[i].completed_bin_end == b + size
                    &&& cs[i].events.len() == v.max_events_per_bin_chunk
                    &&& !cs[i].empty_bin
                }
            &&& forall|i: int|
                0 <= i < cs.len() && (#[trigger] cs[i]).publish_snapshot ==> {
                    &&& cs[i].completed_bin_end == cs[i].completed_bin_start + size
                    &&& cs[i].completed_bin_end + BIN_FINALIZATION_LAG_SECS <= t
                    &&& cs[i].events.len() < v.max_events_per_bin_chunk
                    &&& (cs[i].empty_bin ==> cs[i].events.len() == 0)
                }
            &&& forall|i: int, j: int|
                0 <= i && j == i + 1 && j < cs.len() && (#[trigger] cs[i]).publish_snapshot
                    ==> (#[trigger] cs[j]).completed_bin_start == cs[i].completed_bin_end
            &&& (cs.len() > 0 && cs[0].publish_snapshot ==> cs[0].completed_bin_start == o0)
            &&& (cs.len() > 1 && !cs[0].publish_snapshot ==> cs[1].completed_bin_start == o0)
            &&& r.0.oldest_unfinalized_bin_start == Some(
                if cs.len() > 0 && cs.last().publish_snapshot {
                    cs.last().completed_bin_end
                } else {
                    o0
                },
            )
            &&& r.0.oldest_unfinalized_bin_start.unwrap() + size + BIN_FINALIZATION_LAG_SECS > t
            &&& r.0.oldest_unfinalized_bin_start.unwrap() >= o0
        }),
{
    let t = payload.now;
    let size = v.bin_size_secs;
    let ev = stamped(payload, arrival_stamp);
    lemma_time_in_its_bin(t, size);
    let b = spec_bin_start(t, size) as u32;
    let v1 = spec_push_event(v, ev);
    let fl = spec_flush_full_chunk(v1, b);
    let v2 = fl.0;
    let o0: u32 = match v.oldest_unfinalized_bin_start {
        Some(o) => o,
        None => 0,
    };
    assert(v2.oldest_unfinalized_bin_start == Some(o0));
    let fin = spec_finalize_from(v2.bins, o0, size, t);
    let r = spec_on_request(v, payload, arrival_stamp);
    let n = v.max_events_per_bin_chunk;
    assert(v1.bins[b].pending.len() <= n) by {
        if v.bins.contains_key(b) {
        }
    }
    assert forall|j: u32| #[trigger] v2.bins.contains_key(j) implies v2.bins[j].pending.len()
        < n by {
        if j != b {
            assert(v.bins.contains_key(j));
        }
    }
    lemma_finalize_shape(v2.bins, o0, size, t, n);
    let cs = r.1;
    assert(cs == fl.1 + fin.2);
    assert(fl.1.len() <= 1);
    let q = fl.1.len() as int;
    assert forall|i: int| q <= i < cs.len() implies cs[i] == fin.2[i - q] by {}
    if q == 1 {
        assert(!fl.1[0].publish_snapshot);
        assert(cs[0] == fl.1[0]);
    }
    if cs.len() > 0 && fin.2.len() > 0 {
        assert(cs.last() == fin.2.last());
    }
    assert forall|i: int, j: int|
        0 <= i && j == i + 1 && j < cs.len() && (#[trigger] cs[i]).publish_snapshot implies (
        #[trigger] cs[j]).completed_bin_start == cs[i].completed_bin_end by {
        assert(fin.2[j - q].completed_bin_start == fin.2[i - q].completed_bin_end);
    }
    assert(forall|i: int|
        0 <= i < cs.len() && !(#[trigger] cs[i]).publish_snapshot ==> {
            &&& i == 0
            &&& cs[i].completed_bin_start == b
            &&& cs[i].completed_bin_end == b + size
            &&& cs[i].events.len() == v.max_events_per_bin_chunk
            &&& !cs[i].empty_bin
        });
    assert(forall|i: int|
        0 <= i < cs.len() && (#[trigger] cs[i]).publish_snapshot ==> {
            &&& cs[i].completed_bin_end == cs[i].completed_bin_start + size
            &&& cs[i].completed_bin_end + BIN_FINALIZATION_LAG_SECS <= t
            &&& cs[i].events.len() < v.max_events_per_bin_chunk
            &&& (cs[i].empty_bin ==> cs[i].events.len() == 0)
        });
    assert(cs.len() > 0 && cs[0].publish_snapshot ==> cs[0].completed_bin_start == o0);
    assert(cs.len() > 1 && !cs[0].publish_snapshot ==> cs[1].completed_bin_start == o0);
    assert(r.0.oldest_unfinalized_bin_start == Some(
                if cs.len() > 0 && cs.last().publish_snapshot {
                    cs.last().completed_bin_end
                } else {
                    o0
                },
            ));
}


/// The bin of a later time starts no earlier.
pub proof fn law_bin_start_monotonic(t1: u32, t2: u32, bin_size: u32)
    requires
        bin_size > 0,
        t1 <= t2,
    ensures
        spec_bin_start(t1, bin_size) <= spec_bin_start(t2, bin_size),
{
    let s = bin_size as int;
    vstd::arithmetic::div_mod::lemma_div_is_ordered(t1 as int, t2 as int, s);
    vstd::arithmetic::mul::lemma_mul_inequality(t1 as int / s, t2 as int / s, s);
    assert((t1 / bin_size) as int == t1 as int / s);
    assert((t2 / bin_size) as int == t2 as int / s);
}

/// With events in time order, no event falls into a bin already finalized:
/// if the oldest unfinalized bin starts no later than the bin of the event,
/// then afterwards it starts no later than the bin of any later event.
pub proof fn law_sorted_events_never_late(
    v: EventSharingServiceAdapterView,
    payload: InternalEventSharingRequestPayload,
    arrival_stamp: Option<i64>,
    later_time: u32,
)
    requires
        spec_adapter_wf(v),
        v.bin_size_secs > 0,
        v.max_events_per_bin_chunk > 0,
        spec_bin_start(payload.now, v.bin_size_secs) + v.bin_size_secs + BIN_FINALIZATION_LAG_SECS
            <= u32::MAX,
        v.oldest_unfinalized_bin_start matches Some(o) ==> o <= spec_bin_start(
            payload.now,
            v.bin_size_secs,
        ),
        payload.now <= later_time,
    ensures
        spec_on_request(v, payload, arrival_stamp).0.oldest_unfinalized_bin_start.unwrap()
            <= spec_bin_start(later_time, v.bin_size_secs),
{
    let t = payload.now;
    let size = v.bin_size_secs;
    let ev = stamped(payload, arrival_stamp);
    lemma_time_in_its_bin(t, size);
    let b = spec_bin_start(t, size) as u32;
    let v1 = spec_push_event(v, ev);
    let fl = spec_flush_full_chunk(v1, b);
    let v2 = fl.0;
    let o0: u32 = match v.oldest_unfinalized_bin_start {
        Some(o) => o,
        None => 0,
    };
    assert((0int) % (size as int) == 0);
    assert(v2.oldest_unfinalized_bin_start == Some(o0));
    let fin = spec_finalize_from(v2.bins, o0, size, t);
    let n = v.max_events_per_bin_chunk;
    assert forall|j: u32| #[trigger] v2.bins.contains_key(j) implies v2.bins[j].pending.len()
        < n by {
        if j != b {
            assert(v.bins.contains_key(j));
        }
    }
    lemma_finalize_facts(v2.bins, o0, size, t);
    lemma_finalize_shape(v2.bins, o0, size, t, n);
    if fin.2.len() > 0 {
        lemma_multiple_below(fin.1, t, size);
    }
    law_bin_start_monotonic(t, later_time, size);
}


/// The numbers of the chunks of bin `k` in a sequence of chunks, in order.
pub open spec fn bin_chunk_seqs(chunks: Seq<ChunkView>, k: u32) -> Seq<nat>
    decreases chunks.len(),
{
    if chunks.len() == 0 {
        Seq::empty()
    } else {
        let c = chunks[0];
        (if c.completed_bin_start == k {
            seq![c.chunk_seq]
        } else {
            Seq::empty()
        }) + bin_chunk_seqs(chunks.drop_first(), k)
    }
}

/// The numbers go up by one from `start + 1`.
pub open spec fn counts_up_from(s: Seq<nat>, start: nat) -> bool {
    forall|i: int| 0 <= i < s.len() ==> #[trigger] s[i] == start + i + 1
}

/// How many chunks bin `k` has sent, 0 if it holds no state.
pub open spec fn sent_of(bins: Map<u32, BinStateView>, k: u32) -> nat {
    bin_or_fresh(bins, k).sent_chunk_count
}

proof fn lemma_bin_chunk_seqs_cons(c: ChunkView, rest: Seq<ChunkView>, k: u32)
    ensures
        bin_chunk_seqs(seq![c] + rest, k) == (if c.completed_bin_start == k {
            seq![c.chunk_seq]
        } else {
            Seq::empty()
        }) + bin_chunk_seqs(rest, k),
{
    assert((seq![c] + rest)[0] == c);
    assert((seq![c] + rest).drop_first() =~= rest);
}

proof fn lemma_bin_chunk_seqs_append(a: Seq<ChunkView>, b: Seq<ChunkView>, k: u32)
    ensures
        bin_chunk_seqs(a + b, k) == bin_chunk_seqs(a, k) + bin_chunk_seqs(b, k),
    decreases a.len(),
{
    if a.len() == 0 {
        assert(a + b =~= b);
        assert(Seq::<nat>::empty() + bin_chunk_seqs(b, k) =~= bin_chunk_seqs(b, k));
    } else {
        assert((a + b)[0] == a[0]);
        assert((a + b).drop_first() =~= a.drop_first() + b);
        lemma_bin_chunk_seqs_append(a.drop_first(), b, k);
        let h: Seq<nat> = if a[0].completed_bin_start == k {
            seq![a[0].chunk_seq]
        } else {
            Seq::empty()
        };
        assert(h + (bin_chunk_seqs(a.drop_first(), k) + bin_chunk_seqs(b, k)) =~= (h
            + bin_chunk_seqs(a.drop_first(), k)) + bin_chunk_seqs(b, k));
    }
}

/// No chunk of bin `k` is among chunks that all start elsewhere.
proof fn lemma_no_chunks_of(chunks: Seq<ChunkView>, k: u32)
    requires
        forall|i: int| 0 <= i < chunks.len() ==> (#[trigger] chunks[i]).completed_bin_start != k,
    ensures
        bin_chunk_seqs(chunks, k) =~= Seq::<nat>::empty(),
    decreases chunks.len(),
{
    if chunks.len() > 0 {
        assert forall|i: int| 0 <= i < chunks.drop_first().len() implies (
        #[trigger] chunks.drop_first()[i]).completed_bin_start != k by {
            assert(chunks.drop_first()[i] == chunks[i + 1]);
        }
        lemma_no_chunks_of(chunks.drop_first(), k);
    }
}

/// Finalizing gives each finalized bin one chunk, numbered one past the
/// chunks it sent before, and leaves the count of every other bin alone.
proof fn lemma_finalize_numbering(bins: Map<u32, BinStateView>, cur: u32, size: u32, t: u32, k: u32)
    ensures
        ({
            let f = spec_finalize_from(bins, cur, size, t);
            &&& counts_up_from(bin_chunk_seqs(f.2, k), sent_of(bins, k))
            &&& f.0.contains_key(k) ==> f.0[k].sent_chunk_count == sent_of(bins, k)
                + bin_chunk_seqs(f.2, k).len()
            &&& forall|i: int| 0 <= i < f.2.len() ==> (#[trigger] f.2[i]).completed_bin_start >= cur
        }),
    decreases t - cur,
{
    let f = spec_finalize_from(bins, cur, size, t);
    if size > 0 && cur + size + BIN_FINALIZATION_LAG_SECS <= t {
        let end = (cur + size) as u32;
        let rest = spec_finalize_from(bins.remove(cur), end, size, t);
        let c = spec_final_chunk(bin_or_fresh(bins, cur), cur, end);
        lemma_finalize_numbering(bins.remove(cur), end, size, t, k);
        lemma_bin_chunk_seqs_cons(c, rest.2, k);
        assert(f.2 == seq![c] + rest.2);
        assert forall|i: int| 0 <= i < f.2.len() implies (#[trigger] f.2[i]).completed_bin_start
            >= cur by {
            if i > 0 {
                assert(f.2[i] == rest.2[i - 1]);
            }
        }
        if k == cur {
            assert forall|i: int| 0 <= i < rest.2.len() implies (
            #[trigger] rest.2[i]).completed_bin_start != k by {}
            lemma_no_chunks_of(rest.2, k);
            assert(bin_chunk_seqs(f.2, k) =~= seq![c.chunk_seq]);
            lemma_finalize_facts_keys(bins.remove(cur), end, size, t, k);
        } else {
            assert(sent_of(bins.remove(cur), k) == sent_of(bins, k));
            assert(bin_chunk_seqs(f.2, k) =~= bin_chunk_seqs(rest.2, k));
        }
    }
}

/// The bins left after finalizing were there before.
proof fn lemma_finalize_facts_keys(bins: Map<u32, BinStateView>, cur: u32, size: u32, t: u32, k: u32)
    requires
        !bins.contains_key(k),
    ensures
        !spec_finalize_from(bins, cur, size, t).0.contains_key(k),
    decreases t - cur,
{
    if size > 0 && cur + size + BIN_FINALIZATION_LAG_SECS <= t {
        lemma_finalize_facts_keys(bins.remove(cur), (cur + size) as u32, size, t, k);
    }
}

/// Chunk numbers count up by one within each bin: the chunks of a bin sent
/// for one request are numbered on from the chunks it sent before, and a bin
/// that stays counts them.
pub proof fn law_chunk_numbers_count_up(
    v: EventSharingServiceAdapterView,
    payload: InternalEventSharingRequestPayload,
    arrival_stamp: Option<i64>,
    k: u32,
)
    requires
        spec_adapter_wf(v),
        v.bin_size_secs > 0,
        v.max_events_per_bin_chunk > 0,
        spec_bin_start(payload.now, v.bin_size_secs) + v.bin_size_secs + BIN_FINALIZATION_LAG_SECS
            <= u32::MAX,
    ensures
        ({
            let r = spec_on_request(v, payload, arrival_stamp);
            &&& counts_up_from(bin_chunk_seqs(r.1, k), sent_of(v.bins, k))
            &&& r.0.bins.contains_key(k) ==> r.0.bins[k].sent_chunk_count == sent_of(v.bins, k)
                + bin_chunk_seqs(r.1, k).len()
        }),
{
    let t = payload.now;
    let size = v.bin_size_secs;
    let ev = stamped(payload, arrival_stamp);
    lemma_time_in_its_bin(t, size);
    let b = spec_bin_start(t, size) as u32;
    let v1 = spec_push_event(v, ev);
    let fl = spec_flush_full_chunk(v1, b);
    let v2 = fl.0;
    let o0 = v2.oldest_unfinalized_bin_start.unwrap();
    let fin = spec_finalize_from(v2.bins, o0, size, t);
    let r = spec_on_request(v, payload, arrival_stamp);
    let n = v.max_events_per_bin_chunk;
    assert forall|j: u32| #[trigger] v2.bins.contains_key(j) implies v2.bins[j].pending.len()
        < n by {
        if j != b {
            assert(v.bins.contains_key(j));
        }
    }
    lemma_finalize_numbering(v2.bins, o0, size, t, k);
    lemma_finalize_shape(v2.bins, o0, size, t, n);
    lemma_bin_chunk_seqs_append(fl.1, fin.2, k);
    assert(r.1 == fl.1 + fin.2);
    assert(sent_of(v1.bins, k) == sent_of(v.bins, k));
    if v1.bins[b].pending.len() >= n {
        let c = fl.1[0];
        assert(fl.1 =~= seq![c] + Seq::empty());
        lemma_bin_chunk_seqs_cons(c, Seq::empty(), k);
        assert(bin_chunk_seqs(Seq::<ChunkView>::empty(), k) =~= Seq::empty());
        if k == b {
            assert(bin_chunk_seqs(fl.1, k) =~= seq![c.chunk_seq]);
            assert forall|i: int| 0 <= i < fin.2.len() implies (
            #[trigger] fin.2[i]).completed_bin_start != k by {
                assert(fin.2[i].completed_bin_end + BIN_FINALIZATION_LAG_SECS <= t);
            }
            lemma_no_chunks_of(fin.2, k);
            assert(bin_chunk_seqs(r.1, k) =~= seq![c.chunk_seq]);
        } else {
            assert(bin_chunk_seqs(fl.1, k) =~= Seq::empty());
            assert(bin_chunk_seqs(r.1, k) =~= bin_chunk_seqs(fin.2, k));
            assert(sent_of(v2.bins, k) == sent_of(v.bins, k));
        }
    } else {
        assert(bin_chunk_seqs(fl.1, k) =~= Seq::empty());
        assert(bin_chunk_seqs(r.1, k) =~= bin_chunk_seqs(fin.2, k));
        assert(sent_of(v2.bins, k) == sent_of(v.bins, k));
    }
}


/// One request of a run: the event and the arrival stamp it gets.
pub type RunRequest = (InternalEventSharingRequestPayload, Option<i64>);

/// A run of requests from state `v`, one after the other: the final state
/// and every chunk sent, in the order sent.
pub open spec fn spec_run(v: EventSharingServiceAdapterView, reqs: Seq<RunRequest>) -> (
    EventSharingServiceAdapterView,
    Seq<ChunkView>,
)
    decreases reqs.len(),
{
    if reqs.len() == 0 {
        (v, Seq::empty())
    } else {
        let p = spec_run(v, reqs.drop_last());
        let r = spec_on_request(p.0, reqs.last().0, reqs.last().1);
        (r.0, p.1 + r.1)
    }
}

/// Every request of the run may be made: the state is well formed, the bin
/// and chunk sizes are above 0, every event's bin ends with room for the
/// finalization lag in `u32`, and the event count stays within `usize`.
pub open spec fn run_admissible(v: EventSharingServiceAdapterView, reqs: Seq<RunRequest>) -> bool {
    &&& spec_adapter_wf(v)
    &&& v.bin_size_secs > 0
    &&& v.max_events_per_bin_chunk > 0
    &&& v.received_events_count + reqs.len() + 1 <= usize::MAX
    &&& forall|i: int|
        0 <= i < reqs.len() ==> spec_bin_start((#[trigger] reqs[i]).0.now, v.bin_size_secs)
            + v.bin_size_secs + BIN_FINALIZATION_LAG_SECS <= u32::MAX
}

/// The events of the run that fall into bin `k`, as stored (stamped), in
/// the order of the requests.
pub open spec fn run_events_of_bin(reqs: Seq<RunRequest>, k: u32, bin_size: u32) -> Seq<
    InternalEventSharingRequestPayload,
>
    decreases reqs.len(),
{
    if reqs.len() == 0 {
        Seq::empty()
    } else {
        let ev = stamped(reqs.last().0, reqs.last().1);
        run_events_of_bin(reqs.drop_last(), k, bin_size) + if spec_bin_start(ev.now, bin_size)
            == k {
            seq![ev]
        } else {
            Seq::empty()
        }
    }
}

/// One request keeps the adapter well formed, its sizes, and counts the
/// event.
proof fn lemma_request_keeps_wf(
    v: EventSharingServiceAdapterView,
    payload: InternalEventSharingRequestPayload,
    arrival_stamp: Option<i64>,
)
    requires
        spec_adapter_wf(v),
        v.bin_size_secs > 0,
        v.max_events_per_bin_chunk > 0,
        spec_bin_start(payload.now, v.bin_size_secs) + v.bin_size_secs + BIN_FINALIZATION_LAG_SECS
            <= u32::MAX,
        v.received_events_count + 2 <= usize::MAX,
    ensures
        ({
            let r = spec_on_request(v, payload, arrival_stamp).0;
            &&& spec_adapter_wf(r)
            &&& r.bin_size_secs == v.bin_size_secs
            &&& r.max_events_per_bin_chunk == v.max_events_per_bin_chunk
            &&& r.received_events_count == v.received_events_count + 1
            &&& r.oldest_unfinalized_bin_start is Some
        }),
{
    let ev = stamped(payload, arrival_stamp);
    let t = ev.now;
    let size = v.bin_size_secs;
    let b = spec_bin_start(t, size) as u32;
    lemma_push_flush_wf(v, ev);
    let v1 = spec_push_event(v, ev);
    let v2 = spec_flush_full_chunk(v1, b).0;
    let o = v2.oldest_unfinalized_bin_start.unwrap();
    lemma_finalize_facts(v2.bins, o, size, t);
    let fin = spec_finalize_from(v2.bins, o, size, t);
    let r = spec_on_request(v, payload, arrival_stamp).0;
    assert(r.bins == fin.0);
    assert forall|k: u32| #[trigger] r.bins.contains_key(k) implies {
        &&& r.bins[k].pending.len() < r.max_events_per_bin_chunk
        &&& r.bins[k].saw_any_event
        &&& r.bins[k].sent_chunk_count + r.bins[k].pending.len() <= r.received_events_count
    } by {
        assert(v2.bins.contains_key(k));
    }
}

/// A run keeps the adapter well formed and its sizes, and counts its events.
proof fn lemma_run_keeps_wf(v: EventSharingServiceAdapterView, reqs: Seq<RunRequest>)
    requires
        run_admissible(v, reqs),
    ensures
        ({
            let r = spec_run(v, reqs).0;
            &&& spec_adapter_wf(r)
            &&& r.bin_size_secs == v.bin_size_secs
            &&& r.max_events_per_bin_chunk == v.max_events_per_bin_chunk
            &&& r.received_events_count == v.received_events_count + reqs.len()
            &&& reqs.len() > 0 ==> r.oldest_unfinalized_bin_start is Some
        }),
    decreases reqs.len(),
{
    if reqs.len() > 0 {
        let pre = reqs.drop_last();
        assert forall|i: int| 0 <= i < pre.len() implies spec_bin_start(
            (#[trigger] pre[i]).0.now,
            v.bin_size_secs,
        ) + v.bin_size_secs + BIN_FINALIZATION_LAG_SECS <= u32::MAX by {
            assert(pre[i] == reqs[i]);
        }
        lemma_run_keeps_wf(v, pre);
        let p = spec_run(v, pre);
        assert(reqs.last() == reqs[reqs.len() - 1]);
        lemma_request_keeps_wf(p.0, reqs.last().0, reqs.last().1);
    }
}

/// No event of a run is lost, duplicated or reordered: for every bin, the
/// events it held before the run, followed by the run's events of that bin
/// in request order, are exactly the events of that bin in all the chunks
/// sent, in order, followed by the events it still holds.
pub proof fn law_run_events_conserved(v: EventSharingServiceAdapterView, reqs: Seq<RunRequest>, k: u32)
    requires
        run_admissible(v, reqs),
    ensures
        ({
            let r = spec_run(v, reqs);
            pending_of(v.bins, k) + run_events_of_bin(reqs, k, v.bin_size_secs) == bin_events_in(
                r.1,
                k,
            ) + pending_of(r.0.bins, k)
        }),
    decreases reqs.len(),
{
    let size = v.bin_size_secs;
    if reqs.len() == 0 {
        assert(pending_of(v.bins, k) + Seq::<InternalEventSharingRequestPayload>::empty()
            =~= pending_of(v.bins, k));
        assert(bin_events_in(Seq::<ChunkView>::empty(), k) =~= Seq::empty());
        assert(Seq::<InternalEventSharingRequestPayload>::empty() + pending_of(v.bins, k)
            =~= pending_of(v.bins, k));
    } else {
        let pre = reqs.drop_last();
        assert forall|i: int| 0 <= i < pre.len() implies spec_bin_start(
            (#[trigger] pre[i]).0.now,
            v.bin_size_secs,
        ) + v.bin_size_secs + BIN_FINALIZATION_LAG_SECS <= u32::MAX by {
            assert(pre[i] == reqs[i]);
        }
        law_run_events_conserved(v, pre, k);
        lemma_run_keeps_wf(v, pre);
        let p = spec_run(v, pre);
        let (payload, stamp) = reqs.last();
        law_events_conserved_in_order(p.0, payload, stamp, k);
        let r = spec_on_request(p.0, payload, stamp);
        lemma_bin_events_in_append(p.1, r.1, k);
        let ev = stamped(payload, stamp);
        let added: Seq<InternalEventSharingRequestPayload> = if spec_bin_start(ev.now, size) == k {
            seq![ev]
        } else {
            Seq::empty()
        };
        assert(run_events_of_bin(reqs, k, size) == run_events_of_bin(pre, k, size) + added);
        assert((spec_bin_start(ev.now, size) as u32 == k) == (spec_bin_start(ev.now, size) == k))
            by {
            lemma_time_in_its_bin(ev.now, size);
        }
        assert(pending_of(v.bins, k) + (run_events_of_bin(pre, k, size) + added) =~= (
        pending_of(v.bins, k) + run_events_of_bin(pre, k, size)) + added);
        assert(bin_events_in(p.1, k) + (bin_events_in(r.1, k) + pending_of(r.0.bins, k)) =~= (
        bin_events_in(p.1, k) + bin_events_in(r.1, k)) + pending_of(r.0.bins, k));
        assert((bin_events_in(p.1, k) + pending_of(p.0.bins, k)) + added =~= bin_events_in(p.1, k)
            + (pending_of(p.0.bins, k) + added));
    }
}


/// Finalizing sends its final chunks for bins from `cur` on, in increasing
/// order, each ending no later than the new oldest unfinalized bin, which is
/// not before `cur`.
proof fn lemma_finalize_order(bins: Map<u32, BinStateView>, cur: u32, size: u32, t: u32)
    ensures
        ({
            let f = spec_finalize_from(bins, cur, size, t);
            &&& f.1 >= cur
            &&& forall|i: int|
                0 <= i < f.2.len() ==> cur <= (#[trigger] f.2[i]).completed_bin_start
                    && f.2[i].completed_bin_end <= f.1
            &&& forall|i: int, j: int|
                0 <= i < j < f.2.len() ==> (#[trigger] f.2[i]).completed_bin_start < (
                #[trigger] f.2[j]).completed_bin_start
        }),
    decreases t - cur,
{
    let f = spec_finalize_from(bins, cur, size, t);
    if size > 0 && cur + size + BIN_FINALIZATION_LAG_SECS <= t {
        let end = (cur + size) as u32;
        let rest = spec_finalize_from(bins.remove(cur), end, size, t);
        let c = spec_final_chunk(bin_or_fresh(bins, cur), cur, end);
        lemma_finalize_order(bins.remove(cur), end, size, t);
        assert(f.2 == seq![c] + rest.2);
        assert forall|i: int| 0 <= i < f.2.len() implies cur <= (
        #[trigger] f.2[i]).completed_bin_start && f.2[i].completed_bin_end <= f.1 by {
            if i > 0 {
                assert(f.2[i] == rest.2[i - 1]);
            }
        }
        assert forall|i: int, j: int| 0 <= i < j < f.2.len() implies (
        #[trigger] f.2[i]).completed_bin_start < (#[trigger] f.2[j]).completed_bin_start by {
            assert(f.2[j] == rest.2[j - 1]);
            if i > 0 {
                assert(f.2[i] == rest.2[i - 1]);
            }
        }
    }
}

/// A bin at or after the new oldest unfinalized bin is not finalized.
proof fn lemma_finalize_keeps_later_bins(
    bins: Map<u32, BinStateView>,
    cur: u32,
    size: u32,
    t: u32,
    k: u32,
)
    requires
        bins.contains_key(k),
        k >= spec_finalize_from(bins, cur, size, t).1,
    ensures
        spec_finalize_from(bins, cur, size, t).0.contains_key(k),
    decreases t - cur,
{
    if size > 0 && cur + size + BIN_FINALIZATION_LAG_SECS <= t {
        let end = (cur + size) as u32;
        lemma_finalize_order(bins.remove(cur), end, size, t);
        lemma_finalize_keeps_later_bins(bins.remove(cur), end, size, t, k);
    }
}

/// What one request does to the order of bins, given that its event does
/// not fall before the oldest unfinalized bin: its final chunks are for
/// bins from that bin on, in increasing order, each ending no later than
/// the new oldest unfinalized bin; and a bin at or after the new oldest one
/// that holds no state held none before and is not the event's bin.
proof fn lemma_request_order(
    v: EventSharingServiceAdapterView,
    payload: InternalEventSharingRequestPayload,
    arrival_stamp: Option<i64>,
)
    requires
        spec_adapter_wf(v),
        v.bin_size_secs > 0,
        v.max_events_per_bin_chunk > 0,
        spec_bin_start(payload.now, v.bin_size_secs) + v.bin_size_secs + BIN_FINALIZATION_LAG_SECS
            <= u32::MAX,
    ensures
        ({
            let size = v.bin_size_secs;
            let b = spec_bin_start(payload.now, size) as u32;
            let o0: u32 = match v.oldest_unfinalized_bin_start {
                Some(o) => o,
                None => 0,
            };
            let r = spec_on_request(v, payload, arrival_stamp);
            let newo = r.0.oldest_unfinalized_bin_start.unwrap();
            &&& forall|i: int|
                0 <= i < r.1.len() && (#[trigger] r.1[i]).publish_snapshot ==> o0
                    <= r.1[i].completed_bin_start && r.1[i].completed_bin_end <= newo
            &&& forall|i: int, j: int|
                0 <= i < j < r.1.len() && (#[trigger] r.1[i]).publish_snapshot ==> r.1[i].completed_bin_start
                    < (#[trigger] r.1[j]).completed_bin_start
            &&& forall|k: u32|
                k >= newo && !(#[trigger] r.0.bins.contains_key(k)) ==> !v.bins.contains_key(k)
                    && k != b
        }),
{
    let t = payload.now;
    let size = v.bin_size_secs;
    let ev = stamped(payload, arrival_stamp);
    lemma_time_in_its_bin(t, size);
    let b = spec_bin_start(t, size) as u32;
    let v1 = spec_push_event(v, ev);
    let fl = spec_flush_full_chunk(v1, b);
    let v2 = fl.0;
    let o0: u32 = match v.oldest_unfinalized_bin_start {
        Some(o) => o,
        None => 0,
    };
    assert(v2.oldest_unfinalized_bin_start == Some(o0));
    let fin = spec_finalize_from(v2.bins, o0, size, t);
    let r = spec_on_request(v, payload, arrival_stamp);
    assert(r.1 == fl.1 + fin.2);
    assert(r.0.bins == fin.0);
    assert(r.0.oldest_unfinalized_bin_start == Some(fin.1));
    lemma_finalize_order(v2.bins, o0, size, t);
    let q = fl.1.len() as int;
    assert(q <= 1);
    assert(q == 1 ==> !fl.1[0].publish_snapshot);
    assert forall|i: int| q <= i < r.1.len() implies r.1[i] == fin.2[i - q] by {}
    assert forall|i: int|
        0 <= i < r.1.len() && (#[trigger] r.1[i]).publish_snapshot implies o0
        <= r.1[i].completed_bin_start && r.1[i].completed_bin_end <= fin.1 by {
        assert(r.1[i] == fin.2[i - q]);
    }
    assert forall|i: int, j: int|
        0 <= i < j < r.1.len() && (#[trigger] r.1[i]).publish_snapshot implies r.1[i].completed_bin_start
        < (#[trigger] r.1[j]).completed_bin_start by {
        assert(r.1[i] == fin.2[i - q]);
        assert(r.1[j] == fin.2[j - q]);
    }
    assert forall|k: u32| k >= fin.1 && !(#[trigger] r.0.bins.contains_key(k)) implies !v.bins.contains_key(k)
        && k != b by {
        if v2.bins.contains_key(k) {
            lemma_finalize_keeps_later_bins(v2.bins, o0, size, t, k);
        }
        assert(v1.bins.contains_key(b));
        if v.bins.contains_key(k) {
            assert(v1.bins.contains_key(k));
        }
    }
}


/// An adapter with no bins, before any event.
pub open spec fn fresh_adapter(bin_size_secs: u32, max_events_per_bin_chunk: usize) -> EventSharingServiceAdapterView {
    EventSharingServiceAdapterView {
        bin_size_secs,
        max_events_per_bin_chunk,
        oldest_unfinalized_bin_start: None,
        bins: Map::empty(),
        received_events_count: 0,
    }
}

/// The events of the run come in time order.
pub open spec fn sorted_by_time(reqs: Seq<RunRequest>) -> bool {
    forall|i: int, j: int| 0 <= i <= j < reqs.len() ==> (#[trigger] reqs[i]).0.now <= (
    #[trigger] reqs[j]).0.now
}

/// The end of the last final chunk among `chunks`, if there is one.
pub open spec fn last_final_end(chunks: Seq<ChunkView>) -> Option<u32>
    decreases chunks.len(),
{
    if chunks.len() == 0 {
        None
    } else if chunks.last().publish_snapshot {
        Some(chunks.last().completed_bin_end)
    } else {
        last_final_end(chunks.drop_last())
    }
}

/// Where finalizing has got to after `chunks`: the end of the last final
/// chunk, 0 before the first.
pub open spec fn finalized_up_to(chunks: Seq<ChunkView>) -> u32 {
    match last_final_end(chunks) {
        Some(e) => e,
        None => 0,
    }
}

proof fn lemma_last_final_end_append(a: Seq<ChunkView>, b: Seq<ChunkView>)
    ensures
        last_final_end(a + b) == match last_final_end(b) {
            Some(e) => Some(e),
            None => last_final_end(a),
        },
    decreases b.len(),
{
    if b.len() == 0 {
        assert(a + b =~= a);
    } else {
        assert((a + b).last() == b.last());
        assert((a + b).drop_last() =~= a + b.drop_last());
        lemma_last_final_end_append(a, b.drop_last());
    }
}

/// Each final chunk starts where finalizing had got to before it, ends one
/// bin later, and ends no later than `o`.
pub open spec fn finals_chained(cs: Seq<ChunkView>, bin_size: u32, o: u32) -> bool {
    forall|i: int|
        0 <= i < cs.len() && (#[trigger] cs[i]).publish_snapshot ==> {
            &&& cs[i].completed_bin_start == finalized_up_to(cs.take(i))
            &&& cs[i].completed_bin_end == cs[i].completed_bin_start + bin_size
            &&& cs[i].completed_bin_end <= o
        }
}

/// Each chunk that does not complete its bin holds exactly a chunk's worth
/// of events of a bin that saw events.
pub open spec fn partial_chunks_full(cs: Seq<ChunkView>, bin_size: u32, n: usize) -> bool {
    forall|i: int|
        0 <= i < cs.len() && !(#[trigger] cs[i]).publish_snapshot ==> {
            &&& cs[i].events.len() == n
            &&& !cs[i].empty_bin
            &&& cs[i].completed_bin_end == cs[i].completed_bin_start + bin_size
        }
}

/// Chunk numbers count up from 1 in every bin, and a bin from `o` on has
/// sent as many chunks as it counts.
pub open spec fn numbers_counted(cs: Seq<ChunkView>, bins: Map<u32, BinStateView>, o: u32) -> bool {
    &&& forall|k: u32| counts_up_from(#[trigger] bin_chunk_seqs(cs, k), 0)
    &&& forall|k: u32| k >= o ==> sent_of(bins, k) == (#[trigger] bin_chunk_seqs(cs, k)).len()
}

/// No chunk of a bin follows its final chunk.
pub open spec fn nothing_after_final(cs: Seq<ChunkView>) -> bool {
    forall|i: int, j: int|
        0 <= i < j < cs.len() && (#[trigger] cs[i]).publish_snapshot ==> (
        #[trigger] cs[j]).completed_bin_start != cs[i].completed_bin_start
}

proof fn lemma_step_finals(
    ps: Seq<ChunkView>,
    rs: Seq<ChunkView>,
    bin_size: u32,
    o0: u32,
    newo: u32,
)
    requires
        finals_chained(ps, bin_size, o0),
        o0 == finalized_up_to(ps),
        newo >= o0,
        forall|i: int| 0 <= i < rs.len() && !(#[trigger] rs[i]).publish_snapshot ==> i == 0,
        forall|i: int|
            0 <= i < rs.len() && (#[trigger] rs[i]).publish_snapshot ==> rs[i].completed_bin_end
                == rs[i].completed_bin_start + bin_size && rs[i].completed_bin_end <= newo,
        forall|i: int, j: int|
            0 <= i && j == i + 1 && j < rs.len() && (#[trigger] rs[i]).publish_snapshot
                ==> (#[trigger] rs[j]).completed_bin_start == rs[i].completed_bin_end,
        rs.len() > 0 && rs[0].publish_snapshot ==> rs[0].completed_bin_start == o0,
        rs.len() > 1 && !rs[0].publish_snapshot ==> rs[1].completed_bin_start == o0,
        newo == if rs.len() > 0 && rs.last().publish_snapshot {
            rs.last().completed_bin_end
        } else {
            o0
        },
    ensures
        finals_chained(ps + rs, bin_size, newo),
        newo == finalized_up_to(ps + rs),
{
    let cs = ps + rs;
    let m = ps.len() as int;
    assert(last_final_end(Seq::<ChunkView>::empty()) == None::<u32>);
    lemma_last_final_end_append(ps, rs);
    if rs.len() > 0 && !rs.last().publish_snapshot {
        assert(rs.last() == rs[rs.len() - 1]);
        assert(rs.drop_last() =~= Seq::<ChunkView>::empty());
    }
    assert forall|i: int|
        0 <= i < cs.len() && (#[trigger] cs[i]).publish_snapshot implies {
            &&& cs[i].completed_bin_start == finalized_up_to(cs.take(i))
            &&& cs[i].completed_bin_end == cs[i].completed_bin_start + bin_size
            &&& cs[i].completed_bin_end <= newo
        } by {
        if i < m {
            assert(cs.take(i) =~= ps.take(i));
            assert(ps[i] == cs[i]);
        } else {
            let j = i - m;
            assert(rs[j] == cs[i]);
            assert(cs.take(i) =~= ps + rs.take(j));
            lemma_last_final_end_append(ps, rs.take(j));
            if j == 0 {
                assert(rs.take(j) =~= Seq::<ChunkView>::empty());
            } else {
                assert(rs.take(j).last() == rs[j - 1]);
                assert(rs.take(j).drop_last() =~= rs.take(j - 1));
                if !rs[j - 1].publish_snapshot {
                    assert(rs.take(j - 1) =~= Seq::<ChunkView>::empty());
                }
            }
        }
    }
}

proof fn lemma_step_partial(ps: Seq<ChunkView>, rs: Seq<ChunkView>, bin_size: u32, n: usize)
    requires
        partial_chunks_full(ps, bin_size, n),
        partial_chunks_full(rs, bin_size, n),
    ensures
        partial_chunks_full(ps + rs, bin_size, n),
{
    let m = ps.len() as int;
    assert forall|i: int|
        0 <= i < (ps + rs).len() && !(#[trigger] (ps + rs)[i]).publish_snapshot implies {
            &&& (ps + rs)[i].events.len() == n
            &&& !(ps + rs)[i].empty_bin
            &&& (ps + rs)[i].completed_bin_end == (ps + rs)[i].completed_bin_start + bin_size
        } by {
        if i < m {
            assert(ps[i] == (ps + rs)[i]);
        } else {
            assert(rs[i - m] == (ps + rs)[i]);
        }
    }
}

proof fn lemma_step_numbers(
    ps: Seq<ChunkView>,
    rs: Seq<ChunkView>,
    pbins: Map<u32, BinStateView>,
    rbins: Map<u32, BinStateView>,
    b: u32,
    o0: u32,
    newo: u32,
)
    requires
        numbers_counted(ps, pbins, o0),
        newo >= o0,
        forall|i: int| 0 <= i < rs.len() ==> (#[trigger] rs[i]).completed_bin_start >= o0,
        forall|i: int|
            0 <= i < rs.len() ==> (#[trigger] rs[i]).completed_bin_start == b || rs[i].completed_bin_end
                <= newo && rs[i].completed_bin_start < rs[i].completed_bin_end,
        forall|k: u32| counts_up_from(#[trigger] bin_chunk_seqs(rs, k), sent_of(pbins, k)),
        forall|k: u32|
            #[trigger] rbins.contains_key(k) ==> rbins[k].sent_chunk_count == sent_of(pbins, k)
                + bin_chunk_seqs(rs, k).len(),
        forall|k: u32|
            k >= newo && !(#[trigger] rbins.contains_key(k)) ==> !pbins.contains_key(k) && k != b,
    ensures
        numbers_counted(ps + rs, rbins, newo),
{
    assert forall|k: u32| counts_up_from(#[trigger] bin_chunk_seqs(ps + rs, k), 0) && (k >= newo
        ==> sent_of(rbins, k) == bin_chunk_seqs(ps + rs, k).len()) by {
        lemma_bin_chunk_seqs_append(ps, rs, k);
        let a = bin_chunk_seqs(ps, k);
        let c = bin_chunk_seqs(rs, k);
        assert(counts_up_from(a, 0));
        assert(counts_up_from(c, sent_of(pbins, k)));
        if k < o0 {
            assert forall|i: int| 0 <= i < rs.len() implies (#[trigger] rs[i]).completed_bin_start
                != k by {}
            lemma_no_chunks_of(rs, k);
        } else {
            assert(sent_of(pbins, k) == a.len());
        }
        assert forall|i: int| 0 <= i < (a + c).len() implies #[trigger] (a + c)[i] == 0 + i + 1 by {
            if i >= a.len() {
                assert((a + c)[i] == c[i - a.len()]);
            }
        }
        if k >= newo && !rbins.contains_key(k) {
            assert(a.len() == 0);
            assert forall|i: int| 0 <= i < rs.len() implies (#[trigger] rs[i]).completed_bin_start
                != k by {}
            lemma_no_chunks_of(rs, k);
        }
    }
}

proof fn lemma_step_after_final(ps: Seq<ChunkView>, rs: Seq<ChunkView>, o0: u32)
    requires
        nothing_after_final(ps),
        forall|i: int|
            0 <= i < ps.len() && (#[trigger] ps[i]).publish_snapshot ==> ps[i].completed_bin_start
                < o0,
        forall|i: int| 0 <= i < rs.len() ==> (#[trigger] rs[i]).completed_bin_start >= o0,
        forall|i: int, j: int|
            0 <= i < j < rs.len() && (#[trigger] rs[i]).publish_snapshot ==> rs[i].completed_bin_start
                < (#[trigger] rs[j]).completed_bin_start,
    ensures
        nothing_after_final(ps + rs),
{
    let cs = ps + rs;
    let m = ps.len() as int;
    assert forall|i: int, j: int|
        0 <= i < j < cs.len() && (#[trigger] cs[i]).publish_snapshot implies (
        #[trigger] cs[j]).completed_bin_start != cs[i].completed_bin_start by {
        if j < m {
            assert(ps[i] == cs[i]);
            assert(ps[j] == cs[j]);
        } else if i < m {
            assert(ps[i] == cs[i]);
            assert(rs[j - m] == cs[j]);
        } else {
            assert(rs[i - m] == cs[i]);
            assert(rs[j - m] == cs[j]);
        }
    }
}

/// The state of a sorted run from a fresh adapter: the oldest unfinalized
/// bin is where finalizing has got to, the final chunks are chained, the
/// other chunks are full, chunk numbers count up, no chunk follows its
/// bin's final chunk, and the oldest unfinalized bin is not after the bin
/// of the last event.
proof fn lemma_sorted_run(bin_size: u32, n: usize, reqs: Seq<RunRequest>)
    requires
        run_admissible(fresh_adapter(bin_size, n), reqs),
        sorted_by_time(reqs),
    ensures
        ({
            let r = spec_run(fresh_adapter(bin_size, n), reqs);
            let o: u32 = match r.0.oldest_unfinalized_bin_start {
                Some(x) => x,
                None => 0,
            };
            &&& o == finalized_up_to(r.1)
            &&& reqs.len() > 0 ==> r.0.oldest_unfinalized_bin_start is Some
            &&& finals_chained(r.1, bin_size, o)
            &&& partial_chunks_full(r.1, bin_size, n)
            &&& numbers_counted(r.1, r.0.bins, o)
            &&& nothing_after_final(r.1)
            &&& reqs.len() > 0 ==> o <= spec_bin_start(reqs.last().0.now, bin_size)
        }),
    decreases reqs.len(),
{
    let v = fresh_adapter(bin_size, n);
    if reqs.len() == 0 {
        let e = Seq::<ChunkView>::empty();
        assert(last_final_end(e) == None::<u32>);
        assert forall|k: u32| counts_up_from(#[trigger] bin_chunk_seqs(e, k), 0) by {
            assert(bin_chunk_seqs(e, k) =~= Seq::empty());
        }
        assert forall|k: u32| k >= 0 implies sent_of(v.bins, k) == (#[trigger] bin_chunk_seqs(
            e,
            k,
        )).len() by {
            assert(bin_chunk_seqs(e, k) =~= Seq::empty());
        }
    } else {
        let pre = reqs.drop_last();
        assert forall|i: int| 0 <= i < pre.len() implies spec_bin_start(
            (#[trigger] pre[i]).0.now,
            bin_size,
        ) + bin_size + BIN_FINALIZATION_LAG_SECS <= u32::MAX by {
            assert(pre[i] == reqs[i]);
        }
        assert forall|i: int, j: int| 0 <= i <= j < pre.len() implies (#[trigger] pre[i]).0.now
            <= (#[trigger] pre[j]).0.now by {
            assert(pre[i] == reqs[i]);
            assert(pre[j] == reqs[j]);
        }
        lemma_sorted_run(bin_size, n, pre);
        lemma_run_keeps_wf(v, pre);
        let p = spec_run(v, pre);
        let ps = p.1;
        let o0: u32 = match p.0.oldest_unfinalized_bin_start {
            Some(x) => x,
            None => 0,
        };
        assert(reqs.last() == reqs[reqs.len() - 1]);
        let (payload, stamp) = reqs.last();
        let t = payload.now;
        lemma_time_in_its_bin(t, bin_size);
        let b = spec_bin_start(t, bin_size) as u32;
        if pre.len() > 0 {
            assert(pre.last() == reqs[reqs.len() - 2]);
            law_bin_start_monotonic(pre.last().0.now, t, bin_size);
        }
        assert(o0 <= b);
        let r = spec_on_request(p.0, payload, stamp);
        let rs = r.1;
        law_bins_finalized_in_order(p.0, payload, stamp);
        lemma_request_order(p.0, payload, stamp);
        law_sorted_events_never_late(p.0, payload, stamp, t);
        assert forall|k: u32| counts_up_from(#[trigger] bin_chunk_seqs(rs, k), sent_of(p.0.bins, k))
            && (r.0.bins.contains_key(k) ==> r.0.bins[k].sent_chunk_count == sent_of(p.0.bins, k)
            + bin_chunk_seqs(rs, k).len()) by {
            law_chunk_numbers_count_up(p.0, payload, stamp, k);
        }
        let newo = r.0.oldest_unfinalized_bin_start.unwrap();
        assert forall|i: int| 0 <= i < rs.len() implies (#[trigger] rs[i]).completed_bin_start
            >= o0 by {
            if !rs[i].publish_snapshot {
                assert(rs[i].completed_bin_start == b);
            }
        }
        assert forall|i: int|
            0 <= i < ps.len() && (#[trigger] ps[i]).publish_snapshot implies ps[i].completed_bin_start
            < o0 by {}
        lemma_step_finals(ps, rs, bin_size, o0, newo);
        lemma_step_partial(ps, rs, bin_size, n);
        lemma_step_numbers(ps, rs, p.0.bins, r.0.bins, b, o0, newo);
        lemma_step_after_final(ps, rs, o0);
        assert(spec_run(v, reqs) == (r.0, ps + rs));
    }
}

/// Over a whole run of events in time order from a fresh adapter, bins are
/// finalized in order, each once: every final chunk starts where the final
/// chunk before it ended (the first at 0) and ends one bin size later, so
/// the final chunks are for the bins 0, s, 2s, ... in this order; every other
/// chunk holds exactly a chunk's worth of events of a bin that saw events;
/// and the oldest unfinalized bin is where finalizing has got to.
pub proof fn law_run_bins_finalized_in_order(bin_size: u32, n: usize, reqs: Seq<RunRequest>)
    requires
        run_admissible(fresh_adapter(bin_size, n), reqs),
        sorted_by_time(reqs),
    ensures
        ({
            let r = spec_run(fresh_adapter(bin_size, n), reqs);
            let cs = r.1;
            &&& forall|i: int|
                0 <= i < cs.len() && (#[trigger] cs[i]).publish_snapshot ==> {
                    &&& cs[i].completed_bin_start == finalized_up_to(cs.take(i))
                    &&& cs[i].completed_bin_end == cs[i].completed_bin_start + bin_size
                }
            &&& forall|i: int|
                0 <= i < cs.len() && !(#[trigger] cs[i]).publish_snapshot ==> {
                    &&& cs[i].events.len() == n
                    &&& !cs[i].empty_bin
                    &&& cs[i].completed_bin_end == cs[i].completed_bin_start + bin_size
                }
            &&& reqs.len() > 0 ==> r.0.oldest_unfinalized_bin_start == Some(finalized_up_to(cs))
        }),
{
    lemma_sorted_run(bin_size, n, reqs);
}

/// Over a whole run of events in time order from a fresh adapter, the
/// chunks of every bin are numbered 1, 2, 3, ... in the order sent, and no
/// chunk of a bin comes after its final chunk.
pub proof fn law_run_chunk_numbers_count_up(bin_size: u32, n: usize, reqs: Seq<RunRequest>, k: u32)
    requires
        run_admissible(fresh_adapter(bin_size, n), reqs),
        sorted_by_time(reqs),
    ensures
        ({
            let cs = spec_run(fresh_adapter(bin_size, n), reqs).1;
            &&& counts_up_from(bin_chunk_seqs(cs, k), 0)
            &&& forall|i: int, j: int|
                0 <= i < j < cs.len() && (#[trigger] cs[i]).publish_snapshot ==> (
                #[trigger] cs[j]).completed_bin_start != cs[i].completed_bin_start
        }),
{
    lemma_sorted_run(bin_size, n, reqs);
}


/// After a request at time `t`, finalizing again for any time up to `t`
/// sends nothing and changes nothing, and the oldest unfinalized bin has
/// not moved back.
pub proof fn law_finalize_settled(
    v: EventSharingServiceAdapterView,
    payload: InternalEventSharingRequestPayload,
    arrival_stamp: Option<i64>,
    t2: u32,
)
    requires
        spec_adapter_wf(v),
        v.bin_size_secs > 0,
        v.max_events_per_bin_chunk > 0,
        spec_bin_start(payload.now, v.bin_size_secs) + v.bin_size_secs + BIN_FINALIZATION_LAG_SECS
            <= u32::MAX,
        t2 <= payload.now,
    ensures
        ({
            let r = spec_on_request(v, payload, arrival_stamp).0;
            let o = r.oldest_unfinalized_bin_start.unwrap();
            &&& r.oldest_unfinalized_bin_start is Some
            &&& spec_finalize_from(r.bins, o, r.bin_size_secs, t2) == (
                r.bins,
                o,
                Seq::<ChunkView>::empty(),
            )
            &&& v.oldest_unfinalized_bin_start matches Some(o0) ==> o0 <= o
        }),
{
    law_bins_finalized_in_order(v, payload, arrival_stamp);
}

} // verus!
