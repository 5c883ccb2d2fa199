//! Time-bin batching of shared events.
//!
//! Events are grouped into bins `[start, start + bin_size)` of simulation
//! time. A bin's events are sent in chunks of at most
//! `max_events_per_bin_chunk` events; a full chunk is sent at once, and the
//! rest of a bin is sent, as its final chunk, once the bin is safely closed:
//! when an event arrives whose time is at least the bin's end plus
//! `BIN_FINALIZATION_LAG_SECS`. Bins are finalized strictly in order, from
//! the oldest bin not yet finalized, and a bin that saw no event is
//! finalized with an empty marker chunk.

use std::collections::BTreeMap;
use vstd::prelude::*;
use vstd::std_specs::iter::IteratorSpec;

use crate::event_sharing::InternalEventSharingRequest;
use crate::event_sharing::InternalEventSharingRequestPayload;
use crate::ids::{is_v7_id, new_batch_id};

verus! {

broadcast use {vstd::std_specs::btree::group_btree_axioms, vstd::laws_cmp::group_laws_cmp};

/// The bin size used when none is configured.
pub const DEFAULT_BIN_SIZE_SECS: u32 = 900;

/// How long after a bin's end an event must come before the bin counts as
/// closed: times are whole seconds and arrive sorted, so once an event at
/// `end + 1` has arrived, no event of the bin `[start, end)` can follow.
pub const BIN_FINALIZATION_LAG_SECS: u32 = 1;

/// The chunk size used when none is configured.
pub const DEFAULT_MAX_EVENTS_PER_BIN_CHUNK: usize = 10000;

/// The start of the bin that holds time `t`.
pub open spec fn spec_bin_start(t: u32, bin_size: u32) -> int {
    (t / bin_size) * bin_size
}

/// The start of the bin that holds time `t`.
pub fn bin_start(t: u32, bin_size: u32) -> (start: u32)
    requires
        bin_size > 0,
    ensures
        start == spec_bin_start(t, bin_size),
{
    assert((t / bin_size) * bin_size <= t) by (nonlinear_arith)
        requires
            bin_size > 0,
    ;
    (t / bin_size) * bin_size
}

/// The end of the bin that starts at `bin_start`.
pub fn bin_end(bin_start: u32, bin_size: u32) -> (end: u32)
    requires
        bin_start + bin_size <= u32::MAX,
    ensures
        end == bin_start + bin_size,
{
    bin_start + bin_size
}

/// Whether an event at `event_time` closes the bin that ends at
/// `current_bin_end`: it does from `current_bin_end + 1` on.
pub fn is_bin_safely_closed(current_bin_end: u32, event_time: u32) -> (closed: bool)
    requires
        current_bin_end + BIN_FINALIZATION_LAG_SECS <= u32::MAX,
    ensures
        closed == (event_time >= current_bin_end + BIN_FINALIZATION_LAG_SECS),
{
    event_time >= current_bin_end + BIN_FINALIZATION_LAG_SECS
}

/// Every time lies in its own bin, and the bins of a size cover time without
/// gaps: the bin of `t` starts at a multiple of the size, at most `t`, and
/// ends after `t`.
pub proof fn lemma_time_in_its_bin(t: u32, bin_size: u32)
    requires
        bin_size > 0,
    ensures
        0 <= spec_bin_start(t, bin_size) <= t < spec_bin_start(t, bin_size) + bin_size,
        spec_bin_start(t, bin_size) % (bin_size as int) == 0,
{
    let q = (t / bin_size) as int;
    let s = bin_size as int;
    assert(q * s <= t < q * s + s) by (nonlinear_arith)
        requires
            s > 0,
            q == t as int / s,
    ;
    assert((q * s) % s == 0) by (nonlinear_arith)
        requires
            s > 0,
            q >= 0,
    ;
}

/// A bin counts as closed only after its end: no event of a bin, in a
/// stream sorted by time, can come after the event that closes it.
pub proof fn lemma_closing_event_after_bin(current_bin_end: u32, event_time: u32)
    requires
        current_bin_end + BIN_FINALIZATION_LAG_SECS <= u32::MAX,
        event_time >= current_bin_end + BIN_FINALIZATION_LAG_SECS,
    ensures
        event_time > current_bin_end,
{
}

/// The state of one bin, as a value.
pub struct BinStateView {
    /// Events of the bin not yet sent, in arrival order.
    pub pending: Seq<InternalEventSharingRequestPayload>,
    /// Whether the bin ever received an event.
    pub saw_any_event: bool,
    /// How many chunks of the bin have been sent.
    pub sent_chunk_count: nat,
}

/// A bin that has seen nothing.
pub open spec fn fresh_bin() -> BinStateView {
    BinStateView { pending: Seq::empty(), saw_any_event: false, sent_chunk_count: 0 }
}

/// The state of one bin.
pub struct BinState {
    pending_events: Vec<InternalEventSharingRequestPayload>,
    saw_any_event: bool,
    sent_chunk_count: usize,
}

impl View for BinState {
    type V = BinStateView;

    closed spec fn view(&self) -> BinStateView {
        BinStateView {
            pending: self.pending_events@,
            saw_any_event: self.saw_any_event,
            sent_chunk_count: self.sent_chunk_count as nat,
        }
    }
}

impl BinState {
    /// A bin that has seen nothing.
    pub fn new() -> (s: Self)
        ensures
            s@ == fresh_bin(),
    {
        BinState { pending_events: Vec::new(), saw_any_event: false, sent_chunk_count: 0 }
    }
}

/// A chunk of a bin's events, ready to be sent.
pub struct OutgoingBinChunk {
    pub events: Vec<InternalEventSharingRequestPayload>,
    pub completed_bin_start: u32,
    pub completed_bin_end: u32,
    /// The bin saw no event at all.
    pub empty_bin: bool,
    /// This is the bin's final chunk: the bin is complete.
    pub publish_snapshot: bool,
    /// The chunk's number within its bin, from 1.
    pub chunk_seq: usize,
    /// The earliest adapter arrival stamp among the chunk's events.
    pub batch_started_at_realtime: Option<i64>,
    /// A fresh identifier of 16 bytes.
    pub batch_id: Vec<u8>,
}

/// A chunk as a value; its random identifier is left out.
pub struct ChunkView {
    pub events: Seq<InternalEventSharingRequestPayload>,
    pub completed_bin_start: u32,
    pub completed_bin_end: u32,
    pub empty_bin: bool,
    pub publish_snapshot: bool,
    pub chunk_seq: nat,
    pub batch_started_at_realtime: Option<i64>,
}

impl View for OutgoingBinChunk {
    type V = ChunkView;

    open spec fn view(&self) -> ChunkView {
        ChunkView {
            events: self.events@,
            completed_bin_start: self.completed_bin_start,
            completed_bin_end: self.completed_bin_end,
            empty_bin: self.empty_bin,
            publish_snapshot: self.publish_snapshot,
            chunk_seq: self.chunk_seq as nat,
            batch_started_at_realtime: self.batch_started_at_realtime,
        }
    }
}

/// The least adapter arrival stamp among the events that carry one.
pub open spec fn min_arrival(events: Seq<InternalEventSharingRequestPayload>) -> Option<i64>
    decreases events.len(),
{
    if events.len() == 0 {
        None
    } else {
        let rest = min_arrival(events.drop_last());
        match (rest, events.last().adapter_arrived_at_realtime) {
            (None, x) => x,
            (Some(a), None) => Some(a),
            (Some(a), Some(b)) => Some(if b < a { b } else { a }),
        }
    }
}

/// The earliest arrival is the least of the arrival stamps: there is none
/// exactly when no event carries a stamp, and otherwise it is the stamp of
/// one of the events and no later than any event's stamp.
pub proof fn law_min_arrival_is_least(events: Seq<InternalEventSharingRequestPayload>)
    ensures
        min_arrival(events) is None <==> forall|i: int|
            0 <= i < events.len() ==> (#[trigger] events[i]).adapter_arrived_at_realtime is None,
        min_arrival(events) matches Some(m) ==> {
            &&& forall|i: int|
                0 <= i < events.len() ==> ((#[trigger] events[i]).adapter_arrived_at_realtime matches Some(
                    a,
                ) ==> m <= a)
            &&& exists|i: int|
                0 <= i < events.len() && (#[trigger] events[i]).adapter_arrived_at_realtime
                    == Some(m)
        },
    decreases events.len(),
{
    if events.len() > 0 {
        let pre = events.drop_last();
        law_min_arrival_is_least(pre);
        let n = events.len() - 1;
        assert(events.last() == events[n]);
        assert forall|i: int| 0 <= i < pre.len() implies pre[i] == events[i] by {}
        match min_arrival(pre) {
            Some(m0) => {
                let j = choose|j: int|
                    0 <= j < pre.len() && (#[trigger] pre[j]).adapter_arrived_at_realtime == Some(m0);
                assert(events[j] == pre[j]);
            },
            None => {},
        }
        if min_arrival(events) is None {
            assert forall|i: int| 0 <= i < events.len() implies (
            #[trigger] events[i]).adapter_arrived_at_realtime is None by {
                if i < n {
                    assert(pre[i] == events[i]);
                }
            }
        }
        if let Some(m) = min_arrival(events) {
            assert forall|i: int| 0 <= i < events.len() implies ((
            #[trigger] events[i]).adapter_arrived_at_realtime matches Some(a) ==> m <= a) by {
                if i < n {
                    assert(pre[i] == events[i]);
                }
            }
        }
    }
}

/// The earliest adapter arrival stamp among the events.
pub fn earliest_arrival(events: &Vec<InternalEventSharingRequestPayload>) -> (m: Option<i64>)
    ensures
        m == min_arrival(events@),
{
    let mut m: Option<i64> = None;
    let mut i: usize = 0;
    while i < events.len()
        invariant
            i <= events.len(),
            m == min_arrival(events@.take(i as int)),
        decreases events.len() - i,
    {
        assert(events@.take(i + 1).drop_last() =~= events@.take(i as int));
        m = match (m, events[i].adapter_arrived_at_realtime) {
            (None, x) => x,
            (Some(a), None) => Some(a),
            (Some(a), Some(b)) => Some(if b < a { b } else { a }),
        };
        i = i + 1;
    }
    assert(events@.take(events.len() as int) =~= events@);
    m
}


/// The views of a sequence of chunks.
pub open spec fn chunk_views(s: Seq<OutgoingBinChunk>) -> Seq<ChunkView> {
    s.map_values(|c: OutgoingBinChunk| c@)
}

/// Every chunk carries a version-7 identifier of 16 bytes.
pub open spec fn ids_are_v7(s: Seq<OutgoingBinChunk>) -> bool {
    forall|i: int| 0 <= i < s.len() ==> is_v7_id((#[trigger] s[i]).batch_id@)
}

/// Appends a chunk to the outgoing queue, stamped with the earliest arrival
/// of its events and a fresh identifier.
pub fn enqueue_chunk(
    outgoing: &mut Vec<OutgoingBinChunk>,
    events: Vec<InternalEventSharingRequestPayload>,
    completed_bin_start: u32,
    completed_bin_end: u32,
    empty_bin: bool,
    publish_snapshot: bool,
    chunk_seq: usize,
)
    ensures
        chunk_views(final(outgoing)@) == chunk_views(old(outgoing)@).push(
            ChunkView {
                events: events@,
                completed_bin_start,
                completed_bin_end,
                empty_bin,
                publish_snapshot,
                chunk_seq: chunk_seq as nat,
                batch_started_at_realtime: min_arrival(events@),
            },
        ),
        ids_are_v7(old(outgoing)@) ==> ids_are_v7(final(outgoing)@),
{
    let batch_started_at_realtime = earliest_arrival(&events);
    let msg = OutgoingBinChunk {
        events,
        completed_bin_start,
        completed_bin_end,
        empty_bin,
        publish_snapshot,
        chunk_seq,
        batch_started_at_realtime,
        batch_id: new_batch_id(),
    };
    outgoing.push(msg);
    assert(chunk_views(outgoing@) =~= chunk_views(old(outgoing)@).push(msg@));
}

/// The state of the batching adapter, as a value.
pub struct EventSharingServiceAdapterView {
    pub bin_size_secs: u32,
    pub max_events_per_bin_chunk: usize,
    /// The start of the oldest bin not yet finalized; none before the first
    /// event.
    pub oldest_unfinalized_bin_start: Option<u32>,
    /// The bins that hold state, by their start.
    pub bins: Map<u32, BinStateView>,
    pub received_events_count: u64,
}

/// The adapter's invariant: a bin never holds a full chunk between requests,
/// every bin with state has seen an event, a bin has sent no more chunks than
/// events arrived, and the oldest unfinalized bin starts at a multiple of the
/// bin size with room for its end in `u32`.
pub open spec fn spec_adapter_wf(v: EventSharingServiceAdapterView) -> bool {
    &&& forall|k: u32| #[trigger]
        v.bins.contains_key(k) ==> {
            &&& v.bins[k].pending.len() < v.max_events_per_bin_chunk
            &&& v.bins[k].saw_any_event
            &&& v.bins[k].sent_chunk_count + v.bins[k].pending.len() <= v.received_events_count
        }
    &&& v.oldest_unfinalized_bin_start matches Some(o) ==> {
        &&& v.bin_size_secs > 0
        &&& (o as int) % (v.bin_size_secs as int) == 0
        &&& o + v.bin_size_secs + BIN_FINALIZATION_LAG_SECS <= u32::MAX
    }
}

/// The state of a bin, or a fresh bin where there is none.
pub open spec fn bin_or_fresh(bins: Map<u32, BinStateView>, k: u32) -> BinStateView {
    if bins.contains_key(k) {
        bins[k]
    } else {
        fresh_bin()
    }
}

/// The event as the adapter stores it: stamped with its arrival time when
/// measuring.
pub open spec fn stamped(
    p: InternalEventSharingRequestPayload,
    arrival_stamp: Option<i64>,
) -> InternalEventSharingRequestPayload {
    match arrival_stamp {
        Some(a) => InternalEventSharingRequestPayload { adapter_arrived_at_realtime: Some(a), ..p },
        None => p,
    }
}

/// Storing an event: it joins the pending events of its bin, the bin has
/// now seen an event, and the first event opens the bin sequence at 0.
pub open spec fn spec_push_event(
    v: EventSharingServiceAdapterView,
    ev: InternalEventSharingRequestPayload,
) -> EventSharingServiceAdapterView {
    let b = spec_bin_start(ev.now, v.bin_size_secs) as u32;
    let st = bin_or_fresh(v.bins, b);
    EventSharingServiceAdapterView {
        oldest_unfinalized_bin_start: if v.oldest_unfinalized_bin_start is None {
            Some(0u32)
        } else {
            v.oldest_unfinalized_bin_start
        },
        bins: v.bins.insert(
            b,
            BinStateView {
                pending: st.pending.push(ev),
                saw_any_event: true,
                sent_chunk_count: st.sent_chunk_count,
            },
        ),
        received_events_count: (v.received_events_count + 1) as u64,
        ..v
    }
}

/// Sending a full chunk of bin `b`: when the bin holds a chunk's worth of
/// events, its first events go out as a chunk that does not complete the bin.
pub open spec fn spec_flush_full_chunk(v: EventSharingServiceAdapterView, b: u32) -> (
    EventSharingServiceAdapterView,
    Seq<ChunkView>,
) {
    let st = v.bins[b];
    let n = v.max_events_per_bin_chunk as int;
    if st.pending.len() >= n {
        let events = st.pending.take(n);
        (
            EventSharingServiceAdapterView {
                bins: v.bins.insert(
                    b,
                    BinStateView {
                        pending: st.pending.skip(n),
                        saw_any_event: st.saw_any_event,
                        sent_chunk_count: st.sent_chunk_count + 1,
                    },
                ),
                ..v
            },
            seq![
                ChunkView {
                    events,
                    completed_bin_start: b,
                    completed_bin_end: (b + v.bin_size_secs) as u32,
                    empty_bin: false,
                    publish_snapshot: false,
                    chunk_seq: st.sent_chunk_count + 1,
                    batch_started_at_realtime: min_arrival(events),
                },
            ],
        )
    } else {
        (v, Seq::empty())
    }
}

/// Sending every full chunk of bin `b`: full chunks go out, oldest events
/// first, while the bin holds a chunk's worth of events.
pub open spec fn spec_flush_full_chunks(v: EventSharingServiceAdapterView, b: u32) -> (
    EventSharingServiceAdapterView,
    Seq<ChunkView>,
)
    decreases v.bins[b].pending.len(),
{
    if v.bins.contains_key(b) && v.max_events_per_bin_chunk > 0 && v.bins[b].pending.len()
        >= v.max_events_per_bin_chunk {
        let f = spec_flush_full_chunk(v, b);
        let rest = spec_flush_full_chunks(f.0, b);
        (rest.0, f.1 + rest.1)
    } else {
        (v, Seq::empty())
    }
}

/// With at most one chunk's worth of events, sending every full chunk sends
/// at most one.
pub proof fn lemma_flush_full_chunks_once(v: EventSharingServiceAdapterView, b: u32)
    requires
        v.bins.contains_key(b),
        v.max_events_per_bin_chunk > 0,
        v.bins[b].pending.len() <= v.max_events_per_bin_chunk,
    ensures
        spec_flush_full_chunks(v, b) == spec_flush_full_chunk(v, b),
{
    let f = spec_flush_full_chunk(v, b);
    if v.bins[b].pending.len() >= v.max_events_per_bin_chunk {
        assert(f.0.bins[b].pending.len() == 0);
        assert(spec_flush_full_chunks(f.0, b) == (f.0, Seq::<ChunkView>::empty()));
        assert(f.1 + Seq::<ChunkView>::empty() =~= f.1);
    }
}

/// The final chunk of a closed bin: its remaining events, or an empty marker
/// for a bin that saw no event.
pub open spec fn spec_final_chunk(st: BinStateView, start: u32, end: u32) -> ChunkView {
    let events = if st.saw_any_event {
        st.pending
    } else {
        Seq::empty()
    };
    ChunkView {
        events,
        completed_bin_start: start,
        completed_bin_end: end,
        empty_bin: !st.saw_any_event,
        publish_snapshot: true,
        chunk_seq: st.sent_chunk_count + 1,
        batch_started_at_realtime: min_arrival(events),
    }
}

/// Finalizing, from the bin that starts at `cur`, every bin that an event at
/// `t` closes, in order: the remaining bins, the new oldest unfinalized bin,
/// and the final chunks sent.
pub open spec fn spec_finalize_from(
    bins: Map<u32, BinStateView>,
    cur: u32,
    bin_size: u32,
    t: u32,
) -> (Map<u32, BinStateView>, u32, Seq<ChunkView>)
    decreases t - cur,
{
    if bin_size > 0 && cur + bin_size + BIN_FINALIZATION_LAG_SECS <= t {
        let end = (cur + bin_size) as u32;
        let rest = spec_finalize_from(bins.remove(cur), end, bin_size, t);
        (rest.0, rest.1, seq![spec_final_chunk(bin_or_fresh(bins, cur), cur, end)] + rest.2)
    } else {
        (bins, cur, Seq::empty())
    }
}

/// One request: the event is stamped and stored in its bin, a full chunk of
/// that bin is sent, then every bin the event closes is finalized. The
/// result is the new state and the chunks sent, in order.
pub open spec fn spec_on_request(
    v: EventSharingServiceAdapterView,
    payload: InternalEventSharingRequestPayload,
    arrival_stamp: Option<i64>,
) -> (EventSharingServiceAdapterView, Seq<ChunkView>) {
    let ev = stamped(payload, arrival_stamp);
    let b = spec_bin_start(ev.now, v.bin_size_secs) as u32;
    let v1 = spec_push_event(v, ev);
    let fl = spec_flush_full_chunk(v1, b);
    let v2 = fl.0;
    let fin = spec_finalize_from(
        v2.bins,
        v2.oldest_unfinalized_bin_start.unwrap(),
        v2.bin_size_secs,
        ev.now,
    );
    (
        EventSharingServiceAdapterView {
            bins: fin.0,
            oldest_unfinalized_bin_start: Some(fin.1),
            ..v2
        },
        fl.1 + fin.2,
    )
}

/// The views of stored bins.
pub open spec fn bins_view(m: Map<u32, BinState>) -> Map<u32, BinStateView> {
    m.map_values(|s: BinState| s@)
}

proof fn lemma_bins_view_insert(m: Map<u32, BinState>, k: u32, s: BinState)
    ensures
        bins_view(m.insert(k, s)) == bins_view(m).insert(k, s@),
{
    assert(bins_view(m.insert(k, s)) =~= bins_view(m).insert(k, s@));
}

proof fn lemma_bins_view_remove(m: Map<u32, BinState>, k: u32)
    ensures
        bins_view(m.remove(k)) == bins_view(m).remove(k),
{
    assert(bins_view(m.remove(k)) =~= bins_view(m).remove(k));
}

/// A multiple of the bin size that is at most `t` is at most the start of
/// the bin of `t`.
pub(crate) proof fn lemma_multiple_below(x: u32, t: u32, s: u32)
    requires
        s > 0,
        (x as int) % (s as int) == 0,
        x <= t,
    ensures
        x <= spec_bin_start(t, s),
        (x + s) as int % (s as int) == 0,
{
    let xi = x as int;
    let si = s as int;
    let ti = t as int;
    vstd::arithmetic::div_mod::lemma_fundamental_div_mod(xi, si);
    vstd::arithmetic::div_mod::lemma_div_is_ordered(xi, ti, si);
    vstd::arithmetic::mul::lemma_mul_inequality(xi / si, ti / si, si);
    vstd::arithmetic::mul::lemma_mul_is_commutative(si, xi / si);
    vstd::arithmetic::div_mod::lemma_mod_add_multiples_vanish(xi, si);
    assert((t / s) as int == ti / si);
}

/// Facts on finalizing: the new oldest bin is a later multiple of the bin
/// size with room for its end, no bin it leaves is closed by `t`, and the
/// bins that remain are bins that were there.
pub(crate) proof fn lemma_finalize_facts(bins: Map<u32, BinStateView>, cur: u32, bin_size: u32, t: u32)
    requires
        bin_size > 0,
        (cur as int) % (bin_size as int) == 0,
        cur + bin_size + BIN_FINALIZATION_LAG_SECS <= u32::MAX,
        spec_bin_start(t, bin_size) + bin_size + BIN_FINALIZATION_LAG_SECS <= u32::MAX,
    ensures
        ({
            let r = spec_finalize_from(bins, cur, bin_size, t);
            &&& (r.1 as int) % (bin_size as int) == 0
            &&& r.1 + bin_size + BIN_FINALIZATION_LAG_SECS <= u32::MAX
            &&& r.1 + bin_size + BIN_FINALIZATION_LAG_SECS > t
            &&& cur <= r.1
            &&& forall|k: u32| #[trigger]
                r.0.contains_key(k) ==> bins.contains_key(k) && r.0[k] == bins[k]
        }),
    decreases t - cur,
{
    if cur + bin_size + BIN_FINALIZATION_LAG_SECS <= t {
        let end = (cur + bin_size) as u32;
        lemma_multiple_below(cur, t, bin_size);
        lemma_multiple_below(end, t, bin_size);
        lemma_finalize_facts(bins.remove(cur), end, bin_size, t);
    }
}

/// Storing an event and sending a full chunk of its bin keep the invariant,
/// with room for a chunk number in `usize` in every bin, and leave the oldest
/// unfinalized bin ready for finalizing.
pub(crate) proof fn lemma_push_flush_wf(v: EventSharingServiceAdapterView, ev: InternalEventSharingRequestPayload)
    requires
        spec_adapter_wf(v),
        v.bin_size_secs > 0,
        v.max_events_per_bin_chunk > 0,
        spec_bin_start(ev.now, v.bin_size_secs) + v.bin_size_secs + BIN_FINALIZATION_LAG_SECS
            <= u32::MAX,
        v.received_events_count + 2 <= usize::MAX,
    ensures
        ({
            let b = spec_bin_start(ev.now, v.bin_size_secs) as u32;
            let v1 = spec_push_event(v, ev);
            let v2 = spec_flush_full_chunk(v1, b).0;
            &&& v1.bins[b].pending.len() <= v1.max_events_per_bin_chunk
            &&& v1.bins[b].sent_chunk_count + v1.bins[b].pending.len() <= usize::MAX
            &&& spec_adapter_wf(v2)
            &&& v2.oldest_unfinalized_bin_start is Some
            &&& forall|k: u32| #[trigger]
                v2.bins.contains_key(k) ==> v2.bins[k].sent_chunk_count < usize::MAX
        }),
{
    lemma_time_in_its_bin(ev.now, v.bin_size_secs);
    let b = spec_bin_start(ev.now, v.bin_size_secs) as u32;
    let v1 = spec_push_event(v, ev);
    let v2 = spec_flush_full_chunk(v1, b).0;
    assert forall|k: u32| #[trigger] v2.bins.contains_key(k) implies {
        &&& v2.bins[k].pending.len() < v2.max_events_per_bin_chunk
        &&& v2.bins[k].saw_any_event
        &&& v2.bins[k].sent_chunk_count + v2.bins[k].pending.len() <= v2.received_events_count
    } by {
        if k != b {
            assert(v.bins.contains_key(k));
        }
    }
    assert(0int % (v.bin_size_secs as int) == 0);
    assert forall|k: u32| #[trigger] v2.bins.contains_key(k) implies v2.bins[k].sent_chunk_count
        < usize::MAX by {
        assert(v2.bins[k].sent_chunk_count + v2.bins[k].pending.len() <= v2.received_events_count);
    }
}

/// `k` is the latest bin that holds state.
pub open spec fn is_latest_bin(bins: Map<u32, BinStateView>, k: u32) -> bool {
    &&& bins.contains_key(k)
    &&& forall|j: u32| #[trigger] bins.contains_key(j) ==> j <= k
}

/// What the adapter reports when it shuts down.
pub enum ShutdownReport {
    /// No event ever arrived.
    NoOpenBins { received_events_count: u64 },
    /// Bins were opened, but none holds state any more.
    NoBufferedState { oldest: u32, received_events_count: u64 },
    /// Bins from `oldest` on were never finalized.
    UnfinalizedBins {
        oldest: u32,
        oldest_end: u32,
        latest: u32,
        latest_event_count: usize,
        oldest_event_count: usize,
        received_events_count: u64,
    },
}

impl ShutdownReport {
    /// How many events the adapter received in all.
    pub open spec fn received_events_count(&self) -> u64 {
        match self {
            ShutdownReport::NoOpenBins { received_events_count } => *received_events_count,
            ShutdownReport::NoBufferedState { received_events_count, .. } => *received_events_count,
            ShutdownReport::UnfinalizedBins { received_events_count, .. } => *received_events_count,
        }
    }
}

/// The batching adapter of the event-sharing service. It turns the stream
/// of events into chunks per time bin; sending the chunks is up to its
/// owner.
pub struct EventSharingServiceAdapter {
    bin_size_secs: u32,
    max_events_per_bin_chunk: usize,
    oldest_unfinalized_bin_start: Option<u32>,
    bins: BTreeMap<u32, BinState>,
    received_events_count: u64,
}

impl View for EventSharingServiceAdapter {
    type V = EventSharingServiceAdapterView;

    closed spec fn view(&self) -> EventSharingServiceAdapterView {
        EventSharingServiceAdapterView {
            bin_size_secs: self.bin_size_secs,
            max_events_per_bin_chunk: self.max_events_per_bin_chunk,
            oldest_unfinalized_bin_start: self.oldest_unfinalized_bin_start,
            bins: bins_view(self.bins@),
            received_events_count: self.received_events_count,
        }
    }
}

impl EventSharingServiceAdapter {
    /// The adapter's invariant.
    pub open spec fn wf(&self) -> bool {
        spec_adapter_wf(self@)
    }

    /// An adapter with no bins, before any event.
    pub fn new(bin_size_secs: u32, max_events_per_bin_chunk: usize) -> (a: Self)
        ensures
            a@ == (EventSharingServiceAdapterView {
                bin_size_secs,
                max_events_per_bin_chunk,
                oldest_unfinalized_bin_start: None,
                bins: Map::empty(),
                received_events_count: 0,
            }),
            a.wf(),
    {
        let a = EventSharingServiceAdapter {
            bin_size_secs,
            max_events_per_bin_chunk,
            oldest_unfinalized_bin_start: None,
            bins: BTreeMap::new(),
            received_events_count: 0,
        };
        assert(bins_view(a.bins@) =~= Map::empty());
        a
    }

    /// How many events the adapter has received.
    pub fn received_events_count(&self) -> (n: u64)
        ensures
            n == self@.received_events_count,
    {
        self.received_events_count
    }

    /// The bin size in seconds.
    pub fn bin_size_secs(&self) -> (n: u32)
        ensures
            n == self@.bin_size_secs,
    {
        self.bin_size_secs
    }

    /// The largest number of events in one chunk.
    pub fn max_events_per_bin_chunk(&self) -> (n: usize)
        ensures
            n == self@.max_events_per_bin_chunk,
    {
        self.max_events_per_bin_chunk
    }

    /// The start of the oldest bin not yet finalized.
    pub fn oldest_unfinalized_bin_start(&self) -> (o: Option<u32>)
        ensures
            o == self@.oldest_unfinalized_bin_start,
    {
        self.oldest_unfinalized_bin_start
    }

    fn flush_one_chunk(
        &mut self,
        bin_start_value: u32,
        outgoing: &mut Vec<OutgoingBinChunk>,
    )
        requires
            old(self)@.bins.contains_key(bin_start_value),
            old(self)@.max_events_per_bin_chunk > 0,
            bin_start_value + old(self)@.bin_size_secs <= u32::MAX,
            old(self)@.bins[bin_start_value].sent_chunk_count + old(
                self,
            )@.bins[bin_start_value].pending.len() <= usize::MAX,
        ensures
            final(self)@ == spec_flush_full_chunk(old(self)@, bin_start_value).0,
            chunk_views(final(outgoing)@) == chunk_views(old(outgoing)@) + spec_flush_full_chunk(
                old(self)@,
                bin_start_value,
            ).1,
            ids_are_v7(old(outgoing)@) ==> ids_are_v7(final(outgoing)@),
    {
        let ghost v0 = self@;
        let chunk_size = self.max_events_per_bin_chunk;
        let removed = self.bins.remove(&bin_start_value);
        proof {
            lemma_bins_view_remove(old(self).bins@, bin_start_value);
        }
        let mut state = match removed {
            Some(s) => s,
            None => BinState::new(),
        };
        assert(state@ == v0.bins[bin_start_value]);
        if state.pending_events.len() >= chunk_size {
            let mut chunk = state.pending_events.split_off(chunk_size);
            std::mem::swap(&mut chunk, &mut state.pending_events);
            state.sent_chunk_count = state.sent_chunk_count + 1;
            let chunk_seq = state.sent_chunk_count;
            let ghost st = state;
            self.bins.insert(bin_start_value, state);
            proof {
                lemma_bins_view_insert(
                    old(self).bins@.remove(bin_start_value),
                    bin_start_value,
                    st,
                );
                assert(bins_view(self.bins@) =~= spec_flush_full_chunk(
                    v0,
                    bin_start_value,
                ).0.bins);
            }
            let end = bin_end(bin_start_value, self.bin_size_secs);
            enqueue_chunk(outgoing, chunk, bin_start_value, end, false, false, chunk_seq);
        } else {
            let ghost st = state;
            self.bins.insert(bin_start_value, state);
            proof {
                lemma_bins_view_insert(
                    old(self).bins@.remove(bin_start_value),
                    bin_start_value,
                    st,
                );
                assert(bins_view(self.bins@) =~= v0.bins);
            }
            assert(chunk_views(outgoing@) =~= chunk_views(old(outgoing)@) + Seq::empty());
        }
    }

    fn flush_full_chunks_for_bin(
        &mut self,
        bin_start_value: u32,
        outgoing: &mut Vec<OutgoingBinChunk>,
    )
        requires
            old(self)@.bins.contains_key(bin_start_value),
            old(self)@.max_events_per_bin_chunk > 0,
            bin_start_value + old(self)@.bin_size_secs <= u32::MAX,
            old(self)@.bins[bin_start_value].sent_chunk_count + old(
                self,
            )@.bins[bin_start_value].pending.len() <= usize::MAX,
        ensures
            final(self)@ == spec_flush_full_chunks(old(self)@, bin_start_value).0,
            chunk_views(final(outgoing)@) == chunk_views(old(outgoing)@) + spec_flush_full_chunks(
                old(self)@,
                bin_start_value,
            ).1,
            ids_are_v7(old(outgoing)@) ==> ids_are_v7(final(outgoing)@),
    {
        let ghost v0 = self@;
        let ghost out0 = outgoing@;
        let b = bin_start_value;
        loop
            invariant
                self@.bins.contains_key(b),
                self@.max_events_per_bin_chunk == v0.max_events_per_bin_chunk,
                self@.bin_size_secs == v0.bin_size_secs,
                v0.max_events_per_bin_chunk > 0,
                b + v0.bin_size_secs <= u32::MAX,
                self@.bins[b].sent_chunk_count + self@.bins[b].pending.len() <= usize::MAX,
                spec_flush_full_chunks(self@, b).0 == spec_flush_full_chunks(v0, b).0,
                chunk_views(outgoing@) + spec_flush_full_chunks(self@, b).1 == chunk_views(out0)
                    + spec_flush_full_chunks(v0, b).1,
                ids_are_v7(out0) ==> ids_are_v7(outgoing@),
            ensures
                self@ == spec_flush_full_chunks(v0, b).0,
                chunk_views(outgoing@) == chunk_views(out0) + spec_flush_full_chunks(v0, b).1,
                ids_are_v7(out0) ==> ids_are_v7(outgoing@),
            decreases self@.bins[b].pending.len(),
        {
            let full = match self.bins.get(&b) {
                Some(state) => state.pending_events.len() >= self.max_events_per_bin_chunk,
                None => false,
            };
            if !full {
                assert(spec_flush_full_chunks(self@, b) == (self@, Seq::<ChunkView>::empty()));
                assert(chunk_views(outgoing@) + Seq::<ChunkView>::empty() =~= chunk_views(outgoing@));
                break;
            }
            let ghost before = self@;
            let ghost views_before = chunk_views(outgoing@);
            self.flush_one_chunk(b, outgoing);
            proof {
                let f = spec_flush_full_chunk(before, b);
                assert(spec_flush_full_chunks(before, b) == (
                    spec_flush_full_chunks(f.0, b).0,
                    f.1 + spec_flush_full_chunks(f.0, b).1,
                ));
                assert(views_before + (f.1 + spec_flush_full_chunks(f.0, b).1) =~= (views_before
                    + f.1) + spec_flush_full_chunks(f.0, b).1);
            }
        }
    }

    fn finalize_bins_up_to(&mut self, triggering_event_time: u32, outgoing: &mut Vec<OutgoingBinChunk>)
        requires
            old(self)@.bin_size_secs > 0,
            old(self)@.oldest_unfinalized_bin_start matches Some(o) ==> (o as int) % (old(
                self,
            )@.bin_size_secs as int) == 0 && o + old(self)@.bin_size_secs
                + BIN_FINALIZATION_LAG_SECS <= u32::MAX,
            spec_bin_start(triggering_event_time, old(self)@.bin_size_secs) + old(
                self,
            )@.bin_size_secs + BIN_FINALIZATION_LAG_SECS <= u32::MAX,
            forall|k: u32| #[trigger]
                old(self)@.bins.contains_key(k) ==> old(self)@.bins[k].sent_chunk_count
                    < usize::MAX,
        ensures
            old(self)@.oldest_unfinalized_bin_start is None ==> final(self)@ == old(self)@
                && chunk_views(final(outgoing)@) == chunk_views(old(outgoing)@),
            old(self)@.oldest_unfinalized_bin_start is Some ==> ({
                let r = spec_finalize_from(
                    old(self)@.bins,
                    old(self)@.oldest_unfinalized_bin_start.unwrap(),
                    old(self)@.bin_size_secs,
                    triggering_event_time,
                );
                &&& final(self)@ == EventSharingServiceAdapterView {
                    bins: r.0,
                    oldest_unfinalized_bin_start: Some(r.1),
                    ..old(self)@
                }
                &&& chunk_views(final(outgoing)@) == chunk_views(old(outgoing)@) + r.2
            }),
            ids_are_v7(old(outgoing)@) ==> ids_are_v7(final(outgoing)@),
    {
        if self.oldest_unfinalized_bin_start.is_none() {
            return;
        }
        let ghost v0 = self@;
        let ghost out0 = outgoing@;
        let ghost r = spec_finalize_from(
            v0.bins,
            v0.oldest_unfinalized_bin_start.unwrap(),
            v0.bin_size_secs,
            triggering_event_time,
        );
        let size = self.bin_size_secs;
        loop
            invariant
                self@.bin_size_secs == v0.bin_size_secs,
                self@.max_events_per_bin_chunk == v0.max_events_per_bin_chunk,
                self@.received_events_count == v0.received_events_count,
                size == v0.bin_size_secs,
                size > 0,
                self.oldest_unfinalized_bin_start matches Some(o) && (o as int) % (size as int)
                    == 0 && o + size + BIN_FINALIZATION_LAG_SECS <= u32::MAX,
                spec_bin_start(triggering_event_time, size) + size + BIN_FINALIZATION_LAG_SECS
                    <= u32::MAX,
                forall|k: u32| #[trigger]
                    self@.bins.contains_key(k) ==> self@.bins[k].sent_chunk_count < usize::MAX,
                ({
                    let f = spec_finalize_from(
                        self@.bins,
                        self.oldest_unfinalized_bin_start.unwrap(),
                        size,
                        triggering_event_time,
                    );
                    &&& f.0 == r.0
                    &&& f.1 == r.1
                    &&& chunk_views(outgoing@) + f.2 == chunk_views(out0) + r.2
                }),
                ids_are_v7(out0) ==> ids_are_v7(outgoing@),
            ensures
                self@ == (EventSharingServiceAdapterView {
                    bins: r.0,
                    oldest_unfinalized_bin_start: Some(r.1),
                    ..v0
                }),
                chunk_views(outgoing@) == chunk_views(out0) + r.2,
                ids_are_v7(out0) ==> ids_are_v7(outgoing@),
            decreases triggering_event_time - self.oldest_unfinalized_bin_start.unwrap(),
        {
            let current_start = self.oldest_unfinalized_bin_start.unwrap();
            let current_end = bin_end(current_start, size);
            if !is_bin_safely_closed(current_end, triggering_event_time) {
                assert(chunk_views(outgoing@) + Seq::empty() =~= chunk_views(outgoing@));
                break;
            }
            proof {
                lemma_multiple_below(current_start, triggering_event_time, size);
                lemma_multiple_below(current_end, triggering_event_time, size);
            }
            let ghost bins_before = self@.bins;
            let ghost exec_bins_before = self.bins@;
            let ghost views_before = chunk_views(outgoing@);
            let removed = self.bins.remove(&current_start);
            proof {
                lemma_bins_view_remove(exec_bins_before, current_start);
            }
            let state = match removed {
                Some(s) => s,
                None => BinState::new(),
            };
            assert(state@ == bin_or_fresh(bins_before, current_start));
            let chunk_seq = state.sent_chunk_count + 1;
            if state.saw_any_event {
                enqueue_chunk(
                    outgoing,
                    state.pending_events,
                    current_start,
                    current_end,
                    false,
                    true,
                    chunk_seq,
                );
            } else {
                enqueue_chunk(
                    outgoing,
                    Vec::new(),
                    current_start,
                    current_end,
                    true,
                    true,
                    chunk_seq,
                );
            }
            self.oldest_unfinalized_bin_start = Some(current_end);
            proof {
                let c = spec_final_chunk(
                    bin_or_fresh(bins_before, current_start),
                    current_start,
                    current_end,
                );
                assert(chunk_views(outgoing@) == views_before.push(c));
                let f = spec_finalize_from(
                    self@.bins,
                    current_end,
                    size,
                    triggering_event_time,
                );
                assert(views_before + (seq![c] + f.2) =~= views_before.push(c) + f.2);
            }
        }
    }

    /// Handles one event: stamps it with its arrival time where one is given
    /// (when measuring), stores it in its bin, sends a full chunk of that bin,
    /// and finalizes every bin the event closes. Returns the chunks to send,
    /// in order.
    pub fn on_request(
        &mut self,
        internal_req: InternalEventSharingRequest,
        arrival_stamp: Option<i64>,
    ) -> (outgoing: Vec<OutgoingBinChunk>)
        requires
            old(self).wf(),
            old(self)@.bin_size_secs > 0,
            old(self)@.max_events_per_bin_chunk > 0,
            spec_bin_start(internal_req.payload.now, old(self)@.bin_size_secs) + old(
                self,
            )@.bin_size_secs + BIN_FINALIZATION_LAG_SECS <= u32::MAX,
            old(self)@.received_events_count + 2 <= usize::MAX,
        ensures
            final(self).wf(),
            final(self)@ == spec_on_request(old(self)@, internal_req.payload, arrival_stamp).0,
            outgoing@.len() == spec_on_request(old(self)@, internal_req.payload, arrival_stamp).1.len(),
            forall|i: int|
                0 <= i < outgoing@.len() ==> #[trigger] outgoing@[i]@ == spec_on_request(
                    old(self)@,
                    internal_req.payload,
                    arrival_stamp,
                ).1[i],
            ids_are_v7(outgoing@),
    {
        let ghost v0 = self@;
        self.received_events_count = self.received_events_count + 1;
        let mut event = internal_req.payload;
        match arrival_stamp {
            Some(a) => {
                event.adapter_arrived_at_realtime = Some(a);
            },
            None => {},
        }
        assert(event == stamped(internal_req.payload, arrival_stamp));
        let event_time = event.now;
        let size = self.bin_size_secs;
        let b = bin_start(event_time, size);
        proof {
            lemma_time_in_its_bin(event_time, size);
        }
        if self.oldest_unfinalized_bin_start.is_none() {
            self.oldest_unfinalized_bin_start = Some(0);
        }
        let removed = self.bins.remove(&b);
        proof {
            lemma_bins_view_remove(old(self).bins@, b);
        }
        let mut state = match removed {
            Some(s) => s,
            None => BinState::new(),
        };
        assert(state@ == bin_or_fresh(v0.bins, b));
        state.saw_any_event = true;
        state.pending_events.push(event);
        let ghost st = state;
        let ghost bins_removed = self.bins@;
        self.bins.insert(b, state);
        proof {
            lemma_bins_view_insert(bins_removed, b, st);
            assert(bins_view(self.bins@) =~= spec_push_event(v0, event).bins);
            lemma_push_flush_wf(v0, event);
        }
        assert(self@ == spec_push_event(v0, event));
        let mut outgoing: Vec<OutgoingBinChunk> = Vec::new();
        proof {
            lemma_flush_full_chunks_once(self@, b);
        }
        self.flush_full_chunks_for_bin(b, &mut outgoing);
        self.finalize_bins_up_to(event_time, &mut outgoing);
        proof {
            let v2 = spec_flush_full_chunk(spec_push_event(v0, event), b).0;
            lemma_finalize_facts(
                v2.bins,
                v2.oldest_unfinalized_bin_start.unwrap(),
                size,
                event_time,
            );
            assert(chunk_views(outgoing@).len() == outgoing@.len());
            assert forall|i: int| 0 <= i < outgoing@.len() implies #[trigger] outgoing@[i]@
                == chunk_views(outgoing@)[i] by {}
        }
        outgoing
    }

    /// What is left when the adapter shuts down: whether any bin was ever
    /// opened, and if bins remain unfinalized, the oldest and the latest of
    /// them with their buffered event counts.
    pub fn on_shutdown(&self) -> (report: ShutdownReport)
        requires
            self.wf(),
        ensures
            report.received_events_count() == self@.received_events_count,
            (report is NoOpenBins) <==> self@.oldest_unfinalized_bin_start is None,
            (report is NoBufferedState) <==> (self@.oldest_unfinalized_bin_start is Some
                && self@.bins.dom() == Set::<u32>::empty()),
            report matches ShutdownReport::NoBufferedState { oldest, .. } ==> self@.oldest_unfinalized_bin_start == Some(oldest),
            report matches ShutdownReport::UnfinalizedBins {
                oldest,
                oldest_end,
                latest,
                latest_event_count,
                oldest_event_count,
                ..
            } ==> {
                &&& self@.oldest_unfinalized_bin_start == Some(oldest)
                &&& oldest_end == oldest + self@.bin_size_secs
                &&& is_latest_bin(self@.bins, latest)
                &&& latest_event_count == self@.bins[latest].pending.len()
                &&& oldest_event_count == bin_or_fresh(self@.bins, oldest).pending.len()
            },
    {
        let received_events_count = self.received_events_count;
        assert(self@.bins.dom() =~= self.bins@.dom());
        match self.oldest_unfinalized_bin_start {
            None => ShutdownReport::NoOpenBins { received_events_count },
            Some(oldest) => {
                let mut latest: Option<u32> = None;
                let ghost mut seen: Seq<u32> = Seq::empty();
                let keys = self.bins.keys();
                assert(keys.remaining().unref().to_set() == self.bins@.dom());
                for k in it: keys
                    invariant
                        it.seq().unref().to_set() == self.bins@.dom(),
                        seen =~= it.seq().take(it.index()).unref(),
                        seen.len() == it.seq().len() ==> seen.to_set() == self.bins@.dom(),
                        latest is None <==> seen.len() == 0,
                        latest matches Some(l) ==> {
                            &&& seen.contains(l)
                            &&& forall|i: int| 0 <= i < seen.len() ==> seen[i] <= l
                        },
                {
                    let key = *k;
                    let ghost old_seen = seen;
                    proof {
                        seen = seen.push(key);
                        assert(seen[seen.len() - 1] == key);
                        assert forall|i: int| 0 <= i < old_seen.len() implies seen[i]
                            == old_seen[i] by {}
                    }
                    latest = match latest {
                        Some(l) => if key > l { Some(key) } else { Some(l) },
                        None => Some(key),
                    };
                    proof {
                        assert(it.seq().take(it.seq().len() as int) =~= it.seq());
                        if seen.len() == it.seq().len() {
                            assert(seen =~= it.seq().take(seen.len() as int).unref());
                            assert(seen =~= it.seq().unref());
                            assert(seen.to_set() =~= it.seq().unref().to_set());
                            assert(seen.to_set() == self.bins@.dom());
                        }
                        if let Some(l) = latest {
                            if l == key {
                                assert(seen.contains(l));
                            } else {
                                let j = choose|j: int| 0 <= j < old_seen.len() && old_seen[j] == l;
                                assert(seen[j] == l);
                            }
                        }
                    }
                }
                assert(seen.to_set() == self.bins@.dom());
                match latest {
                    None => {
                        proof {
                            assert(seen.len() == 0);
                            assert(seen.to_set() =~= Set::empty());
                        }
                        ShutdownReport::NoBufferedState { oldest, received_events_count }
                    },
                    Some(latest) => {
                        assert(seen.to_set().contains(latest));
                        assert(!(self.bins@.dom() =~= Set::<u32>::empty()));
                        assert forall|j: u32| #[trigger] self@.bins.contains_key(j) implies j
                            <= latest by {
                            assert(seen.to_set().contains(j));
                        }
                        let latest_event_count = match self.bins.get(&latest) {
                            Some(state) => state.pending_events.len(),
                            None => 0,
                        };
                        let oldest_event_count = match self.bins.get(&oldest) {
                            Some(state) => state.pending_events.len(),
                            None => 0,
                        };
                        ShutdownReport::UnfinalizedBins {
                            oldest,
                            oldest_end: bin_end(oldest, self.bin_size_secs),
                            latest,
                            latest_event_count,
                            oldest_event_count,
                            received_events_count,
                        }
                    },
                }
            },
        }
    }
}

} // verus!
