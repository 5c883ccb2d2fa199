//! What the sender of chunks computes for each chunk before it goes out:
//! the delay statistics of its events, the summary row, the wire batch, and
//! the adapter-wide counters.

use vstd::prelude::*;

use crate::event_sharing::bins::OutgoingBinChunk;
use crate::event_sharing::{
    spec_request_from_payload, BatchRequest, InternalEventSharingRequestPayload, Request,
};
use crate::ids::{uuid_hyphenated, uuid_to_string};
use crate::profiling::EventSharingSummaryCsvRow;

verus! {

/// `later - earlier` fits in an `i64`.
pub open spec fn gap_fits(later: i64, earlier: i64) -> bool {
    i64::MIN <= later - earlier <= i64::MAX
}

/// The time from `earlier` to `later`, or 0 if `later` is not after it.
pub open spec fn clamped_gap(later: i64, earlier: i64) -> int {
    if later - earlier > 0 {
        later - earlier
    } else {
        0
    }
}

/// The time from `earlier` to `later`, or 0 if `later` is not after it.
pub fn gap_ns(later: i64, earlier: i64) -> (g: u128)
    requires
        gap_fits(later, earlier),
    ensures
        g == clamped_gap(later, earlier),
        g <= i64::MAX,
{
    let d = later - earlier;
    if d > 0 {
        d as u128
    } else {
        0
    }
}

/// How long the event waited in the adapter before the batch went out.
pub open spec fn residence_gap(e: InternalEventSharingRequestPayload, sent: i64) -> Option<int> {
    match e.adapter_arrived_at_realtime {
        Some(a) => Some(clamped_gap(sent, a)),
        None => None,
    }
}

/// From the event's detection to the batch going out.
pub open spec fn detected_gap(e: InternalEventSharingRequestPayload, sent: i64) -> Option<int> {
    match e.event_detected_at_realtime {
        Some(d) => Some(clamped_gap(sent, d)),
        None => None,
    }
}

/// From the logger starting to send the event to the batch going out.
pub open spec fn logger_send_gap(e: InternalEventSharingRequestPayload, sent: i64) -> Option<
    int,
> {
    match e.logger_send_started_realtime {
        Some(l) => Some(clamped_gap(sent, l)),
        None => None,
    }
}

/// From the logger starting to send the event to its arrival at the adapter.
pub open spec fn logger_to_adapter_gap(e: InternalEventSharingRequestPayload) -> Option<int> {
    match (e.logger_send_started_realtime, e.adapter_arrived_at_realtime) {
        (Some(l), Some(a)) => Some(clamped_gap(a, l)),
        _ => None,
    }
}

/// Every stamp of the event is close enough to the send time (and its
/// arrival to its logger stamp) for the differences to fit in an `i64`.
pub open spec fn stamps_fit(e: InternalEventSharingRequestPayload, sent: i64) -> bool {
    &&& (e.adapter_arrived_at_realtime matches Some(a) ==> gap_fits(sent, a))
    &&& (e.event_detected_at_realtime matches Some(d) ==> gap_fits(sent, d))
    &&& (e.logger_send_started_realtime matches Some(l) ==> gap_fits(sent, l))
    &&& ((e.logger_send_started_realtime, e.adapter_arrived_at_realtime) matches (
        Some(l),
        Some(a),
    ) ==> gap_fits(a, l))
}

/// The sum of the present gaps.
pub open spec fn gap_sum(gs: Seq<Option<int>>) -> int
    decreases gs.len(),
{
    if gs.len() == 0 {
        0
    } else {
        gap_sum(gs.drop_last()) + match gs.last() {
            Some(g) => g,
            None => 0,
        }
    }
}

/// How many gaps are present.
pub open spec fn gap_count(gs: Seq<Option<int>>) -> nat
    decreases gs.len(),
{
    if gs.len() == 0 {
        0
    } else {
        gap_count(gs.drop_last()) + if gs.last() is Some {
            1nat
        } else {
            0nat
        }
    }
}

/// The largest present gap, 0 if none is.
pub open spec fn gap_max(gs: Seq<Option<int>>) -> int
    decreases gs.len(),
{
    if gs.len() == 0 {
        0
    } else {
        let m = gap_max(gs.drop_last());
        match gs.last() {
            Some(g) => if g > m {
                g
            } else {
                m
            },
            None => m,
        }
    }
}

/// The mean of the present gaps, rounded down; 0 if none is.
pub open spec fn gap_avg(gs: Seq<Option<int>>) -> int {
    if gap_count(gs) > 0 {
        gap_sum(gs) / (gap_count(gs) as int)
    } else {
        0
    }
}

/// Mean and largest of one kind of delay over a chunk.
pub struct DelayStats {
    pub avg_ns: u128,
    pub max_ns: u128,
}

/// The statistics `d` gives the mean and largest of the gaps.
pub open spec fn delay_stats_of(d: DelayStats, gs: Seq<Option<int>>) -> bool {
    d.avg_ns == gap_avg(gs) && d.max_ns == gap_max(gs)
}

/// The delays of one chunk's events when the batch goes out at `sent`.
pub struct ChunkTimings {
    pub event_count: usize,
    pub residence: DelayStats,
    pub residence_total_ns: u128,
    pub detected_to_batch_send: DelayStats,
    pub logger_send_to_batch_send: DelayStats,
    pub logger_to_adapter_arrival: DelayStats,
    /// The batch's start stamp, 0 where it has none.
    pub batch_started_at_realtime: i64,
    /// From the earliest arrival in the chunk to the batch going out, 0 where
    /// the chunk has no start stamp above 0.
    pub batch_wait_ns: u128,
}

/// A running total, count and maximum of gaps.
struct GapAccumulator {
    total: u128,
    count: usize,
    max: u128,
}

impl GapAccumulator {
    spec fn holds(&self, gs: Seq<Option<int>>) -> bool {
        &&& self.total == gap_sum(gs)
        &&& self.count == gap_count(gs)
        &&& self.max == gap_max(gs)
        &&& self.total <= self.count * (i64::MAX as int)
    }

    fn add(&mut self, g: Option<u128>, Ghost(gs): Ghost<Seq<Option<int>>>)
        requires
            old(self).holds(gs),
            old(self).count < usize::MAX,
            g matches Some(x) ==> x <= i64::MAX,
        ensures
            final(self).holds(
                gs.push(
                    match g {
                        Some(x) => Some(x as int),
                        None => None,
                    },
                ),
            ),
            final(self).count <= old(self).count + 1,
    {
        let ghost s2 = gs.push(
            match g {
                Some(x) => Some(x as int),
                None => None,
            },
        );
        assert(s2.drop_last() =~= gs);
        match g {
            Some(x) => {
                assert(self.total + x <= (self.count + 1) * (i64::MAX as int)) by (nonlinear_arith)
                    requires
                        self.total <= self.count * (i64::MAX as int),
                        x <= i64::MAX,
                ;
                assert((self.count + 1) * (i64::MAX as int) < u128::MAX) by (nonlinear_arith)
                    requires
                        self.count < usize::MAX,
                        usize::MAX <= u64::MAX,
                ;
                self.total = self.total + x;
                self.count = self.count + 1;
                if x > self.max {
                    self.max = x;
                }
            },
            None => {},
        }
    }

    fn stats(&self, Ghost(gs): Ghost<Seq<Option<int>>>) -> (d: DelayStats)
        requires
            self.holds(gs),
        ensures
            delay_stats_of(d, gs),
    {
        let avg = if self.count > 0 {
            self.total / (self.count as u128)
        } else {
            0
        };
        DelayStats { avg_ns: avg, max_ns: self.max }
    }
}

/// The residence gaps of a chunk's events.
pub open spec fn residence_gaps(events: Seq<InternalEventSharingRequestPayload>, sent: i64) -> Seq<
    Option<int>,
> {
    events.map_values(|e: InternalEventSharingRequestPayload| residence_gap(e, sent))
}

/// The detection-to-send gaps of a chunk's events.
pub open spec fn detected_gaps(events: Seq<InternalEventSharingRequestPayload>, sent: i64) -> Seq<
    Option<int>,
> {
    events.map_values(|e: InternalEventSharingRequestPayload| detected_gap(e, sent))
}

/// The logger-send-to-send gaps of a chunk's events.
pub open spec fn logger_send_gaps(events: Seq<InternalEventSharingRequestPayload>, sent: i64) -> Seq<
    Option<int>,
> {
    events.map_values(|e: InternalEventSharingRequestPayload| logger_send_gap(e, sent))
}

/// The logger-to-adapter gaps of a chunk's events.
pub open spec fn logger_to_adapter_gaps(events: Seq<InternalEventSharingRequestPayload>) -> Seq<
    Option<int>,
> {
    events.map_values(|e: InternalEventSharingRequestPayload| logger_to_adapter_gap(e))
}

/// The batch start stamp, 0 where there is none.
pub open spec fn started_or_zero(started: Option<i64>) -> i64 {
    match started {
        Some(s) => s,
        None => 0,
    }
}

/// The stamps of a chunk allow its statistics at send time `sent`.
pub open spec fn chunk_stamps_fit(chunk: OutgoingBinChunk, sent: i64) -> bool {
    &&& forall|i: int| 0 <= i < chunk.events@.len() ==> stamps_fit(#[trigger] chunk.events@[i], sent)
    &&& (started_or_zero(chunk.batch_started_at_realtime) > 0 ==> gap_fits(
        sent,
        started_or_zero(chunk.batch_started_at_realtime),
    ))
}

/// Whether `later - earlier` fits in an `i64`.
fn gap_fits_exec(later: i64, earlier: i64) -> (ok: bool)
    ensures
        ok == gap_fits(later, earlier),
{
    later.checked_sub(earlier).is_some()
}

/// Whether the stamps of one event allow its delays at send time `sent`.
fn event_stamps_fit(e: &InternalEventSharingRequestPayload, sent: i64) -> (ok: bool)
    ensures
        ok == stamps_fit(*e, sent),
{
    let arrived_ok = match e.adapter_arrived_at_realtime {
        Some(a) => gap_fits_exec(sent, a),
        None => true,
    };
    let detected_ok = match e.event_detected_at_realtime {
        Some(d) => gap_fits_exec(sent, d),
        None => true,
    };
    let logger_ok = match e.logger_send_started_realtime {
        Some(l) => gap_fits_exec(sent, l),
        None => true,
    };
    let logger_to_adapter_ok = match (e.logger_send_started_realtime, e.adapter_arrived_at_realtime) {
        (Some(l), Some(a)) => gap_fits_exec(a, l),
        _ => true,
    };
    arrived_ok && detected_ok && logger_ok && logger_to_adapter_ok
}

/// Whether the stamps of a chunk allow its delay statistics at send time
/// `batch_sent_at_realtime`: every difference the statistics take fits in an
/// `i64`.
pub fn chunk_stamps_allow_timings(chunk: &OutgoingBinChunk, batch_sent_at_realtime: i64) -> (ok:
    bool)
    ensures
        ok == chunk_stamps_fit(*chunk, batch_sent_at_realtime),
{
    let sent = batch_sent_at_realtime;
    let mut i: usize = 0;
    while i < chunk.events.len()
        invariant
            sent == batch_sent_at_realtime,
            i <= chunk.events@.len(),
            forall|j: int| 0 <= j < i ==> stamps_fit(#[trigger] chunk.events@[j], sent),
        decreases chunk.events@.len() - i,
    {
        if !event_stamps_fit(&chunk.events[i], sent) {
            assert(!stamps_fit(chunk.events@[i as int], sent));
            return false;
        }
        i = i + 1;
    }
    match chunk.batch_started_at_realtime {
        Some(s) => if s > 0 {
            gap_fits_exec(sent, s)
        } else {
            true
        },
        None => true,
    }
}

/// The delay statistics of a chunk whose batch goes out at
/// `batch_sent_at_realtime`.
pub fn chunk_timings(chunk: &OutgoingBinChunk, batch_sent_at_realtime: i64) -> (t: ChunkTimings)
    requires
        chunk_stamps_fit(*chunk, batch_sent_at_realtime),
    ensures
        t.event_count == chunk.events@.len(),
        delay_stats_of(t.residence, residence_gaps(chunk.events@, batch_sent_at_realtime)),
        t.residence_total_ns == gap_sum(residence_gaps(chunk.events@, batch_sent_at_realtime)),
        t.residence_total_ns <= t.event_count * (i64::MAX as int),
        t.residence.max_ns <= i64::MAX,
        delay_stats_of(
            t.detected_to_batch_send,
            detected_gaps(chunk.events@, batch_sent_at_realtime),
        ),
        delay_stats_of(
            t.logger_send_to_batch_send,
            logger_send_gaps(chunk.events@, batch_sent_at_realtime),
        ),
        delay_stats_of(t.logger_to_adapter_arrival, logger_to_adapter_gaps(chunk.events@)),
        t.batch_started_at_realtime == started_or_zero(chunk.batch_started_at_realtime),
        t.batch_wait_ns == if t.batch_started_at_realtime > 0 {
            clamped_gap(batch_sent_at_realtime, t.batch_started_at_realtime)
        } else {
            0
        },
        t.batch_wait_ns <= i64::MAX,
{
    let sent = batch_sent_at_realtime;
    let events = &chunk.events;
    let ghost evs = events@;
    let mut residence = GapAccumulator { total: 0, count: 0, max: 0 };
    let mut detected = GapAccumulator { total: 0, count: 0, max: 0 };
    let mut logger_send = GapAccumulator { total: 0, count: 0, max: 0 };
    let mut logger_to_adapter = GapAccumulator { total: 0, count: 0, max: 0 };
    let mut i: usize = 0;
    while i < events.len()
        invariant
            i <= events.len(),
            evs == events@,
            chunk_stamps_fit(*chunk, sent),
            events == &chunk.events,
            residence.holds(residence_gaps(evs, sent).take(i as int)),
            detected.holds(detected_gaps(evs, sent).take(i as int)),
            logger_send.holds(logger_send_gaps(evs, sent).take(i as int)),
            logger_to_adapter.holds(logger_to_adapter_gaps(evs).take(i as int)),
            residence.count <= i,
            detected.count <= i,
            logger_send.count <= i,
            logger_to_adapter.count <= i,
        decreases events.len() - i,
    {
        let ev = &events[i];
        assert(stamps_fit(evs[i as int], sent));
        let r = match ev.adapter_arrived_at_realtime {
            Some(a) => Some(gap_ns(sent, a)),
            None => None,
        };
        let d = match ev.event_detected_at_realtime {
            Some(x) => Some(gap_ns(sent, x)),
            None => None,
        };
        let l = match ev.logger_send_started_realtime {
            Some(x) => Some(gap_ns(sent, x)),
            None => None,
        };
        let la = match (ev.logger_send_started_realtime, ev.adapter_arrived_at_realtime) {
            (Some(x), Some(a)) => Some(gap_ns(a, x)),
            _ => None,
        };
        proof {
            assert(residence_gaps(evs, sent).take(i + 1) =~= residence_gaps(evs, sent).take(
                i as int,
            ).push(residence_gap(evs[i as int], sent)));
            assert(detected_gaps(evs, sent).take(i + 1) =~= detected_gaps(evs, sent).take(
                i as int,
            ).push(detected_gap(evs[i as int], sent)));
            assert(logger_send_gaps(evs, sent).take(i + 1) =~= logger_send_gaps(evs, sent).take(
                i as int,
            ).push(logger_send_gap(evs[i as int], sent)));
            assert(logger_to_adapter_gaps(evs).take(i + 1) =~= logger_to_adapter_gaps(evs).take(
                i as int,
            ).push(logger_to_adapter_gap(evs[i as int])));
        }
        residence.add(r, Ghost(residence_gaps(evs, sent).take(i as int)));
        detected.add(d, Ghost(detected_gaps(evs, sent).take(i as int)));
        logger_send.add(l, Ghost(logger_send_gaps(evs, sent).take(i as int)));
        logger_to_adapter.add(la, Ghost(logger_to_adapter_gaps(evs).take(i as int)));
        i = i + 1;
    }
    proof {
        assert(residence_gaps(evs, sent).take(evs.len() as int) =~= residence_gaps(evs, sent));
        assert(detected_gaps(evs, sent).take(evs.len() as int) =~= detected_gaps(evs, sent));
        assert(logger_send_gaps(evs, sent).take(evs.len() as int) =~= logger_send_gaps(
            evs,
            sent,
        ));
        assert(logger_to_adapter_gaps(evs).take(evs.len() as int) =~= logger_to_adapter_gaps(
            evs,
        ));
        assert(residence.total <= residence.count * (i64::MAX as int));
        assert(residence.count * (i64::MAX as int) <= evs.len() * (i64::MAX as int))
            by (nonlinear_arith)
            requires
                residence.count <= evs.len(),
        ;
        lemma_gap_max_bounded(residence_gaps(evs, sent));
    }
    let batch_started_at_realtime = match chunk.batch_started_at_realtime {
        Some(s) => s,
        None => 0,
    };
    let batch_wait_ns = if batch_started_at_realtime > 0 {
        gap_ns(sent, batch_started_at_realtime)
    } else {
        0
    };
    ChunkTimings {
        event_count: events.len(),
        residence: residence.stats(Ghost(residence_gaps(evs, sent))),
        residence_total_ns: residence.total,
        detected_to_batch_send: detected.stats(Ghost(detected_gaps(evs, sent))),
        logger_send_to_batch_send: logger_send.stats(Ghost(logger_send_gaps(evs, sent))),
        logger_to_adapter_arrival: logger_to_adapter.stats(Ghost(logger_to_adapter_gaps(evs))),
        batch_started_at_realtime,
        batch_wait_ns,
    }
}

/// The summary row of a chunk whose batch goes out at
/// `batch_sent_at_realtime`.
pub fn summary_row(chunk: &OutgoingBinChunk, batch_sent_at_realtime: i64, t: &ChunkTimings) -> (row: EventSharingSummaryCsvRow)
    requires
        chunk.batch_id@.len() == 16,
    ensures
        row.batch_id@ == uuid_hyphenated(chunk.batch_id@),
        row.batch_seq == chunk.chunk_seq,
        row.completed_bin_start == chunk.completed_bin_start,
        row.completed_bin_end == chunk.completed_bin_end,
        row.event_count == t.event_count,
        row.publish_snapshot == chunk.publish_snapshot,
        row.empty_bin == chunk.empty_bin,
        row.batch_started_at_realtime == t.batch_started_at_realtime,
        row.batch_sent_at_realtime == batch_sent_at_realtime,
        row.batch_wait_ns == t.batch_wait_ns,
        row.avg_event_residence_ns == t.residence.avg_ns,
        row.max_event_residence_ns == t.residence.max_ns,
        row.avg_event_detected_to_batch_send_ns == t.detected_to_batch_send.avg_ns,
        row.max_event_detected_to_batch_send_ns == t.detected_to_batch_send.max_ns,
        row.avg_logger_send_to_batch_send_ns == t.logger_send_to_batch_send.avg_ns,
        row.max_logger_send_to_batch_send_ns == t.logger_send_to_batch_send.max_ns,
        row.avg_logger_to_adapter_arrival_ns == t.logger_to_adapter_arrival.avg_ns,
        row.max_logger_to_adapter_arrival_ns == t.logger_to_adapter_arrival.max_ns,
{
    EventSharingSummaryCsvRow {
        batch_id: uuid_to_string(&chunk.batch_id),
        batch_seq: chunk.chunk_seq,
        completed_bin_start: chunk.completed_bin_start,
        completed_bin_end: chunk.completed_bin_end,
        event_count: t.event_count,
        publish_snapshot: chunk.publish_snapshot,
        empty_bin: chunk.empty_bin,
        batch_started_at_realtime: t.batch_started_at_realtime,
        batch_sent_at_realtime,
        batch_wait_ns: t.batch_wait_ns,
        avg_event_residence_ns: t.residence.avg_ns,
        max_event_residence_ns: t.residence.max_ns,
        avg_event_detected_to_batch_send_ns: t.detected_to_batch_send.avg_ns,
        max_event_detected_to_batch_send_ns: t.detected_to_batch_send.max_ns,
        avg_logger_send_to_batch_send_ns: t.logger_send_to_batch_send.avg_ns,
        max_logger_send_to_batch_send_ns: t.logger_send_to_batch_send.max_ns,
        avg_logger_to_adapter_arrival_ns: t.logger_to_adapter_arrival.avg_ns,
        max_logger_to_adapter_arrival_ns: t.logger_to_adapter_arrival.max_ns,
    }
}

/// The wire batch of a chunk that goes out at `batch_sent_at_realtime`: its
/// identifier, its events as wire messages in order, and its bin.
pub fn batch_request(chunk: OutgoingBinChunk, batch_sent_at_realtime: i64) -> (req: BatchRequest)
    ensures
        req.batch_id@ == chunk.batch_id@,
        req.requests@.len() == chunk.events@.len(),
        forall|i: int|
            0 <= i < req.requests@.len() ==> #[trigger] req.requests@[i]
                == spec_request_from_payload(chunk.events@[i]),
        req.publish_snapshot == chunk.publish_snapshot,
        req.completed_bin_start == chunk.completed_bin_start,
        req.completed_bin_end == chunk.completed_bin_end,
        req.empty_bin == chunk.empty_bin,
        req.batch_sent_at_realtime == batch_sent_at_realtime,
{
    let OutgoingBinChunk {
        events,
        completed_bin_start,
        completed_bin_end,
        empty_bin,
        publish_snapshot,
        batch_id,
        ..
    } = chunk;
    let ghost evs = events@;
    let mut requests: Vec<Request> = Vec::new();
    for ev in it: events
        invariant
            it.seq() == evs,
            requests@.len() == it.index(),
            forall|j: int|
                0 <= j < requests@.len() ==> #[trigger] requests@[j]
                    == spec_request_from_payload(evs[j]),
    {
        requests.push(Request::from_payload(ev));
    }
    BatchRequest {
        batch_id,
        requests,
        publish_snapshot,
        completed_bin_start,
        completed_bin_end,
        empty_bin,
        batch_sent_at_realtime,
    }
}

/// The adapter-wide counters of the sender: events in, batches out, and the
/// totals and maxima of event residence and batch wait. Counters wrap around
/// on overflow, as atomic additions do.
pub struct AdapterMetrics {
    pub incoming_event_count: usize,
    pub batch_count: usize,
    pub publish_batch_count: usize,
    pub adapter_event_residence_ns_total: u64,
    pub adapter_event_residence_ns_max: u64,
    pub batch_wait_ns_total: u64,
    pub batch_wait_ns_max: u64,
}

/// The final statistics of the adapter.
pub struct FinalAdapterStats {
    pub incoming_events: usize,
    pub batches: usize,
    pub publish_batches: usize,
    /// Total residence over all incoming events, rounded down.
    pub avg_event_residence_ns: u64,
    pub max_event_residence_ns: u64,
    /// Total batch wait over all batches, rounded down.
    pub avg_batch_wait_ns: u64,
    pub max_batch_wait_ns: u64,
}

/// 2 to the 64.
pub open spec fn two_to_64() -> int {
    0x1_0000_0000_0000_0000int
}

/// The larger of two values.
pub open spec fn max_u64(a: u64, b: u64) -> u64 {
    if b > a {
        b
    } else {
        a
    }
}

impl AdapterMetrics {
    /// All counters at zero.
    pub fn new() -> (m: Self)
        ensures
            m.incoming_event_count == 0,
            m.batch_count == 0,
            m.publish_batch_count == 0,
            m.adapter_event_residence_ns_total == 0,
            m.adapter_event_residence_ns_max == 0,
            m.batch_wait_ns_total == 0,
            m.batch_wait_ns_max == 0,
    {
        AdapterMetrics {
            incoming_event_count: 0,
            batch_count: 0,
            publish_batch_count: 0,
            adapter_event_residence_ns_total: 0,
            adapter_event_residence_ns_max: 0,
            batch_wait_ns_total: 0,
            batch_wait_ns_max: 0,
        }
    }

    /// Raises `target` to `value` if `value` is larger.
    pub fn update_max(target: &mut u64, value: u64)
        ensures
            *final(target) == max_u64(*old(target), value),
    {
        if value > *target {
            *target = value;
        }
    }

    /// Counts one incoming event.
    pub fn record_incoming(&mut self)
        ensures
            final(self).incoming_event_count == vstd::wrapping::usize_specs::wrapping_add(
                old(self).incoming_event_count,
                1,
            ),
            final(self).batch_count == old(self).batch_count,
            final(self).publish_batch_count == old(self).publish_batch_count,
            final(self).adapter_event_residence_ns_total == old(
                self,
            ).adapter_event_residence_ns_total,
            final(self).adapter_event_residence_ns_max == old(self).adapter_event_residence_ns_max,
            final(self).batch_wait_ns_total == old(self).batch_wait_ns_total,
            final(self).batch_wait_ns_max == old(self).batch_wait_ns_max,
    {
        self.incoming_event_count = self.incoming_event_count.wrapping_add(1);
    }

    /// Counts one batch that went out, with the residence of its events and
    /// its wait.
    pub fn record_batch(&mut self, t: &ChunkTimings, publish_snapshot: bool)
        requires
            t.residence_total_ns <= t.event_count * (i64::MAX as int),
            t.residence.max_ns <= i64::MAX,
            t.batch_wait_ns <= i64::MAX,
        ensures
            final(self).incoming_event_count == old(self).incoming_event_count,
            final(self).adapter_event_residence_ns_total == (old(
                self,
            ).adapter_event_residence_ns_total + t.residence_total_ns) % two_to_64(),
            final(self).adapter_event_residence_ns_max == max_u64(
                old(self).adapter_event_residence_ns_max,
                t.residence.max_ns as u64,
            ),
            final(self).batch_wait_ns_total == if t.batch_wait_ns > 0 {
                (old(self).batch_wait_ns_total + t.batch_wait_ns) % two_to_64()
            } else {
                old(self).batch_wait_ns_total as int
            },
            final(self).batch_wait_ns_max == if t.batch_wait_ns > 0 {
                max_u64(old(self).batch_wait_ns_max, t.batch_wait_ns as u64)
            } else {
                old(self).batch_wait_ns_max
            },
            final(self).batch_count == vstd::wrapping::usize_specs::wrapping_add(
                old(self).batch_count,
                1,
            ),
            final(self).publish_batch_count == if publish_snapshot {
                vstd::wrapping::usize_specs::wrapping_add(old(self).publish_batch_count, 1)
            } else {
                old(self).publish_batch_count
            },
    {
        assert(t.event_count * (i64::MAX as int) <= u64::MAX * (i64::MAX as int))
            by (nonlinear_arith)
            requires
                t.event_count <= u64::MAX,
        ;
        let sum: u128 = self.adapter_event_residence_ns_total as u128 + t.residence_total_ns;
        self.adapter_event_residence_ns_total = (sum % 0x1_0000_0000_0000_0000u128) as u64;
        Self::update_max(&mut self.adapter_event_residence_ns_max, t.residence.max_ns as u64);
        if t.batch_wait_ns > 0 {
            let wsum: u128 = self.batch_wait_ns_total as u128 + t.batch_wait_ns;
            self.batch_wait_ns_total = (wsum % 0x1_0000_0000_0000_0000u128) as u64;
            Self::update_max(&mut self.batch_wait_ns_max, t.batch_wait_ns as u64);
        }
        self.batch_count = self.batch_count.wrapping_add(1);
        if publish_snapshot {
            self.publish_batch_count = self.publish_batch_count.wrapping_add(1);
        }
    }

    /// The final statistics: counts, maxima, and means of residence over the
    /// incoming events and of wait over the batches.
    pub fn final_stats(&self) -> (s: FinalAdapterStats)
        ensures
            s.incoming_events == self.incoming_event_count,
            s.batches == self.batch_count,
            s.publish_batches == self.publish_batch_count,
            s.avg_event_residence_ns == if self.incoming_event_count > 0 {
                self.adapter_event_residence_ns_total / (self.incoming_event_count as u64)
            } else {
                0
            },
            s.max_event_residence_ns == self.adapter_event_residence_ns_max,
            s.avg_batch_wait_ns == if self.batch_count > 0 {
                self.batch_wait_ns_total / (self.batch_count as u64)
            } else {
                0
            },
            s.max_batch_wait_ns == self.batch_wait_ns_max,
    {
        let incoming = self.incoming_event_count;
        let batches = self.batch_count;
        FinalAdapterStats {
            incoming_events: incoming,
            batches,
            publish_batches: self.publish_batch_count,
            avg_event_residence_ns: if incoming > 0 {
                self.adapter_event_residence_ns_total / (incoming as u64)
            } else {
                0
            },
            max_event_residence_ns: self.adapter_event_residence_ns_max,
            avg_batch_wait_ns: if batches > 0 {
                self.batch_wait_ns_total / (batches as u64)
            } else {
                0
            },
            max_batch_wait_ns: self.batch_wait_ns_max,
        }
    }
}

/// Every gap is between 0 and the largest `i64`, so is the largest.
pub open spec fn gaps_bounded(gs: Seq<Option<int>>) -> bool {
    forall|i: int| 0 <= i < gs.len() ==> (#[trigger] gs[i] matches Some(g) ==> 0 <= g <= i64::MAX)
}

proof fn lemma_gap_max_bounded(gs: Seq<Option<int>>)
    requires
        gaps_bounded(gs),
    ensures
        0 <= gap_max(gs) <= i64::MAX,
    decreases gs.len(),
{
    if gs.len() > 0 {
        assert(gaps_bounded(gs.drop_last()));
        assert(gs.last() == gs[gs.len() - 1]);
        lemma_gap_max_bounded(gs.drop_last());
    }
}


proof fn lemma_gap_sum_at_most_count_times_max(gs: Seq<Option<int>>)
    requires
        gaps_bounded(gs),
    ensures
        0 <= gap_sum(gs) <= gap_count(gs) * gap_max(gs),
        gap_max(gs) >= 0,
    decreases gs.len(),
{
    if gs.len() > 0 {
        let p = gs.drop_last();
        assert(gaps_bounded(p));
        assert(gs.last() == gs[gs.len() - 1]);
        lemma_gap_sum_at_most_count_times_max(p);
        let m0 = gap_max(p);
        let m = gap_max(gs);
        let c0 = gap_count(p) as int;
        assert(c0 * m0 <= c0 * m) by (nonlinear_arith)
            requires
                c0 >= 0,
                m0 <= m,
        ;
        assert((c0 + 1) * m == c0 * m + m) by (nonlinear_arith);
    }
}

/// The mean of a chunk's delays of one kind never exceeds the largest of
/// them, and neither is negative.
pub proof fn law_mean_delay_at_most_max(gs: Seq<Option<int>>)
    requires
        gaps_bounded(gs),
    ensures
        0 <= gap_avg(gs) <= gap_max(gs),
{
    lemma_gap_sum_at_most_count_times_max(gs);
    if gap_count(gs) > 0 {
        let c = gap_count(gs) as int;
        let m = gap_max(gs);
        let sm = gap_sum(gs);
        assert(sm / c <= m) by (nonlinear_arith)
            requires
                c > 0,
                0 <= sm <= c * m,
        ;
        assert(sm / c >= 0) by (nonlinear_arith)
            requires
                c > 0,
                0 <= sm,
        ;
    }
}

/// Every delay of a chunk whose stamps allow its statistics lies between 0
/// and the largest `i64`.
pub proof fn law_chunk_delays_bounded(chunk: OutgoingBinChunk, sent: i64)
    requires
        chunk_stamps_fit(chunk, sent),
    ensures
        gaps_bounded(residence_gaps(chunk.events@, sent)),
        gaps_bounded(detected_gaps(chunk.events@, sent)),
        gaps_bounded(logger_send_gaps(chunk.events@, sent)),
        gaps_bounded(logger_to_adapter_gaps(chunk.events@)),
{
    assert forall|i: int| 0 <= i < chunk.events@.len() implies stamps_fit(
        #[trigger] chunk.events@[i],
        sent,
    ) by {}
}

} // verus!
