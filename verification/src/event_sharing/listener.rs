//! The simulation side of event sharing: numbering the link events of a
//! partition, and counting what became of each event handed to the adapter.

use vstd::prelude::*;

use crate::event_sharing::{InternalEventSharingRequest, InternalEventSharingRequestPayload};

verus! {

/// Numbers the events of one partition, from 1, in the order they are seen.
pub struct PartitionEventSequencer {
    partition_id: u32,
    last_seq: u64,
}

impl PartitionEventSequencer {
    pub closed spec fn spec_partition_id(&self) -> u32 {
        self.partition_id
    }

    /// The number of the last event numbered, 0 before the first.
    pub closed spec fn spec_last_seq(&self) -> u64 {
        self.last_seq
    }

    /// A sequencer for a partition that has seen no event.
    pub fn new(partition_id: u32) -> (s: Self)
        ensures
            s.spec_partition_id() == partition_id,
            s.spec_last_seq() == 0,
    {
        PartitionEventSequencer { partition_id, last_seq: 0 }
    }

    /// The number of the last event numbered.
    pub fn last_seq(&self) -> (n: u64)
        ensures
            n == self.spec_last_seq(),
    {
        self.last_seq
    }

    /// The payload of a link event (a vehicle entering or leaving a link),
    /// detected at `event_detected_at_realtime`, numbered next in its
    /// partition.
    pub fn link_event(
        &mut self,
        event_type: String,
        link_id: String,
        vehicle_id: String,
        time: u32,
        event_detected_at_realtime: i64,
    ) -> (p: InternalEventSharingRequestPayload)
        requires
            old(self).spec_last_seq() < u64::MAX,
        ensures
            final(self).spec_partition_id() == old(self).spec_partition_id(),
            final(self).spec_last_seq() == old(self).spec_last_seq() + 1,
            p == (InternalEventSharingRequestPayload {
                event_type,
                link_id,
                vehicle_id,
                now: time,
                driver_id: None,
                network_mode: None,
                relative_position_on_link_bits: None,
                event_detected_at_realtime: Some(event_detected_at_realtime),
                adapter_arrived_at_realtime: None,
                logger_send_started_realtime: None,
                seq_in_partition: (old(self).spec_last_seq() + 1) as u64,
                partition_id: old(self).spec_partition_id(),
            }),
    {
        let next_seq = self.last_seq + 1;
        self.last_seq = next_seq;
        InternalEventSharingRequestPayload {
            event_type,
            link_id,
            vehicle_id,
            now: time,
            driver_id: None,
            network_mode: None,
            relative_position_on_link_bits: None,
            event_detected_at_realtime: Some(event_detected_at_realtime),
            adapter_arrived_at_realtime: None,
            logger_send_started_realtime: None,
            seq_in_partition: next_seq,
            partition_id: self.partition_id,
        }
    }
}

/// Stamps a request with the time the logger started to send it.
pub fn stamp_logger_send(req: &mut InternalEventSharingRequest, logger_send_started_realtime: i64)
    ensures
        final(req).payload == (InternalEventSharingRequestPayload {
            logger_send_started_realtime: Some(logger_send_started_realtime),
            ..old(req).payload
        }),
{
    req.payload.logger_send_started_realtime = Some(logger_send_started_realtime);
}

/// What became of an event handed to the adapter's queue.
pub enum SendOutcome {
    Sent,
    QueueFull,
    QueueClosed,
}

/// How many events were queued, and how many were dropped because the queue
/// was full or closed. Counters wrap around on overflow, as atomic
/// additions do.
pub struct EventSharingSendStats {
    pub sent_ok: u64,
    pub dropped_full: u64,
    pub dropped_closed: u64,
}

/// `x + 1`, wrapping to 0 past the largest `u64`.
pub open spec fn wrapping_inc(x: u64) -> u64 {
    if x == u64::MAX {
        0
    } else {
        (x + 1) as u64
    }
}

impl EventSharingSendStats {
    /// No event counted yet.
    pub fn new() -> (s: Self)
        ensures
            s.sent_ok == 0,
            s.dropped_full == 0,
            s.dropped_closed == 0,
    {
        EventSharingSendStats { sent_ok: 0, dropped_full: 0, dropped_closed: 0 }
    }

    /// Counts one outcome: exactly the counter of that outcome goes up.
    pub fn record(&mut self, outcome: SendOutcome)
        ensures
            *final(self) == spec_recorded(*old(self), outcome),
    {
        match outcome {
            SendOutcome::Sent => {
                self.sent_ok = self.sent_ok.wrapping_add(1);
            },
            SendOutcome::QueueFull => {
                self.dropped_full = self.dropped_full.wrapping_add(1);
            },
            SendOutcome::QueueClosed => {
                self.dropped_closed = self.dropped_closed.wrapping_add(1);
            },
        }
    }

    /// The events dropped, for either reason.
    pub fn dropped_total(&self) -> (n: u64)
        requires
            self.dropped_full + self.dropped_closed <= u64::MAX,
        ensures
            n == self.dropped_full + self.dropped_closed,
    {
        self.dropped_full + self.dropped_closed
    }

    /// The events handed to the queue in all.
    pub fn total_attempted(&self) -> (n: u64)
        requires
            self.sent_ok + self.dropped_full + self.dropped_closed <= u64::MAX,
        ensures
            n == self.sent_ok + self.dropped_full + self.dropped_closed,
    {
        self.sent_ok + (self.dropped_full + self.dropped_closed)
    }
}

/// The counts after one more outcome: exactly the counter of that outcome
/// goes up.
pub open spec fn spec_recorded(s: EventSharingSendStats, outcome: SendOutcome) -> EventSharingSendStats {
    match outcome {
        SendOutcome::Sent => EventSharingSendStats { sent_ok: wrapping_inc(s.sent_ok), ..s },
        SendOutcome::QueueFull => EventSharingSendStats { dropped_full: wrapping_inc(s.dropped_full), ..s },
        SendOutcome::QueueClosed => EventSharingSendStats {
            dropped_closed: wrapping_inc(s.dropped_closed),
            ..s
        },
    }
}

/// The events handed to the queue in all.
pub open spec fn spec_total_attempted(s: EventSharingSendStats) -> int {
    s.sent_ok + s.dropped_full + s.dropped_closed
}

/// Every outcome is counted once: each adds one to the events handed to the
/// queue, while no counter has reached its limit.
pub proof fn law_each_outcome_counted_once(before: EventSharingSendStats, outcome: SendOutcome)
    requires
        before.sent_ok < u64::MAX,
        before.dropped_full < u64::MAX,
        before.dropped_closed < u64::MAX,
    ensures
        spec_total_attempted(spec_recorded(before, outcome)) == spec_total_attempted(before) + 1,
{
}

} // verus!
