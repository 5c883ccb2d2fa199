use rust_qsim::event_sharing::listener::{
    stamp_logger_send, EventSharingSendStats, PartitionEventSequencer, SendOutcome,
};
use rust_qsim::event_sharing::InternalEventSharingRequest;

#[test]
fn sequencer_numbers_events_from_one() {
    let mut s = PartitionEventSequencer::new(7);
    let a = s.link_event("entered link".to_string(), "l1".to_string(), "v1".to_string(), 10, 500);
    let b = s.link_event("left link".to_string(), "l1".to_string(), "v1".to_string(), 12, 600);
    assert_eq!(a.seq_in_partition, 1);
    assert_eq!(b.seq_in_partition, 2);
    assert_eq!(s.last_seq(), 2);
    assert_eq!(a.partition_id, 7);
    assert_eq!(a.event_type, "entered link");
    assert_eq!(b.now, 12);
    assert_eq!(b.event_detected_at_realtime, Some(600));
    assert_eq!(b.adapter_arrived_at_realtime, None);
    assert_eq!(b.relative_position_on_link_bits, None);
}

#[test]
fn logger_send_stamp() {
    let mut s = PartitionEventSequencer::new(0);
    let p = s.link_event("entered link".to_string(), "l".to_string(), "v".to_string(), 1, 1);
    let mut req = InternalEventSharingRequest { payload: p };
    stamp_logger_send(&mut req, 99);
    assert_eq!(req.payload.logger_send_started_realtime, Some(99));
    assert_eq!(req.payload.seq_in_partition, 1);
}

#[test]
fn send_stats_count_each_outcome() {
    let mut st = EventSharingSendStats::new();
    st.record(SendOutcome::Sent);
    st.record(SendOutcome::Sent);
    st.record(SendOutcome::QueueFull);
    st.record(SendOutcome::QueueClosed);
    st.record(SendOutcome::QueueClosed);
    assert_eq!(st.sent_ok, 2);
    assert_eq!(st.dropped_full, 1);
    assert_eq!(st.dropped_closed, 2);
    assert_eq!(st.dropped_total(), 3);
    assert_eq!(st.total_attempted(), 5);
}

#[test]
fn send_stats_wrap_at_limit() {
    let mut st = EventSharingSendStats::new();
    st.sent_ok = u64::MAX;
    st.record(SendOutcome::Sent);
    assert_eq!(st.sent_ok, 0);
}
