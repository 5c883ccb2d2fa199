use rust_qsim::event_sharing::bins::OutgoingBinChunk;
use rust_qsim::event_sharing::sender::{
    batch_request, chunk_stamps_allow_timings, chunk_timings, gap_ns, summary_row, AdapterMetrics,
};
use rust_qsim::event_sharing::InternalEventSharingRequestPayload;

fn payload(arrived: Option<i64>, detected: Option<i64>, logger: Option<i64>) -> InternalEventSharingRequestPayload {
    InternalEventSharingRequestPayload {
        event_type: "left link".to_string(),
        link_id: "l7".to_string(),
        vehicle_id: "car".to_string(),
        now: 12,
        driver_id: None,
        network_mode: None,
        relative_position_on_link_bits: None,
        event_detected_at_realtime: detected,
        adapter_arrived_at_realtime: arrived,
        logger_send_started_realtime: logger,
        seq_in_partition: 4,
        partition_id: 2,
    }
}

fn chunk(events: Vec<InternalEventSharingRequestPayload>, started: Option<i64>) -> OutgoingBinChunk {
    OutgoingBinChunk {
        events,
        completed_bin_start: 0,
        completed_bin_end: 900,
        empty_bin: false,
        publish_snapshot: true,
        chunk_seq: 3,
        batch_started_at_realtime: started,
        batch_id: (1u8..=16).collect(),
    }
}

#[test]
fn gap_is_clamped_at_zero() {
    assert_eq!(gap_ns(100, 40), 60);
    assert_eq!(gap_ns(40, 100), 0);
    assert_eq!(gap_ns(5, 5), 0);
}

#[test]
fn chunk_delay_statistics() {
    let c = chunk(
        vec![
            payload(Some(900), Some(800), Some(850)),
            payload(Some(700), None, Some(600)),
            payload(None, Some(1100), None),
        ],
        Some(700),
    );
    let t = chunk_timings(&c, 1000);
    assert_eq!(t.event_count, 3);
    // residences 100 and 300
    assert_eq!(t.residence.avg_ns, 200);
    assert_eq!(t.residence.max_ns, 300);
    assert_eq!(t.residence_total_ns, 400);
    // detected gaps 200 and 0 (clamped)
    assert_eq!(t.detected_to_batch_send.avg_ns, 100);
    assert_eq!(t.detected_to_batch_send.max_ns, 200);
    // logger gaps 150 and 400
    assert_eq!(t.logger_send_to_batch_send.avg_ns, 275);
    assert_eq!(t.logger_send_to_batch_send.max_ns, 400);
    // logger to adapter: 50 and 100
    assert_eq!(t.logger_to_adapter_arrival.avg_ns, 75);
    assert_eq!(t.logger_to_adapter_arrival.max_ns, 100);
    assert_eq!(t.batch_started_at_realtime, 700);
    assert_eq!(t.batch_wait_ns, 300);
}

#[test]
fn chunk_without_stamps_has_zero_statistics() {
    let c = chunk(vec![payload(None, None, None)], None);
    let t = chunk_timings(&c, 1000);
    assert_eq!(t.residence.avg_ns, 0);
    assert_eq!(t.residence.max_ns, 0);
    assert_eq!(t.batch_started_at_realtime, 0);
    assert_eq!(t.batch_wait_ns, 0);
}

#[test]
fn summary_row_carries_chunk_and_statistics() {
    let c = chunk(vec![payload(Some(900), Some(800), Some(850))], Some(900));
    let t = chunk_timings(&c, 1000);
    let row = summary_row(&c, 1000, &t);
    let expected_id = uuid::Uuid::from_slice(&c.batch_id).unwrap().to_string();
    assert_eq!(row.batch_id, expected_id);
    assert_eq!(row.batch_id, "01020304-0506-0708-090a-0b0c0d0e0f10");
    assert_eq!(row.batch_seq, 3);
    assert_eq!(row.event_count, 1);
    assert!(row.publish_snapshot);
    assert_eq!(row.batch_sent_at_realtime, 1000);
    assert_eq!(row.batch_wait_ns, 100);
    assert_eq!(row.avg_event_residence_ns, 100);
    assert_eq!(row.max_logger_send_to_batch_send_ns, 150);
    assert_eq!(row.max_logger_to_adapter_arrival_ns, 50);
}

#[test]
fn batch_request_carries_events_in_order() {
    let mut first = payload(Some(1), None, None);
    first.vehicle_id = "a".to_string();
    let mut second = payload(None, Some(2), None);
    second.vehicle_id = "b".to_string();
    let c = chunk(vec![first, second], Some(1));
    let ids = c.batch_id.clone();
    let req = batch_request(c, 77);
    assert_eq!(req.batch_id, ids);
    assert_eq!(req.requests.len(), 2);
    assert_eq!(req.requests[0].vehicle_id, "a");
    assert_eq!(req.requests[1].vehicle_id, "b");
    assert_eq!(req.requests[0].adapter_arrived_at_realtime, Some(1));
    assert_eq!(req.requests[1].event_detected_at_realtime, Some(2));
    assert_eq!(req.requests[0].sequence_number, Some(4));
    assert_eq!(req.requests[0].participant_id, Some(2));
    assert!(req.publish_snapshot);
    assert!(!req.empty_bin);
    assert_eq!((req.completed_bin_start, req.completed_bin_end), (0, 900));
    assert_eq!(req.batch_sent_at_realtime, 77);
}

#[test]
fn metrics_count_and_average() {
    let mut m = AdapterMetrics::new();
    m.record_incoming();
    m.record_incoming();
    let c = chunk(vec![payload(Some(900), None, None), payload(Some(700), None, None)], Some(700));
    let t = chunk_timings(&c, 1000);
    m.record_batch(&t, true);
    let c2 = chunk(vec![], None);
    let t2 = chunk_timings(&c2, 1000);
    m.record_batch(&t2, false);
    assert_eq!(m.incoming_event_count, 2);
    assert_eq!(m.batch_count, 2);
    assert_eq!(m.publish_batch_count, 1);
    assert_eq!(m.adapter_event_residence_ns_total, 400);
    assert_eq!(m.adapter_event_residence_ns_max, 300);
    assert_eq!(m.batch_wait_ns_total, 300);
    assert_eq!(m.batch_wait_ns_max, 300);
    let s = m.final_stats();
    assert_eq!(s.avg_event_residence_ns, 200);
    assert_eq!(s.avg_batch_wait_ns, 150);
    assert_eq!(s.max_batch_wait_ns, 300);
}

#[test]
fn metrics_final_stats_without_events() {
    let m = AdapterMetrics::new();
    let s = m.final_stats();
    assert_eq!(s.incoming_events, 0);
    assert_eq!(s.avg_event_residence_ns, 0);
    assert_eq!(s.avg_batch_wait_ns, 0);
}

#[test]
fn metrics_update_max_keeps_larger() {
    let mut x: u64 = 5;
    AdapterMetrics::update_max(&mut x, 3);
    assert_eq!(x, 5);
    AdapterMetrics::update_max(&mut x, 9);
    assert_eq!(x, 9);
}

#[test]
fn metrics_residence_total_wraps() {
    let mut m = AdapterMetrics::new();
    m.adapter_event_residence_ns_total = u64::MAX - 10;
    let c = chunk(vec![payload(Some(900), None, None)], None);
    let t = chunk_timings(&c, 1000);
    m.record_batch(&t, false);
    assert_eq!(m.adapter_event_residence_ns_total, 89);
}

#[test]
fn stamps_that_fit_allow_timings() {
    let c = chunk(vec![payload(Some(10), Some(5), Some(7)), payload(None, None, None)], Some(10));
    assert!(chunk_stamps_allow_timings(&c, 100));
    assert!(chunk_stamps_allow_timings(&chunk(Vec::new(), None), i64::MIN));
}

#[test]
fn stamps_too_far_apart_refuse_timings() {
    // The send time minus the detection stamp does not fit in an i64.
    let c = chunk(vec![payload(None, Some(i64::MIN), None)], None);
    assert!(!chunk_stamps_allow_timings(&c, 1));
    // Nor does the send time minus the batch start.
    let d = chunk(Vec::new(), Some(i64::MAX));
    assert!(!chunk_stamps_allow_timings(&d, -2));
    // The logger stamp is checked against the arrival stamp too.
    let e = chunk(vec![payload(Some(i64::MAX), None, Some(-1))], None);
    assert!(!chunk_stamps_allow_timings(&e, i64::MAX));
}
