use rust_qsim::event_sharing::{
    Ack, EventSharingServiceAdapterFactory, InternalEventSharingRequestPayload,
    InternalEventSharingResponse, Request,
};

fn payload() -> InternalEventSharingRequestPayload {
    InternalEventSharingRequestPayload {
        event_type: "entered link".to_string(),
        link_id: "l1".to_string(),
        vehicle_id: "v1".to_string(),
        now: 30,
        driver_id: Some("d".to_string()),
        network_mode: None,
        relative_position_on_link_bits: Some(0.5f64.to_bits()),
        event_detected_at_realtime: Some(1),
        adapter_arrived_at_realtime: Some(2),
        logger_send_started_realtime: Some(3),
        seq_in_partition: 11,
        partition_id: 4,
    }
}

#[test]
fn event_equality_ignores_stamps_and_sequence() {
    let a = payload();
    let mut b = payload();
    b.seq_in_partition = 12;
    b.partition_id = 9;
    b.event_detected_at_realtime = None;
    assert!(a.equals_ignoring_uuid(&b));
    let mut c = payload();
    c.driver_id = None;
    assert!(!a.equals_ignoring_uuid(&c));
    let mut d = payload();
    d.relative_position_on_link_bits = Some(0.25f64.to_bits());
    assert!(!a.equals_ignoring_uuid(&d));
    let mut e = payload();
    e.now = 31;
    assert!(!a.equals_ignoring_uuid(&e));
}

#[test]
fn event_with_nan_position_equals_nothing() {
    let mut a = payload();
    a.relative_position_on_link_bits = Some(f64::NAN.to_bits());
    let mut b = payload();
    b.relative_position_on_link_bits = Some(f64::NAN.to_bits());
    assert!(!a.equals_ignoring_uuid(&b));
    let mut c = payload();
    c.relative_position_on_link_bits = None;
    let mut d = payload();
    d.relative_position_on_link_bits = None;
    assert!(c.equals_ignoring_uuid(&d));
}

#[test]
fn event_wire_message() {
    let r = Request::from_payload(payload());
    assert_eq!(r.event_type, "entered link");
    assert_eq!(r.link_id, "l1");
    assert_eq!(r.vehicle_id, "v1");
    assert_eq!(r.now, 30);
    assert_eq!(r.event_detected_at_realtime, Some(1));
    assert_eq!(r.adapter_arrived_at_realtime, Some(2));
    assert_eq!(r.sequence_number, Some(11));
    assert_eq!(r.participant_id, Some(4));
}

#[test]
fn acknowledgement_response() {
    assert!(InternalEventSharingResponse::from_ack(Ack { message_received: true }).message_received());
    assert!(!InternalEventSharingResponse::from_ack(Ack { message_received: false }).message_received());
    assert!(!InternalEventSharingResponse::default().message_received());
}

#[test]
fn factory_defaults_and_settings() {
    let f = EventSharingServiceAdapterFactory::new(vec!["http://h:1".to_string()], 10);
    let a = f.build_adapter();
    assert_eq!(a.bin_size_secs(), 900);
    assert_eq!(a.max_events_per_bin_chunk(), 10000);
    let f = f.with_bin_size_secs(100).with_closed_bin_batch_size(25).with_batch_params(10000, 10);
    let a = f.build_adapter();
    assert_eq!(a.bin_size_secs(), 100);
    assert_eq!(a.max_events_per_bin_chunk(), 25);
    assert_eq!(a.oldest_unfinalized_bin_start(), None);
    assert_eq!(a.received_events_count(), 0);
    assert_eq!(f.ip(), &vec!["http://h:1".to_string()]);
    assert!(f.retry_exhausted(10));
    assert!(!f.retry_exhausted(9));
}
