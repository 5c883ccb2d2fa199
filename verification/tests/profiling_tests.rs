use rust_qsim::profiling::{EventSharingSummaryCsvRow, RoutingBlockingWaitCsvRow, RoutingRequestCsvRow};

#[test]
fn blocking_wait_record() {
    let row = RoutingBlockingWaitCsvRow {
        rank: "0".to_string(),
        request_id: "r".to_string(),
        person_id: "p".to_string(),
        mode: "car".to_string(),
        now: 7,
        departure_time: 8,
        route_blocking_wait_ns: 340282366920938463463374607431768211455,
    };
    assert_eq!(
        row.to_record(),
        vec!["0", "r", "p", "car", "7", "8", "340282366920938463463374607431768211455"]
    );
}

#[test]
fn routing_request_record() {
    let row = RoutingRequestCsvRow {
        rank: "1".to_string(),
        request_id: "id".to_string(),
        person_id: "p".to_string(),
        mode: "walk".to_string(),
        now: 1,
        departure_time: 2,
        route_call_start: -3,
        agent_sent_request_adapter: 4,
        adapter_received_request_agent: 5,
        adapter_sent_request_grpc: 6,
        java_routing_service_sent_response_grpc: 7,
        adapter_received_response_grpc: 8,
        adapter_sent_response_agent: 9,
        agent_received_response_adapter: 10,
        agent_replaced_route: 11,
        route_end_to_end_sim_time: 12,
        route_blocking_wait_ns: 13,
    };
    assert_eq!(
        row.to_record(),
        vec!["1", "id", "p", "walk", "1", "2", "-3", "4", "5", "6", "7", "8", "9", "10", "11", "12", "13"]
    );
}

#[test]
fn event_sharing_summary_record() {
    let row = EventSharingSummaryCsvRow {
        batch_id: "b".to_string(),
        batch_seq: 1,
        completed_bin_start: 0,
        completed_bin_end: 900,
        event_count: 5,
        publish_snapshot: true,
        empty_bin: false,
        batch_started_at_realtime: 10,
        batch_sent_at_realtime: 20,
        batch_wait_ns: 10,
        avg_event_residence_ns: 1,
        max_event_residence_ns: 2,
        avg_event_detected_to_batch_send_ns: 3,
        max_event_detected_to_batch_send_ns: 4,
        avg_logger_send_to_batch_send_ns: 5,
        max_logger_send_to_batch_send_ns: 6,
        avg_logger_to_adapter_arrival_ns: 7,
        max_logger_to_adapter_arrival_ns: 8,
    };
    assert_eq!(
        row.to_record(),
        vec!["b", "1", "0", "900", "5", "true", "false", "10", "20", "10", "1", "2", "3", "4", "5", "6", "7", "8"]
    );
}
