use rust_qsim::routing::{
    measurement_stamp, InternalPlanElement, InternalRoutingRequestPayload, InternalRoutingResponse,
    Request, Response, RoutingServiceAdapterFactory,
};

fn request() -> InternalRoutingRequestPayload {
    InternalRoutingRequestPayload {
        person_id: "p1".to_string(),
        from_link: "a".to_string(),
        from_x_bits: 1.0f64.to_bits(),
        from_y_bits: 2.0f64.to_bits(),
        to_link: "b".to_string(),
        to_x_bits: 3.0f64.to_bits(),
        to_y_bits: 4.0f64.to_bits(),
        mode: "car".to_string(),
        departure_time: 3600,
        now: 3500,
        route_call_start_realtime: 42,
        adapter_sent_request_grpc: None,
        uuid: vec![9u8; 16],
    }
}

fn response(legs: Vec<&'static str>, activities: Vec<u32>) -> Response<&'static str, u32> {
    Response {
        legs,
        activities,
        request_id: (0u8..16).collect(),
        java_routing_service_sent_response_grpc: None,
    }
}

#[test]
fn routing_requests_equal_ignoring_uuid() {
    let a = request();
    let mut b = request();
    b.uuid = vec![1u8; 16];
    b.adapter_sent_request_grpc = Some(5);
    assert!(a.equals_ignoring_uuid(&b));
    let mut c = request();
    c.to_y_bits = 4.5f64.to_bits();
    assert!(!a.equals_ignoring_uuid(&c));
    let mut d = request();
    d.from_x_bits = (-0.0f64).to_bits();
    let mut e = request();
    e.from_x_bits = 0.0f64.to_bits();
    assert!(d.equals_ignoring_uuid(&e));
    let mut n = request();
    n.from_x_bits = f64::NAN.to_bits();
    let mut n2 = request();
    n2.from_x_bits = f64::NAN.to_bits();
    assert!(!n.equals_ignoring_uuid(&n2));
}

#[test]
fn routing_request_wire_message() {
    let r = Request::from_payload(request());
    assert_eq!(r.person_id, "p1");
    assert_eq!(r.from_link_id, "a");
    assert_eq!(r.to_link_id, "b");
    assert_eq!(f64::from_bits(r.to_x_bits), 3.0);
    assert_eq!(r.request_id, vec![9u8; 16]);
    assert_eq!(r.route_call_start_realtime, Some(42));
    assert_eq!(r.rust_adapter_sent_request_grpc, Some(0));
    let mut p = request();
    p.adapter_sent_request_grpc = Some(77);
    assert_eq!(Request::from_payload(p).rust_adapter_sent_request_grpc, Some(77));
}

#[test]
fn response_alternates_legs_and_activities() {
    let r = InternalRoutingResponse::from_response(response(vec!["l1", "l2", "l3"], vec![10, 20]));
    let kinds: Vec<String> = r
        .elements
        .iter()
        .map(|e| match e {
            InternalPlanElement::Leg(l) => l.to_string(),
            InternalPlanElement::Activity(a) => a.to_string(),
        })
        .collect();
    assert_eq!(kinds, vec!["l1", "10", "l2", "20", "l3"]);
    assert_eq!(r.request_id, (0u8..16).collect::<Vec<u8>>());
    assert_eq!(r.java_routing_service_sent_response_grpc, Some(0));
    assert_eq!(r.adapter_received_request_agent, None);
}

#[test]
fn response_with_extra_legs_ends_with_legs() {
    let r = InternalRoutingResponse::from_response(response(vec!["l1", "l2", "l3"], vec![10]));
    let legs: Vec<bool> = r.elements.iter().map(|e| matches!(e, InternalPlanElement::Leg(_))).collect();
    assert_eq!(legs, vec![true, false, true, true]);
    let empty = InternalRoutingResponse::from_response(response(vec![], vec![]));
    assert!(empty.elements.is_empty());
}

#[test]
fn response_keeps_service_stamp_and_takes_adapter_stamps() {
    let mut resp = response(vec!["l1"], vec![]);
    resp.java_routing_service_sent_response_grpc = Some(555);
    let mut r = InternalRoutingResponse::from_response(resp);
    assert_eq!(r.java_routing_service_sent_response_grpc, Some(555));
    r.stamp_measurements(Some(1), Some(2), None, Some(4));
    assert_eq!(r.adapter_received_request_agent, Some(1));
    assert_eq!(r.adapter_sent_request_grpc, Some(2));
    assert_eq!(r.adapter_received_response_grpc, None);
    assert_eq!(r.adapter_sent_response_agent, Some(4));
    assert_eq!(r.java_routing_service_sent_response_grpc, Some(555));
    assert_eq!(r.elements.len(), 1);
}

#[test]
fn measurement_stamps_only_when_measuring() {
    assert_eq!(measurement_stamp(true, 8), Some(8));
    assert_eq!(measurement_stamp(false, 8), None);
}

#[test]
fn routing_factory_gives_up_after_retry_time() {
    let f = RoutingServiceAdapterFactory::new(vec!["http://localhost:50051".to_string()], 30);
    assert_eq!(f.ip(), &vec!["http://localhost:50051".to_string()]);
    assert!(!f.retry_exhausted(29));
    assert!(f.retry_exhausted(30));
    assert!(f.retry_exhausted(31));
}
