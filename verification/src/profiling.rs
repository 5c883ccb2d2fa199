//! Rows of the measurement CSV files, and their records as text fields.

use vstd::prelude::*;
use vstd::string::to_string_from_display_ensures;

verus! {

/// One routed request, with the time stamps along its way.
#[derive(Debug, Clone)]
pub struct RoutingRequestCsvRow {
    pub rank: String,
    pub request_id: String,
    pub person_id: String,
    pub mode: String,
    pub now: u32,
    pub departure_time: u32,
    pub route_call_start: i64,
    pub agent_sent_request_adapter: i64,
    pub adapter_received_request_agent: i64,
    pub adapter_sent_request_grpc: i64,
    pub java_routing_service_sent_response_grpc: i64,
    pub adapter_received_response_grpc: i64,
    pub adapter_sent_response_agent: i64,
    pub agent_received_response_adapter: i64,
    pub agent_replaced_route: i64,
    pub route_end_to_end_sim_time: u32,
    pub route_blocking_wait_ns: u128,
}

/// One batch sent to the event-sharing service, with its delay statistics.
#[derive(Debug, Clone)]
pub struct EventSharingSummaryCsvRow {
    pub batch_id: String,
    pub batch_seq: usize,
    pub completed_bin_start: u32,
    pub completed_bin_end: u32,
    pub event_count: usize,
    pub publish_snapshot: bool,
    pub empty_bin: bool,
    pub batch_started_at_realtime: i64,
    pub batch_sent_at_realtime: i64,
    pub batch_wait_ns: u128,
    pub avg_event_residence_ns: u128,
    pub max_event_residence_ns: u128,
    pub avg_event_detected_to_batch_send_ns: u128,
    pub max_event_detected_to_batch_send_ns: u128,
    pub avg_logger_send_to_batch_send_ns: u128,
    pub max_logger_send_to_batch_send_ns: u128,
    pub avg_logger_to_adapter_arrival_ns: u128,
    pub max_logger_to_adapter_arrival_ns: u128,
}

/// How long one routed request blocked its agent.
#[derive(Debug, Clone)]
pub struct RoutingBlockingWaitCsvRow {
    pub rank: String,
    pub request_id: String,
    pub person_id: String,
    pub mode: String,
    pub now: u32,
    pub departure_time: u32,
    pub route_blocking_wait_ns: u128,
}


impl RoutingRequestCsvRow {
    /// The row as the text fields of a CSV record, in header order.
    pub fn to_record(&self) -> (rec: Vec<String>)
        ensures
            rec@.len() == 17,
            rec@[0]@ == self.rank@,
            rec@[1]@ == self.request_id@,
            rec@[2]@ == self.person_id@,
            rec@[3]@ == self.mode@,
            to_string_from_display_ensures::<u32>(&self.now, rec@[4]),
            to_string_from_display_ensures::<u32>(&self.departure_time, rec@[5]),
            to_string_from_display_ensures::<i64>(&self.route_call_start, rec@[6]),
            to_string_from_display_ensures::<i64>(&self.agent_sent_request_adapter, rec@[7]),
            to_string_from_display_ensures::<i64>(&self.adapter_received_request_agent, rec@[8]),
            to_string_from_display_ensures::<i64>(&self.adapter_sent_request_grpc, rec@[9]),
            to_string_from_display_ensures::<i64>(&self.java_routing_service_sent_response_grpc, rec@[10]),
            to_string_from_display_ensures::<i64>(&self.adapter_received_response_grpc, rec@[11]),
            to_string_from_display_ensures::<i64>(&self.adapter_sent_response_agent, rec@[12]),
            to_string_from_display_ensures::<i64>(&self.agent_received_response_adapter, rec@[13]),
            to_string_from_display_ensures::<i64>(&self.agent_replaced_route, rec@[14]),
            to_string_from_display_ensures::<u32>(&self.route_end_to_end_sim_time, rec@[15]),
            to_string_from_display_ensures::<u128>(&self.route_blocking_wait_ns, rec@[16]),
    {
        let mut rec: Vec<String> = Vec::new();
        rec.push(self.rank.clone());
        rec.push(self.request_id.clone());
        rec.push(self.person_id.clone());
        rec.push(self.mode.clone());
        rec.push(self.now.to_string());
        rec.push(self.departure_time.to_string());
        rec.push(self.route_call_start.to_string());
        rec.push(self.agent_sent_request_adapter.to_string());
        rec.push(self.adapter_received_request_agent.to_string());
        rec.push(self.adapter_sent_request_grpc.to_string());
        rec.push(self.java_routing_service_sent_response_grpc.to_string());
        rec.push(self.adapter_received_response_grpc.to_string());
        rec.push(self.adapter_sent_response_agent.to_string());
        rec.push(self.agent_received_response_adapter.to_string());
        rec.push(self.agent_replaced_route.to_string());
        rec.push(self.route_end_to_end_sim_time.to_string());
        rec.push(self.route_blocking_wait_ns.to_string());
        rec
    }
}

impl EventSharingSummaryCsvRow {
    /// The row as the text fields of a CSV record, in header order.
    pub fn to_record(&self) -> (rec: Vec<String>)
        ensures
            rec@.len() == 18,
            rec@[0]@ == self.batch_id@,
            to_string_from_display_ensures::<usize>(&self.batch_seq, rec@[1]),
            to_string_from_display_ensures::<u32>(&self.completed_bin_start, rec@[2]),
            to_string_from_display_ensures::<u32>(&self.completed_bin_end, rec@[3]),
            to_string_from_display_ensures::<usize>(&self.event_count, rec@[4]),
            to_string_from_display_ensures::<bool>(&self.publish_snapshot, rec@[5]),
            to_string_from_display_ensures::<bool>(&self.empty_bin, rec@[6]),
            to_string_from_display_ensures::<i64>(&self.batch_started_at_realtime, rec@[7]),
            to_string_from_display_ensures::<i64>(&self.batch_sent_at_realtime, rec@[8]),
            to_string_from_display_ensures::<u128>(&self.batch_wait_ns, rec@[9]),
            to_string_from_display_ensures::<u128>(&self.avg_event_residence_ns, rec@[10]),
            to_string_from_display_ensures::<u128>(&self.max_event_residence_ns, rec@[11]),
            to_string_from_display_ensures::<u128>(&self.avg_event_detected_to_batch_send_ns, rec@[12]),
            to_string_from_display_ensures::<u128>(&self.max_event_detected_to_batch_send_ns, rec@[13]),
            to_string_from_display_ensures::<u128>(&self.avg_logger_send_to_batch_send_ns, rec@[14]),
            to_string_from_display_ensures::<u128>(&self.max_logger_send_to_batch_send_ns, rec@[15]),
            to_string_from_display_ensures::<u128>(&self.avg_logger_to_adapter_arrival_ns, rec@[16]),
            to_string_from_display_ensures::<u128>(&self.max_logger_to_adapter_arrival_ns, rec@[17]),
    {
        let mut rec: Vec<String> = Vec::new();
        rec.push(self.batch_id.clone());
        rec.push(self.batch_seq.to_string());
        rec.push(self.completed_bin_start.to_string());
        rec.push(self.completed_bin_end.to_string());
        rec.push(self.event_count.to_string());
        rec.push(self.publish_snapshot.to_string());
        rec.push(self.empty_bin.to_string());
        rec.push(self.batch_started_at_realtime.to_string());
        rec.push(self.batch_sent_at_realtime.to_string());
        rec.push(self.batch_wait_ns.to_string());
        rec.push(self.avg_event_residence_ns.to_string());
        rec.push(self.max_event_residence_ns.to_string());
        rec.push(self.avg_event_detected_to_batch_send_ns.to_string());
        rec.push(self.max_event_detected_to_batch_send_ns.to_string());
        rec.push(self.avg_logger_send_to_batch_send_ns.to_string());
        rec.push(self.max_logger_send_to_batch_send_ns.to_string());
        rec.push(self.avg_logger_to_adapter_arrival_ns.to_string());
        rec.push(self.max_logger_to_adapter_arrival_ns.to_string());
        rec
    }
}

impl RoutingBlockingWaitCsvRow {
    /// The row as the text fields of a CSV record, in header order.
    pub fn to_record(&self) -> (rec: Vec<String>)
        ensures
            rec@.len() == 7,
            rec@[0]@ == self.rank@,
            rec@[1]@ == self.request_id@,
            rec@[2]@ == self.person_id@,
            rec@[3]@ == self.mode@,
            to_string_from_display_ensures::<u32>(&self.now, rec@[4]),
            to_string_from_display_ensures::<u32>(&self.departure_time, rec@[5]),
            to_string_from_display_ensures::<u128>(&self.route_blocking_wait_ns, rec@[6]),
    {
        let mut rec: Vec<String> = Vec::new();
        rec.push(self.rank.clone());
        rec.push(self.request_id.clone());
        rec.push(self.person_id.clone());
        rec.push(self.mode.clone());
        rec.push(self.now.to_string());
        rec.push(self.departure_time.to_string());
        rec.push(self.route_blocking_wait_ns.to_string());
        rec
    }
}

} // verus!
