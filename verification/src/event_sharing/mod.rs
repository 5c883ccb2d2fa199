//! Sharing of simulation events with the event-sharing service: the event
//! payload, its wire messages, and the time-bin batching adapter.

pub mod bins;
pub mod bin_laws;
pub mod sender;
pub mod listener;

use vstd::prelude::*;

use crate::ieee::{f64_bits_is_nan, opt_f64_bits_eq, spec_f64_bits_eq, spec_opt_f64_bits_eq};
use crate::event_sharing::bins::{
    EventSharingServiceAdapter, EventSharingServiceAdapterView, DEFAULT_BIN_SIZE_SECS,
    DEFAULT_MAX_EVENTS_PER_BIN_CHUNK,
};
use crate::routing::addresses_view;
use crate::strings::{opt_string_eq, opt_string_view};

verus! {

/// One simulation event as the event-sharing adapter receives it.
///
/// `relative_position_on_link_bits` holds the bit pattern (`f64::to_bits`)
/// of the relative position of the vehicle on the link, where one is known.
pub struct InternalEventSharingRequestPayload {
    pub event_type: String,
    pub link_id: String,
    pub vehicle_id: String,
    pub now: u32,
    pub driver_id: Option<String>,
    pub network_mode: Option<String>,
    pub relative_position_on_link_bits: Option<u64>,
    pub event_detected_at_realtime: Option<i64>,
    pub adapter_arrived_at_realtime: Option<i64>,
    pub logger_send_started_realtime: Option<i64>,
    pub seq_in_partition: u64,
    pub partition_id: u32,
}

/// A request to the event-sharing adapter.
pub struct InternalEventSharingRequest {
    pub payload: InternalEventSharingRequestPayload,
}

/// The fields that identify an event, compared as the simulation sees them:
/// strings by their characters, the position as a double.
pub open spec fn spec_equals_ignoring_uuid(
    a: InternalEventSharingRequestPayload,
    b: InternalEventSharingRequestPayload,
) -> bool {
    &&& a.event_type@ == b.event_type@
    &&& a.link_id@ == b.link_id@
    &&& a.vehicle_id@ == b.vehicle_id@
    &&& a.now == b.now
    &&& opt_string_view(a.driver_id) == opt_string_view(b.driver_id)
    &&& opt_string_view(a.network_mode) == opt_string_view(b.network_mode)
    &&& spec_opt_f64_bits_eq(a.relative_position_on_link_bits, b.relative_position_on_link_bits)
}

impl InternalEventSharingRequestPayload {
    /// Compares the identifying fields of two events; time stamps and the
    /// partition sequence are not compared.
    pub fn equals_ignoring_uuid(&self, other: &Self) -> (eq: bool)
        ensures
            eq == spec_equals_ignoring_uuid(*self, *other),
    {
        self.event_type == other.event_type && self.link_id == other.link_id && self.vehicle_id
            == other.vehicle_id && self.now == other.now && opt_string_eq(
            &self.driver_id,
            &other.driver_id,
        ) && opt_string_eq(&self.network_mode, &other.network_mode) && opt_f64_bits_eq(
            self.relative_position_on_link_bits,
            other.relative_position_on_link_bits,
        )
    }
}

/// Two events compare equal exactly when they have the same type, link,
/// vehicle, time, driver and network mode (as text) and their positions
/// are both absent or equal as doubles.
pub proof fn law_event_equality_compares_identity(
    a: InternalEventSharingRequestPayload,
    b: InternalEventSharingRequestPayload,
)
    ensures
        spec_equals_ignoring_uuid(a, b) <==> {
            &&& a.event_type@ == b.event_type@
            &&& a.link_id@ == b.link_id@
            &&& a.vehicle_id@ == b.vehicle_id@
            &&& a.now == b.now
            &&& (a.driver_id is None <==> b.driver_id is None)
            &&& (a.driver_id matches Some(x) ==> b.driver_id matches Some(y) && x@ == y@)
            &&& (a.network_mode is None <==> b.network_mode is None)
            &&& (a.network_mode matches Some(x) ==> b.network_mode matches Some(y) && x@ == y@)
            &&& (a.relative_position_on_link_bits is None <==> b.relative_position_on_link_bits is None)
            &&& (a.relative_position_on_link_bits matches Some(x) ==> b.relative_position_on_link_bits matches Some(
                y,
            ) && spec_f64_bits_eq(x, y))
        },
{
}

/// The position of the event is a NaN.
pub open spec fn position_is_nan(p: InternalEventSharingRequestPayload) -> bool {
    p.relative_position_on_link_bits matches Some(x) && f64_bits_is_nan(x)
}

/// Comparing events this way is symmetric, and an event equals itself
/// unless its position is a NaN, whatever its time stamps and sequence
/// number.
pub proof fn law_event_equality_symmetric_and_reflexive(
    a: InternalEventSharingRequestPayload,
    b: InternalEventSharingRequestPayload,
)
    ensures
        spec_equals_ignoring_uuid(a, b) == spec_equals_ignoring_uuid(b, a),
        spec_equals_ignoring_uuid(a, a) == !position_is_nan(a),
        !position_is_nan(a) ==> spec_equals_ignoring_uuid(
            a,
            InternalEventSharingRequestPayload {
                event_detected_at_realtime: b.event_detected_at_realtime,
                adapter_arrived_at_realtime: b.adapter_arrived_at_realtime,
                logger_send_started_realtime: b.logger_send_started_realtime,
                seq_in_partition: b.seq_in_partition,
                partition_id: b.partition_id,
                ..a
            },
        ),
{
}

/// The event-sharing service's answer to one event.
#[derive(Debug, Clone, Default)]
pub struct InternalEventSharingResponse {
    message_received: bool,
}

impl InternalEventSharingResponse {
    /// The response built from the service's acknowledgement.
    pub fn from_ack(value: Ack) -> (res: Self)
        ensures
            res.spec_message_received() == value.message_received,
    {
        InternalEventSharingResponse { message_received: value.message_received }
    }

    pub closed spec fn spec_message_received(&self) -> bool {
        self.message_received
    }

    /// Whether the service acknowledged the message.
    pub fn message_received(&self) -> (r: bool)
        ensures
            r == self.spec_message_received(),
    {
        self.message_received
    }
}

/// The wire message of one event, as the event-sharing service takes it.
pub struct Request {
    pub event_type: String,
    pub link_id: String,
    pub vehicle_id: String,
    pub now: u32,
    pub event_detected_at_realtime: Option<i64>,
    pub adapter_arrived_at_realtime: Option<i64>,
    pub sequence_number: Option<u64>,
    pub participant_id: Option<u32>,
}

/// The wire message of a batch of events of one time bin.
pub struct BatchRequest {
    pub batch_id: Vec<u8>,
    pub requests: Vec<Request>,
    pub publish_snapshot: bool,
    pub completed_bin_start: u32,
    pub completed_bin_end: u32,
    pub empty_bin: bool,
    pub batch_sent_at_realtime: i64,
}

/// The service's acknowledgement.
pub struct Ack {
    pub message_received: bool,
}

/// The wire message of an event: its identity, its time stamps, and its
/// place in the sequence of its partition.
pub open spec fn spec_request_from_payload(p: InternalEventSharingRequestPayload) -> Request {
    Request {
        event_type: p.event_type,
        link_id: p.link_id,
        vehicle_id: p.vehicle_id,
        now: p.now,
        event_detected_at_realtime: p.event_detected_at_realtime,
        adapter_arrived_at_realtime: p.adapter_arrived_at_realtime,
        sequence_number: Some(p.seq_in_partition),
        participant_id: Some(p.partition_id),
    }
}

/// The wire message of an event carries the event's own identity and time
/// stamps unchanged, its sequence number and partition as present values,
/// and depends on nothing else: in particular not on when the logger
/// started to send the event, nor on the event's driver, mode or position.
pub proof fn law_wire_message_carries_event(
    p: InternalEventSharingRequestPayload,
    q: InternalEventSharingRequestPayload,
)
    ensures
        ({
            let r = spec_request_from_payload(p);
            &&& r.event_type == p.event_type
            &&& r.link_id == p.link_id
            &&& r.vehicle_id == p.vehicle_id
            &&& r.now == p.now
            &&& r.event_detected_at_realtime == p.event_detected_at_realtime
            &&& r.adapter_arrived_at_realtime == p.adapter_arrived_at_realtime
            &&& r.sequence_number == Some(p.seq_in_partition)
            &&& r.participant_id == Some(p.partition_id)
        }),
        (q.event_type == p.event_type && q.link_id == p.link_id && q.vehicle_id == p.vehicle_id
            && q.now == p.now && q.event_detected_at_realtime == p.event_detected_at_realtime
            && q.adapter_arrived_at_realtime == p.adapter_arrived_at_realtime
            && q.seq_in_partition == p.seq_in_partition && q.partition_id == p.partition_id)
            ==> spec_request_from_payload(q) == spec_request_from_payload(p),
{
}

impl Request {
    /// Converts an event into its wire message.
    pub fn from_payload(req: InternalEventSharingRequestPayload) -> (r: Request)
        ensures
            r == spec_request_from_payload(req),
    {
        Request {
            event_type: req.event_type,
            link_id: req.link_id,
            vehicle_id: req.vehicle_id,
            now: req.now,
            event_detected_at_realtime: req.event_detected_at_realtime,
            adapter_arrived_at_realtime: req.adapter_arrived_at_realtime,
            sequence_number: Some(req.seq_in_partition),
            participant_id: Some(req.partition_id),
        }
    }
}

/// The settings of an event-sharing factory, as a value.
pub struct EventSharingServiceAdapterFactoryView {
    pub ip: Seq<Seq<char>>,
    pub retry_time_seconds: u64,
    pub bin_size_secs: u32,
    pub max_events_per_bin_chunk: usize,
}

/// Makes event-sharing adapters: the addresses of the service, how long to
/// keep trying to connect, and the bin and chunk sizes.
pub struct EventSharingServiceAdapterFactory {
    ip: Vec<String>,
    retry_time_seconds: u64,
    bin_size_secs: u32,
    max_events_per_bin_chunk: usize,
}

impl View for EventSharingServiceAdapterFactory {
    type V = EventSharingServiceAdapterFactoryView;

    closed spec fn view(&self) -> EventSharingServiceAdapterFactoryView {
        EventSharingServiceAdapterFactoryView {
            ip: addresses_view(self.ip@),
            retry_time_seconds: self.retry_time_seconds,
            bin_size_secs: self.bin_size_secs,
            max_events_per_bin_chunk: self.max_events_per_bin_chunk,
        }
    }
}

impl EventSharingServiceAdapterFactory {
    /// A factory for the service at these addresses, with the default bin
    /// and chunk sizes.
    pub fn new(ip: Vec<String>, retry_time_seconds: u64) -> (f: Self)
        ensures
            f@ == (EventSharingServiceAdapterFactoryView {
                ip: addresses_view(ip@),
                retry_time_seconds,
                bin_size_secs: DEFAULT_BIN_SIZE_SECS,
                max_events_per_bin_chunk: DEFAULT_MAX_EVENTS_PER_BIN_CHUNK,
            }),
    {
        EventSharingServiceAdapterFactory {
            ip,
            retry_time_seconds,
            bin_size_secs: DEFAULT_BIN_SIZE_SECS,
            max_events_per_bin_chunk: DEFAULT_MAX_EVENTS_PER_BIN_CHUNK,
        }
    }

    /// Takes batch parameters and changes nothing: chunks are cut per time
    /// bin, by the bin and chunk sizes.
    pub fn with_batch_params(self, _max_batch_size: usize, _batch_interval_millisecs: u64) -> (f:
        Self)
        ensures
            f@ == self@,
    {
        self
    }

    /// The same factory with another bin size.
    pub fn with_bin_size_secs(self, bin_size_secs: u32) -> (f: Self)
        ensures
            f@ == (EventSharingServiceAdapterFactoryView { bin_size_secs, ..self@ }),
    {
        let mut f = self;
        f.bin_size_secs = bin_size_secs;
        f
    }

    /// The same factory with another chunk size, which must be above 0.
    pub fn with_closed_bin_batch_size(self, batch_size: usize) -> (f: Self)
        requires
            batch_size > 0,
        ensures
            f@ == (EventSharingServiceAdapterFactoryView {
                max_events_per_bin_chunk: batch_size,
                ..self@
            }),
    {
        let mut f = self;
        f.max_events_per_bin_chunk = batch_size;
        f
    }

    /// The addresses of the service.
    pub fn ip(&self) -> (ip: &Vec<String>)
        ensures
            addresses_view(ip@) == self@.ip,
    {
        &self.ip
    }

    /// Whether connecting has been tried for long enough to give up.
    pub fn retry_exhausted(&self, elapsed_secs: u64) -> (give_up: bool)
        ensures
            give_up == (elapsed_secs >= self@.retry_time_seconds),
    {
        elapsed_secs >= self.retry_time_seconds
    }

    /// The adapter this factory makes: no bins yet, with its bin and chunk
    /// sizes.
    pub fn build_adapter(&self) -> (a: EventSharingServiceAdapter)
        ensures
            a@ == (EventSharingServiceAdapterView {
                bin_size_secs: self@.bin_size_secs,
                max_events_per_bin_chunk: self@.max_events_per_bin_chunk,
                oldest_unfinalized_bin_start: None,
                bins: Map::empty(),
                received_events_count: 0,
            }),
            a.wf(),
    {
        EventSharingServiceAdapter::new(self.bin_size_secs, self.max_events_per_bin_chunk)
    }
}

} // verus!
