//! Requests to the routing service: the route request payload, its wire
//! message, and the reply turned into an alternating plan of legs and
//! activities.

use itertools::{EitherOrBoth, Itertools};
use vstd::prelude::*;

use crate::ieee::{f64_bits_eq, f64_bits_is_nan, spec_f64_bits_eq};

verus! {

/// A route request of one agent. The coordinates are held as the bit
/// patterns of their doubles (`f64::to_bits`); `uuid` holds the request's
/// identifier as its 16 bytes.
pub struct InternalRoutingRequestPayload {
    pub person_id: String,
    pub from_link: String,
    pub from_x_bits: u64,
    pub from_y_bits: u64,
    pub to_link: String,
    pub to_x_bits: u64,
    pub to_y_bits: u64,
    pub mode: String,
    pub departure_time: u32,
    pub now: u32,
    pub route_call_start_realtime: i64,
    pub adapter_sent_request_grpc: Option<i64>,
    pub uuid: Vec<u8>,
}

/// Two requests ask for the same route: equal strings, equal coordinates as
/// doubles, equal times.
pub open spec fn spec_routing_equals_ignoring_uuid(
    a: InternalRoutingRequestPayload,
    b: InternalRoutingRequestPayload,
) -> bool {
    &&& a.person_id@ == b.person_id@
    &&& a.from_link@ == b.from_link@
    &&& spec_f64_bits_eq(a.from_x_bits, b.from_x_bits)
    &&& spec_f64_bits_eq(a.from_y_bits, b.from_y_bits)
    &&& a.to_link@ == b.to_link@
    &&& spec_f64_bits_eq(a.to_x_bits, b.to_x_bits)
    &&& spec_f64_bits_eq(a.to_y_bits, b.to_y_bits)
    &&& a.mode@ == b.mode@
    &&& a.departure_time == b.departure_time
    &&& a.now == b.now
    &&& a.route_call_start_realtime == b.route_call_start_realtime
}

impl InternalRoutingRequestPayload {
    /// Compares two requests, leaving out their identifiers and the adapter's
    /// send stamp.
    pub fn equals_ignoring_uuid(&self, other: &Self) -> (eq: bool)
        ensures
            eq == spec_routing_equals_ignoring_uuid(*self, *other),
    {
        self.person_id == other.person_id && self.from_link == other.from_link && f64_bits_eq(
            self.from_x_bits,
            other.from_x_bits,
        ) && f64_bits_eq(self.from_y_bits, other.from_y_bits) && self.to_link == other.to_link
            && f64_bits_eq(self.to_x_bits, other.to_x_bits) && f64_bits_eq(
            self.to_y_bits,
            other.to_y_bits,
        ) && self.mode == other.mode && self.departure_time == other.departure_time && self.now
            == other.now && self.route_call_start_realtime == other.route_call_start_realtime
    }
}

/// Two route requests compare equal exactly when they are for the same
/// person, the same links and travel mode (as text), coordinates equal as
/// doubles, and the same departure time, simulation time and route-call
/// start; their identifiers and adapter send stamps play no part.
pub proof fn law_route_equality_compares_request(
    a: InternalRoutingRequestPayload,
    b: InternalRoutingRequestPayload,
)
    ensures
        spec_routing_equals_ignoring_uuid(a, b) <==> {
            &&& a.person_id@ == b.person_id@
            &&& a.from_link@ == b.from_link@
            &&& a.to_link@ == b.to_link@
            &&& a.mode@ == b.mode@
            &&& spec_f64_bits_eq(a.from_x_bits, b.from_x_bits)
            &&& spec_f64_bits_eq(a.from_y_bits, b.from_y_bits)
            &&& spec_f64_bits_eq(a.to_x_bits, b.to_x_bits)
            &&& spec_f64_bits_eq(a.to_y_bits, b.to_y_bits)
            &&& a.departure_time == b.departure_time
            &&& a.now == b.now
            &&& a.route_call_start_realtime == b.route_call_start_realtime
        },
{
}

/// One of the request's coordinates is a NaN.
pub open spec fn has_nan_coordinate(p: InternalRoutingRequestPayload) -> bool {
    f64_bits_is_nan(p.from_x_bits) || f64_bits_is_nan(p.from_y_bits) || f64_bits_is_nan(
        p.to_x_bits,
    ) || f64_bits_is_nan(p.to_y_bits)
}

/// Comparing requests this way is symmetric, and a request equals itself
/// unless a coordinate is a NaN, whatever its identifier and adapter send
/// stamp.
pub proof fn law_route_equality_symmetric_and_reflexive(
    a: InternalRoutingRequestPayload,
    b: InternalRoutingRequestPayload,
)
    ensures
        spec_routing_equals_ignoring_uuid(a, b) == spec_routing_equals_ignoring_uuid(b, a),
        spec_routing_equals_ignoring_uuid(a, a) == !has_nan_coordinate(a),
        !has_nan_coordinate(a) ==> spec_routing_equals_ignoring_uuid(
            a,
            InternalRoutingRequestPayload {
                uuid: b.uuid,
                adapter_sent_request_grpc: b.adapter_sent_request_grpc,
                ..a
            },
        ),
{
}

/// The wire message of a route request.
pub struct Request {
    pub person_id: String,
    pub from_link_id: String,
    pub from_x_bits: u64,
    pub from_y_bits: u64,
    pub to_link_id: String,
    pub to_x_bits: u64,
    pub to_y_bits: u64,
    pub mode: String,
    pub departure_time: u32,
    pub now: u32,
    pub request_id: Vec<u8>,
    pub route_call_start_realtime: Option<i64>,
    pub rust_adapter_sent_request_grpc: Option<i64>,
}

impl Request {
    /// The wire message of a route request; a missing adapter send stamp is
    /// sent as 0.
    pub fn from_payload(req: InternalRoutingRequestPayload) -> (r: Request)
        ensures
            r.person_id == req.person_id,
            r.from_link_id == req.from_link,
            r.from_x_bits == req.from_x_bits,
            r.from_y_bits == req.from_y_bits,
            r.to_link_id == req.to_link,
            r.to_x_bits == req.to_x_bits,
            r.to_y_bits == req.to_y_bits,
            r.mode == req.mode,
            r.departure_time == req.departure_time,
            r.now == req.now,
            r.request_id@ == req.uuid@,
            r.route_call_start_realtime == Some(req.route_call_start_realtime),
            r.rust_adapter_sent_request_grpc == Some(
                match req.adapter_sent_request_grpc {
                    Some(t) => t,
                    None => 0i64,
                },
            ),
    {
        let sent = match req.adapter_sent_request_grpc {
            Some(t) => t,
            None => 0,
        };
        Request {
            person_id: req.person_id,
            from_link_id: req.from_link,
            from_x_bits: req.from_x_bits,
            from_y_bits: req.from_y_bits,
            to_link_id: req.to_link,
            to_x_bits: req.to_x_bits,
            to_y_bits: req.to_y_bits,
            mode: req.mode,
            departure_time: req.departure_time,
            now: req.now,
            request_id: req.uuid,
            route_call_start_realtime: Some(req.route_call_start_realtime),
            rust_adapter_sent_request_grpc: Some(sent),
        }
    }
}

/// The routing service's reply: the legs and activities of the route, as
/// the caller has converted them, and the request's identifier.
pub struct Response<L, A> {
    pub legs: Vec<L>,
    pub activities: Vec<A>,
    pub request_id: Vec<u8>,
    pub java_routing_service_sent_response_grpc: Option<i64>,
}

/// One element of a plan.
pub enum InternalPlanElement<L, A> {
    Leg(L),
    Activity(A),
}

/// A leg and an activity at the same position, or the one that is left over.
pub enum LegActivityPair<L, A> {
    Both(L, A),
    LegOnly(L),
    ActivityOnly(A),
}

/// The pair at position `i` of two sequences walked side by side.
pub open spec fn pair_at<L, A>(legs: Seq<L>, activities: Seq<A>, i: int) -> LegActivityPair<L, A> {
    if i < legs.len() && i < activities.len() {
        LegActivityPair::Both(legs[i], activities[i])
    } else if i < legs.len() {
        LegActivityPair::LegOnly(legs[i])
    } else {
        LegActivityPair::ActivityOnly(activities[i])
    }
}

/// `itertools::Itertools::zip_longest` on the legs and activities: as many
/// pairs as the longer sequence has elements, pair `i` holding element `i`
/// of each sequence that has one.
#[verifier::external_body]
fn zip_longest_legs<L, A>(legs: Vec<L>, activities: Vec<A>) -> (pairs: Vec<LegActivityPair<L, A>>)
    ensures
        pairs@.len() == if legs@.len() >= activities@.len() {
            legs@.len()
        } else {
            activities@.len()
        },
        forall|i: int| 0 <= i < pairs@.len() ==> #[trigger] pairs@[i] == pair_at(legs@, activities@, i),
{
    legs.into_iter().zip_longest(activities).map(|p| match p {
        EitherOrBoth::Both(l, a) => LegActivityPair::Both(l, a),
        EitherOrBoth::Left(l) => LegActivityPair::LegOnly(l),
        EitherOrBoth::Right(a) => LegActivityPair::ActivityOnly(a),
    }).collect()
}

/// The plan of a route: legs and activities alternate, leg first, while
/// both last; the legs left over follow.
pub open spec fn is_interleaved_plan<L, A>(
    elements: Seq<InternalPlanElement<L, A>>,
    legs: Seq<L>,
    activities: Seq<A>,
) -> bool {
    &&& elements.len() == legs.len() + activities.len()
    &&& forall|i: int|
        0 <= i < activities.len() ==> #[trigger] elements[2 * i] == InternalPlanElement::<L, A>::Leg(
            legs[i],
        ) && elements[2 * i + 1] == InternalPlanElement::<L, A>::Activity(activities[i])
    &&& forall|j: int|
        activities.len() <= j < legs.len() ==> elements[activities.len() + j]
            == InternalPlanElement::<L, A>::Leg(#[trigger] legs[j])
}

/// The routing service's reply as the simulation takes it.
pub struct InternalRoutingResponse<L, A> {
    pub elements: Vec<InternalPlanElement<L, A>>,
    pub request_id: Vec<u8>,
    pub adapter_received_request_agent: Option<i64>,
    pub adapter_sent_request_grpc: Option<i64>,
    pub java_routing_service_sent_response_grpc: Option<i64>,
    pub adapter_received_response_grpc: Option<i64>,
    pub adapter_sent_response_agent: Option<i64>,
}

impl<L, A> InternalRoutingResponse<L, A> {
    /// Turns the reply into a plan. A reply must not end with an activity:
    /// it has at most as many activities as legs, and a 16-byte identifier.
    pub fn from_response(value: Response<L, A>) -> (r: Self)
        requires
            value.activities@.len() <= value.legs@.len(),
            value.request_id@.len() == 16,
        ensures
            is_interleaved_plan(r.elements@, value.legs@, value.activities@),
            r.request_id@ == value.request_id@,
            r.adapter_received_request_agent is None,
            r.adapter_sent_request_grpc is None,
            r.java_routing_service_sent_response_grpc == Some(
                match value.java_routing_service_sent_response_grpc {
                    Some(t) => t,
                    None => 0i64,
                },
            ),
            r.adapter_received_response_grpc is None,
            r.adapter_sent_response_agent is None,
    {
        let Response { legs, activities, request_id, java_routing_service_sent_response_grpc } =
            value;
        let ghost ls = legs@;
        let ghost acts = activities@;
        let pairs = zip_longest_legs(legs, activities);
        let mut elements: Vec<InternalPlanElement<L, A>> = Vec::new();
        for p in it: pairs
            invariant
                it.seq() == pairs@,
                pairs@.len() == ls.len(),
                acts.len() <= ls.len(),
                forall|i: int| 0 <= i < pairs@.len() ==> #[trigger] pairs@[i] == pair_at(ls, acts, i),
                elements@.len() == it.index() + if it.index() < acts.len() {
                    it.index() as int
                } else {
                    acts.len() as int
                },
                forall|i: int|
                    0 <= i < acts.len() && i < it.index() ==> #[trigger] elements@[2 * i]
                        == InternalPlanElement::<L, A>::Leg(ls[i]) && elements@[2 * i + 1]
                        == InternalPlanElement::<L, A>::Activity(acts[i]),
                forall|j: int|
                    acts.len() <= j < it.index() ==> elements@[acts.len() + j]
                        == InternalPlanElement::<L, A>::Leg(#[trigger] ls[j]),
        {
            let ghost k = it.index();
            assert(p == pair_at(ls, acts, k));
            match p {
                LegActivityPair::Both(l, a) => {
                    elements.push(InternalPlanElement::Leg(l));
                    elements.push(InternalPlanElement::Activity(a));
                },
                LegActivityPair::LegOnly(l) => {
                    elements.push(InternalPlanElement::Leg(l));
                },
                LegActivityPair::ActivityOnly(_) => {
                    assert(false);
                },
            }
        }
        let java = match java_routing_service_sent_response_grpc {
            Some(t) => t,
            None => 0,
        };
        InternalRoutingResponse {
            elements,
            request_id,
            adapter_received_request_agent: None,
            adapter_sent_request_grpc: None,
            java_routing_service_sent_response_grpc: Some(java),
            adapter_received_response_grpc: None,
            adapter_sent_response_agent: None,
        }
    }
}

impl<L, A> InternalRoutingResponse<L, A> {
    /// Adds the adapter's measurement stamps to a reply.
    pub fn stamp_measurements(
        &mut self,
        adapter_received_request_agent: Option<i64>,
        adapter_sent_request_grpc: Option<i64>,
        adapter_received_response_grpc: Option<i64>,
        adapter_sent_response_agent: Option<i64>,
    )
        ensures
            final(self).elements == old(self).elements,
            final(self).request_id == old(self).request_id,
            final(self).java_routing_service_sent_response_grpc == old(
                self,
            ).java_routing_service_sent_response_grpc,
            final(self).adapter_received_request_agent == adapter_received_request_agent,
            final(self).adapter_sent_request_grpc == adapter_sent_request_grpc,
            final(self).adapter_received_response_grpc == adapter_received_response_grpc,
            final(self).adapter_sent_response_agent == adapter_sent_response_agent,
    {
        self.adapter_received_request_agent = adapter_received_request_agent;
        self.adapter_sent_request_grpc = adapter_sent_request_grpc;
        self.adapter_received_response_grpc = adapter_received_response_grpc;
        self.adapter_sent_response_agent = adapter_sent_response_agent;
    }
}

/// A measurement stamp: the time, when measuring.
pub fn measurement_stamp(full_measurement: bool, now: i64) -> (s: Option<i64>)
    ensures
        s == if full_measurement {
            Some(now)
        } else {
            None
        },
{
    if full_measurement {
        Some(now)
    } else {
        None
    }
}

/// The characters of each address.
pub open spec fn addresses_view(ip: Seq<String>) -> Seq<Seq<char>> {
    ip.map_values(|s: String| s@)
}

/// Makes routing adapters: the addresses of the routing service and how
/// long to keep trying to connect.
pub struct RoutingServiceAdapterFactory {
    ip: Vec<String>,
    retry_time_seconds: u64,
}

impl RoutingServiceAdapterFactory {
    pub closed spec fn spec_ip(&self) -> Seq<Seq<char>> {
        addresses_view(self.ip@)
    }

    pub closed spec fn spec_retry_time_seconds(&self) -> u64 {
        self.retry_time_seconds
    }

    /// A factory for the service at these addresses.
    pub fn new(ip: Vec<String>, retry_time_seconds: u64) -> (f: Self)
        ensures
            f.spec_ip() == addresses_view(ip@),
            f.spec_retry_time_seconds() == retry_time_seconds,
    {
        RoutingServiceAdapterFactory { ip, retry_time_seconds }
    }

    /// The addresses of the service.
    pub fn ip(&self) -> (ip: &Vec<String>)
        ensures
            addresses_view(ip@) == self.spec_ip(),
    {
        &self.ip
    }

    /// Whether connecting has been tried for long enough to give up.
    pub fn retry_exhausted(&self, elapsed_secs: u64) -> (give_up: bool)
        ensures
            give_up == (elapsed_secs >= self.spec_retry_time_seconds()),
    {
        elapsed_secs >= self.retry_time_seconds
    }
}

} // verus!
