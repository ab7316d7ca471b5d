//! What is sent: the body that carries one batch, the request around it,
//! and what the answer means.

use vstd::prelude::*;
use crate::contracts::{record_text, rfc3339_text, EncodeError, LogDataContract};
use crate::event::LogEvent;

verus! {

/// Where on the endpoint the events are posted.
#[derive(Clone, Copy, Debug, PartialEq, Eq, Structural)]
pub enum IngestRoute {
    /// The raw-events resource below the endpoint: `api/events/raw`.
    RawEvents,
    /// The endpoint itself, with no segment added.
    Bare,
}

/// How a delivery ended.
#[derive(Clone, Copy, Debug, PartialEq, Eq, Structural)]
pub enum DeliveryOutcome {
    Delivered,
    Failed,
}

/// Why a batch could not be encoded: the position of the first event that
/// has no record, and what is wrong with it.
#[derive(Clone, Copy, Debug, PartialEq, Eq, Structural)]
pub struct BodyError {
    pub event: usize,
    pub reason: EncodeError,
}

/// One HTTP POST, described for whoever sends it.
#[derive(Clone, Debug, PartialEq, Eq)]
pub struct DeliveryRequest {
    /// The endpoint as it was configured.
    pub url: String,
    /// The segments to append to the endpoint's path, in order.
    pub path_segments: Vec<&'static str>,
    /// The query parameter, without a value, that selects the format.
    pub query_param: &'static str,
    /// The header, name and value, that carries the credential.
    pub header: Option<(&'static str, String)>,
    pub body: Vec<u8>,
}

/// A request as mathematical values.
pub struct DeliveryRequestView {
    pub url: Seq<char>,
    pub path_segments: Seq<Seq<char>>,
    pub query_param: Seq<char>,
    pub header: Option<(Seq<char>, Seq<char>)>,
    pub body: Seq<u8>,
}

impl View for DeliveryRequest {
    type V = DeliveryRequestView;

    open spec fn view(&self) -> DeliveryRequestView {
        DeliveryRequestView {
            url: self.url@,
            path_segments: Seq::new(self.path_segments@.len(), |i: int| self.path_segments@[i]@),
            query_param: self.query_param@,
            header: match self.header {
                Some((name, value)) => Some((name@, value@)),
                None => None,
            },
            body: self.body@,
        }
    }
}

/// The body of a batch: the records of its events, one behind the other
/// with nothing between them. Where an event has no record, the position of
/// the first such event and the reason.
pub open spec fn body_text(app: Seq<char>, events: Seq<LogEvent>) -> Result<Seq<u8>, BodyError>
    decreases events.len(),
{
    if events.len() == 0 {
        Ok(Seq::empty())
    } else {
        match body_text(app, events.drop_last()) {
            Err(error) => Err(error),
            Ok(head) => match record_text(app, events.last()@) {
                Err(reason) => Err(BodyError { event: (events.len() - 1) as usize, reason }),
                Ok(record) => Ok(head + record),
            },
        }
    }
}

/// The path segments of a route.
pub open spec fn route_segments(route: IngestRoute) -> Seq<Seq<char>> {
    match route {
        IngestRoute::RawEvents => seq!["api"@, "events"@, "raw"@],
        IngestRoute::Bare => Seq::empty(),
    }
}

/// The request that delivers a body to `url`: the route's segments, the
/// `clef` marker, and the credential's header exactly where there is a
/// credential.
pub open spec fn request_for(
    url: Seq<char>,
    api_key: Option<Seq<char>>,
    route: IngestRoute,
    body: Seq<u8>,
) -> DeliveryRequestView {
    DeliveryRequestView {
        url,
        path_segments: route_segments(route),
        query_param: "clef"@,
        header: match api_key {
            Some(key) => Some(("X-Seq-ApiKey"@, key)),
            None => None,
        },
        body,
    }
}

/// What an answer means: a status from 200 to 299 is a delivery, any other
/// status and no status at all is a failure.
pub open spec fn outcome_of(status: Option<u16>) -> DeliveryOutcome {
    match status {
        Some(code) => if 200 <= code <= 299 {
            DeliveryOutcome::Delivered
        } else {
            DeliveryOutcome::Failed
        },
        None => DeliveryOutcome::Failed,
    }
}

/// Encodes a batch: one record per event, in the batch's order.
///
/// Fails exactly where an event has no record, naming the first such
/// event.
pub fn complie_body(app: &str, data: Vec<LogEvent>) -> (body: Result<Vec<u8>, BodyError>)
    ensures
        match body {
            Ok(bytes) => body_text(app@, data@) == Ok::<Seq<u8>, BodyError>(bytes@),
            Err(error) => body_text(app@, data@) == Err::<Seq<u8>, BodyError>(error),
        },
{
    let ghost events = data@;
    let events_amount = data.len();
    let mut result: Vec<u8> = Vec::new();
    let mut index: usize = 0;
    for log_data in it: data
        invariant
            it.seq() == events,
            events.len() == events_amount,
            index == it.index(),
            body_text(app@, events.take(index as int)) == Ok::<Seq<u8>, BodyError>(result@),
    {
        proof {
            let longer = events.take(index + 1);
            assert(longer.drop_last() =~= events.take(index as int));
            assert(longer.last() == log_data);
        }
        let contract = match LogDataContract::from(app, log_data) {
            Ok(contract) => contract,
            Err(reason) => {
                proof {
                    lemma_body_error_stays(app@, events, index + 1);
                }
                return Err(BodyError { event: index, reason });
            },
        };
        let mut item = contract.to_json();
        result.append(&mut item);
        index = index + 1;
    }
    assert(events.take(index as int) =~= events);
    Ok(result)
}

/// A batch has a body exactly where the calendar holds the moment of each
/// of its events: nothing else makes the encoding fail.
pub proof fn law_body_fails_only_on_a_moment_out_of_the_calendar(
    app: Seq<char>,
    events: Seq<LogEvent>,
)
    ensures
        body_text(app, events) is Ok <==> forall|i: int|
            0 <= i < events.len() ==> rfc3339_text((#[trigger] events[i])@.dt) is Some,
    decreases events.len(),
{
    if events.len() > 0 {
        let head = events.drop_last();
        law_body_fails_only_on_a_moment_out_of_the_calendar(app, head);
        if body_text(app, events) is Ok {
            assert forall|i: int| 0 <= i < events.len() implies rfc3339_text(
                (#[trigger] events[i])@.dt,
            ) is Some by {
                if i < events.len() - 1 {
                    assert(events[i] == head[i]);
                }
            }
        }
        if forall|i: int|
            0 <= i < events.len() ==> rfc3339_text((#[trigger] events[i])@.dt) is Some {
            assert forall|i: int| 0 <= i < head.len() implies rfc3339_text(
                (#[trigger] head[i])@.dt,
            ) is Some by {
                assert(head[i] == events[i]);
            }
            assert(rfc3339_text(events.last()@.dt) is Some);
        }
    }
}

/// An error among the first `n` events is the error of the whole batch.
pub proof fn lemma_body_error_stays(app: Seq<char>, events: Seq<LogEvent>, n: int)
    requires
        0 <= n <= events.len(),
        body_text(app, events.take(n)) is Err,
    ensures
        body_text(app, events) == body_text(app, events.take(n)),
    decreases events.len() - n,
{
    if n == events.len() {
        assert(events.take(n) =~= events);
    } else {
        let longer = events.take(n + 1);
        assert(longer.drop_last() =~= events.take(n));
        lemma_body_error_stays(app, events, n + 1);
    }
}

/// Describes the one POST that delivers `data`.
///
/// Fails exactly where the batch cannot be encoded.
pub fn delivery_request(
    url: &str,
    api_key: Option<&String>,
    app: &str,
    route: IngestRoute,
    data: Vec<LogEvent>,
) -> (request: Result<DeliveryRequest, BodyError>)
    ensures
        match request {
            Ok(request) => body_text(app@, data@) matches Ok(body) && request@ == request_for(
                url@,
                match api_key {
                    Some(key) => Some(key@),
                    None => None,
                },
                route,
                body,
            ),
            Err(error) => body_text(app@, data@) == Err::<Seq<u8>, BodyError>(error),
        },
{
    let body = match complie_body(app, data) {
        Ok(body) => body,
        Err(error) => {
            return Err(error);
        },
    };
    let mut path_segments: Vec<&'static str> = Vec::new();
    match route {
        IngestRoute::RawEvents => {
            path_segments.push("api");
            path_segments.push("events");
            path_segments.push("raw");
        },
        IngestRoute::Bare => {},
    }
    let header = match api_key {
        Some(key) => Some(("X-Seq-ApiKey", key.clone())),
        None => None,
    };
    let request = DeliveryRequest {
        url: url.to_owned(),
        path_segments,
        query_param: "clef",
        header,
        body,
    };
    assert(request@.path_segments =~= route_segments(route));
    Ok(request)
}

/// Tells what an answer means.
pub fn delivery_outcome(status: Option<u16>) -> (outcome: DeliveryOutcome)
    ensures
        outcome == outcome_of(status),
{
    match status {
        Some(code) => if 200 <= code && code <= 299 {
            DeliveryOutcome::Delivered
        } else {
            DeliveryOutcome::Failed
        },
        None => DeliveryOutcome::Failed,
    }
}

} // verus!
