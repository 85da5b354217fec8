//! The event gateway: what it sends on, what it answers, and what it counts.

use vstd::prelude::*;

verus! {

/// A counter as it is registered before anything is counted.
pub struct Registration {
    pub name: &'static str,
    pub help: &'static str,
    pub value: u64,
}

/// The counter of errors, registered at zero, so that it is there before the first
/// error.
pub fn register_metrics() -> (r: Registration)
    ensures
        r.name@ == "gateway_errors_total"@,
        r.help@ == "Total number of errors"@,
        r.value == 0,
{
    Registration { name: "gateway_errors_total", help: "Total number of errors", value: 0 }
}

/// A record for the event log.
pub struct Record {
    pub topic: &'static str,
    pub payload: Vec<u8>,
}

/// The record of an event: one request is one event and one record, and its body
/// is sent on as it came.
pub fn record_of(body: Vec<u8>) -> (r: Record)
    ensures
        r.topic@ == "events"@,
        r.payload@ == body@,
{
    Record { topic: "events", payload: body }
}

/// What became of a record that was handed to the event log's queue.
#[derive(Clone, Copy, Debug, PartialEq, Eq, Structural)]
pub enum Enqueued {
    /// It waits for its delivery.
    Queued,
    /// The queue did not take it.
    Refused,
}

/// What became of a record that waited for its delivery.
#[derive(Clone, Copy, Debug, PartialEq, Eq, Structural)]
pub enum Delivery {
    Delivered,
    Failed,
    /// The delivery was given up before it was known.
    Canceled,
}

/// The answer to a request: an HTTP status, and how much the count of errors grows.
#[derive(Clone, Copy, Debug, PartialEq, Eq, Structural)]
pub struct Answer {
    pub status: u16,
    pub errors: u64,
}

/// The answer to a request. An event that was queued is accepted; one that was not
/// is an error, and the sender may try it again.
pub open spec fn answer_of(enqueued: Enqueued) -> Answer {
    match enqueued {
        Enqueued::Queued => Answer { status: 202, errors: 0 },
        Enqueued::Refused => Answer { status: 503, errors: 1 },
    }
}

/// The answer to a request.
pub fn handle_event(enqueued: Enqueued) -> (r: Answer)
    ensures
        r == answer_of(enqueued),
{
    match enqueued {
        Enqueued::Queued => Answer { status: 202, errors: 0 },
        Enqueued::Refused => Answer { status: 503, errors: 1 },
    }
}

/// How much the count of errors grows with a delivery.
pub open spec fn delivery_errors(delivery: Delivery) -> u64 {
    match delivery {
        Delivery::Delivered => 0,
        Delivery::Failed => 1,
        Delivery::Canceled => 1,
    }
}

/// How much the count of errors grows with a delivery.
pub fn handle_delivery(delivery: Delivery) -> (r: u64)
    ensures
        r == delivery_errors(delivery),
{
    match delivery {
        Delivery::Delivered => 0,
        Delivery::Failed => 1,
        Delivery::Canceled => 1,
    }
}

/// Whether a status says that the event was taken.
pub open spec fn successful(status: u16) -> bool {
    200 <= status < 300
}

/// Whether a status makes the sender drop the event for good.
pub open spec fn permanent(status: u16) -> bool {
    status == 400 || status == 409 || status == 413 || status == 415 || status == 422
}

/// An event is answered with success just if it was queued, and an event that was
/// not is never lost to a permanent refusal.
pub proof fn law_a_refused_event_can_be_sent_again(enqueued: Enqueued)
    ensures
        successful(answer_of(enqueued).status) <==> enqueued == Enqueued::Queued,
        !permanent(answer_of(enqueued).status),
{
}

/// Every event that is lost is counted once: at its refusal, or at its delivery.
pub proof fn law_a_lost_event_is_counted_once(enqueued: Enqueued, delivery: Delivery)
    ensures
        enqueued == Enqueued::Refused ==> answer_of(enqueued).errors == 1,
        enqueued == Enqueued::Queued ==> answer_of(enqueued).errors + delivery_errors(delivery)
            == if delivery == Delivery::Delivered {
            0int
        } else {
            1
        },
{
}

} // verus!
