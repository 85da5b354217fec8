//! The event gateway.

use bbtop::gateway::{
    handle_delivery, handle_event, record_of, register_metrics, Answer, Delivery, Enqueued,
};

#[test]
fn the_error_counter_starts_at_zero() {
    let registration = register_metrics();
    assert_eq!(registration.name, "gateway_errors_total");
    assert_eq!(registration.help, "Total number of errors");
    assert_eq!(registration.value, 0);
}

#[test]
fn an_event_is_sent_on_as_it_came() {
    let record = record_of(vec![0, 159, 146, 150]);
    assert_eq!(record.topic, "events");
    assert_eq!(record.payload, vec![0, 159, 146, 150]);
}

#[test]
fn answers_by_the_queue_and_counts_what_is_lost() {
    assert_eq!(handle_event(Enqueued::Queued), Answer { status: 202, errors: 0 });
    assert_eq!(handle_event(Enqueued::Refused), Answer { status: 503, errors: 1 });
    assert_eq!(handle_delivery(Delivery::Delivered), 0);
    assert_eq!(handle_delivery(Delivery::Failed), 1);
    assert_eq!(handle_delivery(Delivery::Canceled), 1);
}
