//! Batches: items gathered and published together as one binary message.
use crate::contract::{Message, Route};
use crate::error::Error;
use core::time::Duration;
use std::time::Instant;
use vstd::prelude::*;

verus! {

#[verifier::external_type_specification]
#[verifier::external_body]
pub struct ExInstant(Instant);

/// `std::time::Instant::now`: the current instant. Nothing is stated of it;
/// it depends on the clock.
#[verifier::external_body]
fn now() -> Instant {
    Instant::now()
}

/// Items waiting to be published on `topic` as one message, once there are
/// `max_items` of them or `flush_interval` has passed since the last flush.
pub struct Batch<T> {
    pub topic: String,
    pub route: Route,
    pub items: Vec<T>,
    pub max_items: usize,
    pub flush_interval: Duration,
    pub last_flush: Instant,
}

/// An empty batch for `topic`, its interval counted from `at`.
pub fn create_batch_at<T>(
    topic: &str,
    route: Route,
    max_items: usize,
    flush_interval: Duration,
    at: Instant,
) -> (batch: Batch<T>)
    ensures
        batch.topic@ == topic@,
        batch.route == route,
        batch.items@.len() == 0,
        batch.max_items == max_items,
        batch.flush_interval == flush_interval,
        batch.last_flush == at,
{
    Batch { topic: String::from_str(topic), route, items: Vec::new(), max_items, flush_interval, last_flush: at }
}

/// An empty batch for `topic`, its interval counted from now (the clock's
/// reading is not stated).
pub fn create_batch<T>(topic: &str, route: Route, max_items: usize, flush_interval: Duration) -> (batch: Batch<T>)
    ensures
        batch.topic@ == topic@,
        batch.route == route,
        batch.items@.len() == 0,
        batch.max_items == max_items,
        batch.flush_interval == flush_interval,
{
    create_batch_at(topic, route, max_items, flush_interval, now())
}

/// Adds an item; says whether the batch is due to be flushed: it holds
/// `max_items` items or more, or its interval has passed.
pub fn add_to_batch<T>(batch: &mut Batch<T>, item: T, interval_elapsed: bool) -> (due: bool)
    ensures
        final(batch).items@ == old(batch).items@.push(item),
        due == (final(batch).items@.len() >= old(batch).max_items || interval_elapsed),
        final(batch).topic == old(batch).topic,
        final(batch).route == old(batch).route,
        final(batch).max_items == old(batch).max_items,
        final(batch).flush_interval == old(batch).flush_interval,
        final(batch).last_flush == old(batch).last_flush,
{
    batch.items.push(item);
    batch.items.len() >= batch.max_items || interval_elapsed
}

/// Whether the batch holds anything to publish.
pub fn has_items_to_flush<T>(batch: &Batch<T>) -> (some: bool)
    ensures
        some == (batch.items@.len() > 0),
{
    batch.items.len() > 0
}

/// After the batch's items were published at `at`: it is empty and its
/// interval starts again from `at`.
pub fn mark_batch_flushed_at<T>(batch: &mut Batch<T>, at: Instant)
    ensures
        final(batch).items@.len() == 0,
        final(batch).last_flush == at,
        final(batch).topic == old(batch).topic,
        final(batch).route == old(batch).route,
        final(batch).max_items == old(batch).max_items,
        final(batch).flush_interval == old(batch).flush_interval,
{
    batch.items.clear();
    batch.last_flush = at;
}

/// After the batch's items were published: it is empty and its interval
/// starts again now (the clock's reading is not stated).
pub fn mark_batch_flushed<T>(batch: &mut Batch<T>)
    ensures
        final(batch).items@.len() == 0,
        final(batch).topic == old(batch).topic,
        final(batch).route == old(batch).route,
        final(batch).max_items == old(batch).max_items,
        final(batch).flush_interval == old(batch).flush_interval,
{
    mark_batch_flushed_at(batch, now());
}

/// The binary payload a batch arrives in, or an error when the message
/// carries text.
pub fn batch_bytes(message: &Message) -> (bytes: Result<&[u8], Error>)
    ensures
        message.bytes is Some <==> bytes is Ok,
        bytes matches Ok(data) ==> data@ == message.bytes.unwrap()@,
        bytes matches Err(error) ==> error matches Error::Other(text) && text@ == "message has no binary payload"@,
{
    match &message.bytes {
        Some(data) => Ok(data.as_slice()),
        None => Err(Error::other("message has no binary payload")),
    }
}

} // verus!
