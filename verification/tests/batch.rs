use hearsay::batch::{
    add_to_batch, batch_bytes, create_batch, create_batch_at, has_items_to_flush, mark_batch_flushed, mark_batch_flushed_at,
};
use hearsay::lifecycle::{step_after_message, Interrupt, LifecycleStep};
use hearsay::{Error, Message, Route};
use std::time::{Duration, Instant};

#[test]
fn new_batch_is_empty() {
    let batch: hearsay::batch::Batch<u32> = create_batch("samples", Route::Global, 3, Duration::from_millis(100));
    assert_eq!(batch.topic, "samples");
    assert!(batch.items.is_empty());
    assert_eq!(batch.max_items, 3);
    assert_eq!(batch.flush_interval, Duration::from_millis(100));
    assert!(batch.last_flush.elapsed() < Duration::from_secs(60));
}

#[test]
fn batch_is_due_when_full_or_late() {
    let mut batch = create_batch("samples", Route::Local, 3, Duration::from_secs(3600));
    assert!(!add_to_batch(&mut batch, 1u32, false));
    assert!(!add_to_batch(&mut batch, 2u32, false));
    assert!(add_to_batch(&mut batch, 3u32, false));
    assert_eq!(batch.items, vec![1, 2, 3]);
    mark_batch_flushed(&mut batch);
    assert!(batch.items.is_empty());
    assert!(add_to_batch(&mut batch, 4u32, true));
}

#[test]
fn batch_arrives_as_binary_payload() {
    let message = Message::new_binary("samples".to_string(), vec![9, 8]);
    assert_eq!(batch_bytes(&message).ok(), Some(&[9u8, 8][..]));
}

#[test]
fn text_message_is_no_batch() {
    let message = Message::new_text("samples".to_string(), "[]".to_string());
    match batch_bytes(&message) {
        Err(Error::Other(text)) => assert_eq!(text, "message has no binary payload"),
        _ => panic!("expected an error"),
    }
}

#[test]
fn lifecycle_steps_follow_interrupts() {
    assert!(matches!(step_after_message(None), LifecycleStep::KeepReceiving));
    assert!(matches!(step_after_message(Some(Interrupt::UpdateImmediately)), LifecycleStep::UpdateNow));
    assert!(matches!(step_after_message(Some(Interrupt::Stop)), LifecycleStep::Stop));
}

#[test]
fn batch_intervals_restart_at_each_flush() {
    let start = Instant::now();
    let mut batch = create_batch_at::<u32>("numbers", Route::Global, 3, Duration::from_secs(1), start);
    assert_eq!(batch.last_flush, start);
    assert!(!has_items_to_flush(&batch));
    add_to_batch(&mut batch, 7, false);
    assert!(has_items_to_flush(&batch));
    let later = start + Duration::from_millis(1500);
    mark_batch_flushed_at(&mut batch, later);
    assert_eq!(batch.last_flush, later);
    assert!(batch.items.is_empty());
    assert!(!has_items_to_flush(&batch));
}
