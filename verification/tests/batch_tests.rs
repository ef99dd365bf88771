use rolling_volatility::batch::fetch_step;
use rolling_volatility::batch::BatchAction;
use rolling_volatility::batch::FetchEvent;
use rolling_volatility::batch::FetchStep;
use rolling_volatility::batch::LogBatch;
use rolling_volatility::batch::LogEvent;
use rolling_volatility::batch::FETCH_RETRY_SECS;

fn swap_log(sqrt_price: u128) -> LogEvent {
    let mut data = vec![0u8; 160];
    data[80..96].copy_from_slice(&sqrt_price.to_be_bytes());
    LogEvent::Log(data)
}

#[test]
fn batch_ends_at_its_limit() {
    let mut batch = LogBatch::new(2);
    assert_eq!(batch.step(swap_log(11)), BatchAction::Send(11));
    assert_eq!(batch.step(LogEvent::Delivered), BatchAction::Read);
    assert_eq!(batch.processed(), 1);
    assert!(!batch.is_done());
    assert_eq!(batch.step(swap_log(12)), BatchAction::Send(12));
    assert_eq!(batch.step(LogEvent::Delivered), BatchAction::Finish(2));
    assert_eq!(batch.processed(), 2);
    assert!(batch.is_done());
    assert_eq!(batch.step(swap_log(13)), BatchAction::Ignore);
    assert_eq!(batch.processed(), 2);
}

#[test]
fn batch_of_ten() {
    let mut batch = LogBatch::new(10);
    for i in 1..=10usize {
        assert_eq!(batch.step(swap_log(i as u128)), BatchAction::Send(i as u128));
        let expected = if i < 10 { BatchAction::Read } else { BatchAction::Finish(10) };
        assert_eq!(batch.step(LogEvent::Delivered), expected);
        assert_eq!(batch.processed(), i);
    }
    assert!(batch.is_done());
}

#[test]
fn limit_of_zero_ends_after_the_first_delivery() {
    let mut batch = LogBatch::new(0);
    assert!(!batch.is_done());
    assert_eq!(batch.step(swap_log(5)), BatchAction::Send(5));
    assert_eq!(batch.step(LogEvent::Delivered), BatchAction::Finish(1));
    assert!(batch.is_done());
}

#[test]
fn undelivered_price_is_uncounted_and_reading_goes_on() {
    let mut batch = LogBatch::new(5);
    batch.step(swap_log(1));
    batch.step(LogEvent::Delivered);
    assert_eq!(batch.step(swap_log(2)), BatchAction::Send(2));
    assert_eq!(batch.step(LogEvent::Undelivered), BatchAction::Read);
    assert!(!batch.is_done());
    assert_eq!(batch.processed(), 1);
    // The batch is still served afterwards.
    assert_eq!(batch.step(swap_log(3)), BatchAction::Send(3));
    assert_eq!(batch.step(LogEvent::Delivered), BatchAction::Read);
    assert_eq!(batch.processed(), 2);
}

#[test]
fn batch_without_a_receiver_reads_to_the_end_of_the_subscription() {
    let mut batch = LogBatch::new(2);
    for i in 0..20u128 {
        assert_eq!(batch.step(swap_log(i)), BatchAction::Send(i));
        assert_eq!(batch.step(LogEvent::Undelivered), BatchAction::Read);
        assert_eq!(batch.processed(), 0);
        assert!(!batch.is_done());
    }
    assert_eq!(batch.step(LogEvent::Ended), BatchAction::Finish(0));
    assert!(batch.is_done());
}

#[test]
fn undelivered_price_at_a_limit_of_zero_does_not_end_the_batch() {
    let mut batch = LogBatch::new(0);
    assert_eq!(batch.step(swap_log(5)), BatchAction::Send(5));
    assert_eq!(batch.step(LogEvent::Undelivered), BatchAction::Read);
    assert!(!batch.is_done());
    assert_eq!(batch.step(swap_log(6)), BatchAction::Send(6));
    assert_eq!(batch.step(LogEvent::Delivered), BatchAction::Finish(1));
}

#[test]
fn undecodable_log_is_skipped() {
    let mut batch = LogBatch::new(5);
    assert_eq!(batch.step(LogEvent::Log(vec![0u8; 100])), BatchAction::Read);
    assert_eq!(batch.step(LogEvent::Log(vec![0xff; 160])), BatchAction::Read);
    assert_eq!(batch.step(LogEvent::Log(Vec::new())), BatchAction::Read);
    assert_eq!(batch.step(LogEvent::Unreadable), BatchAction::Read);
    assert_eq!(batch.processed(), 0);
    assert!(!batch.is_done());
    assert_eq!(batch.step(swap_log(9)), BatchAction::Send(9));
}

#[test]
fn end_of_subscription_finishes_the_batch() {
    let mut batch = LogBatch::new(5);
    batch.step(swap_log(1));
    batch.step(LogEvent::Delivered);
    assert_eq!(batch.step(LogEvent::Ended), BatchAction::Finish(1));
    assert!(batch.is_done());
    let mut batch = LogBatch::new(5);
    assert_eq!(batch.step(LogEvent::Ended), BatchAction::Finish(0));
}

#[test]
fn batch_events_out_of_phase_are_ignored() {
    let mut batch = LogBatch::new(5);
    assert_eq!(batch.step(LogEvent::Delivered), BatchAction::Ignore);
    assert_eq!(batch.step(LogEvent::Undelivered), BatchAction::Ignore);
    assert_eq!(batch.processed(), 0);
    batch.step(swap_log(3));
    assert_eq!(batch.step(swap_log(4)), BatchAction::Ignore);
    assert_eq!(batch.step(LogEvent::Unreadable), BatchAction::Ignore);
    assert_eq!(batch.step(LogEvent::Ended), BatchAction::Ignore);
    assert_eq!(batch.step(LogEvent::Delivered), BatchAction::Read);
    assert_eq!(batch.processed(), 1);
}

#[test]
fn failed_batch_is_followed_by_the_retry_pause() {
    assert_eq!(FETCH_RETRY_SECS, 10);
    assert_eq!(fetch_step(true, FetchEvent::BatchFailed), FetchStep::Pause(10));
    assert_eq!(fetch_step(false, FetchEvent::BatchFailed), FetchStep::Pause(10));
}

#[test]
fn task_fetches_while_it_runs() {
    assert_eq!(fetch_step(true, FetchEvent::Wake), FetchStep::Fetch);
    assert_eq!(fetch_step(true, FetchEvent::BatchDone), FetchStep::Fetch);
    assert_eq!(fetch_step(false, FetchEvent::Wake), FetchStep::Stop);
    assert_eq!(fetch_step(false, FetchEvent::BatchDone), FetchStep::Stop);
}
