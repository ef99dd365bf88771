//! Batches of swap logs: how many prices one subscription hands on before it
//! ends, and what the fetching task does between two batches.
//!
//! As with the supervisor, the batch decides and its caller acts.

use crate::decoder::decode_sqrt_price;
use crate::decoder::sqrt_price_of;
use vstd::prelude::*;

verus! {

/// The pause after a batch that failed, in seconds.
pub const FETCH_RETRY_SECS: u64 = 10;

/// Where a batch stands.
#[derive(Clone, Copy, PartialEq, Eq, Structural, Debug)]
pub enum BatchPhase {
    /// Waiting for the next log.
    Reading,
    /// A price was handed out and its delivery is awaited.
    Sending,
    /// The batch is over.
    Done,
}

/// What the caller reports to the batch.
#[derive(Debug, PartialEq, Eq)]
pub enum LogEvent {
    /// A log arrived, with this data.
    Log(Vec<u8>),
    /// Reading a log failed.
    Unreadable,
    /// The price handed out last was delivered.
    Delivered,
    /// The price handed out last found no receiver. The price is not
    /// counted, and reading goes on.
    Undelivered,
    /// The subscription ended.
    Ended,
}

/// What the batch asks of its caller.
#[derive(Clone, Copy, PartialEq, Eq, Structural, Debug)]
pub enum BatchAction {
    /// Nothing: the event does not belong to the current phase.
    Ignore,
    /// Read the next log.
    Read,
    /// Send this square-root price, then report whether it was delivered.
    Send(u128),
    /// Stop; this many prices were delivered.
    Finish(usize),
}

/// The state of a batch: its phase, the prices delivered so far, and the
/// number of deliveries at which it ends.
pub struct BatchStatus {
    pub phase: BatchPhase,
    pub processed: usize,
    pub limit: usize,
}

/// The state that follows `status` on `event`.
pub open spec fn next_batch_status(status: BatchStatus, event: LogEvent) -> BatchStatus {
    match (status.phase, event) {
        (BatchPhase::Reading, LogEvent::Log(data)) => if sqrt_price_of(data@) is Some {
            BatchStatus { phase: BatchPhase::Sending, ..status }
        } else {
            status
        },
        (BatchPhase::Reading, LogEvent::Ended) => BatchStatus { phase: BatchPhase::Done, ..status },
        (BatchPhase::Sending, LogEvent::Delivered) => BatchStatus {
            phase: if status.processed + 1 >= status.limit {
                BatchPhase::Done
            } else {
                BatchPhase::Reading
            },
            processed: (status.processed + 1) as usize,
            limit: status.limit,
        },
        (BatchPhase::Sending, LogEvent::Undelivered) => BatchStatus {
            phase: BatchPhase::Reading,
            ..status
        },
        _ => status,
    }
}

/// What the batch asks for when `event` arrives in `status`.
pub open spec fn batch_action(status: BatchStatus, event: LogEvent) -> BatchAction {
    match (status.phase, event) {
        (BatchPhase::Reading, LogEvent::Log(data)) => match sqrt_price_of(data@) {
            Some(price) => BatchAction::Send(price),
            None => BatchAction::Read,
        },
        (BatchPhase::Reading, LogEvent::Unreadable) => BatchAction::Read,
        (BatchPhase::Reading, LogEvent::Ended) => BatchAction::Finish(status.processed),
        (BatchPhase::Sending, LogEvent::Delivered) => if status.processed + 1 >= status.limit {
            BatchAction::Finish((status.processed + 1) as usize)
        } else {
            BatchAction::Read
        },
        (BatchPhase::Sending, LogEvent::Undelivered) => BatchAction::Read,
        _ => BatchAction::Ignore,
    }
}

/// One batch of logs read from a subscription.
pub struct LogBatch {
    phase: BatchPhase,
    processed: usize,
    limit: usize,
}

impl View for LogBatch {
    type V = BatchStatus;

    closed spec fn view(&self) -> BatchStatus {
        BatchStatus { phase: self.phase, processed: self.processed, limit: self.limit }
    }
}

impl LogBatch {
    /// A batch that goes on can still count one more delivery.
    #[verifier::type_invariant]
    spec fn can_count(self) -> bool {
        self.phase != BatchPhase::Done ==> self.processed < usize::MAX
    }

    /// A batch that ends once `max_logs_per_batch` prices were delivered,
    /// and after the first delivery where that number is zero.
    pub fn new(max_logs_per_batch: usize) -> (batch: Self)
        ensures
            batch@ == (BatchStatus {
                phase: BatchPhase::Reading,
                processed: 0,
                limit: max_logs_per_batch,
            }),
    {
        LogBatch { phase: BatchPhase::Reading, processed: 0, limit: max_logs_per_batch }
    }

    /// Takes in `event` and says what to do next.
    pub fn step(&mut self, event: LogEvent) -> (action: BatchAction)
        ensures
            final(self)@ == next_batch_status(old(self)@, event),
            action == batch_action(old(self)@, event),
    {
        proof {
            use_type_invariant(&*self);
        }
        match self.phase {
            BatchPhase::Reading => match event {
                LogEvent::Log(data) => match decode_sqrt_price(data.as_slice()) {
                    Some(price) => {
                        self.phase = BatchPhase::Sending;
                        BatchAction::Send(price)
                    },
                    None => BatchAction::Read,
                },
                LogEvent::Unreadable => BatchAction::Read,
                LogEvent::Ended => {
                    self.phase = BatchPhase::Done;
                    BatchAction::Finish(self.processed)
                },
                _ => BatchAction::Ignore,
            },
            BatchPhase::Sending => match event {
                LogEvent::Delivered => {
                    let processed = self.processed + 1;
                    if processed >= self.limit {
                        *self = LogBatch { phase: BatchPhase::Done, processed, limit: self.limit };
                        BatchAction::Finish(processed)
                    } else {
                        *self = LogBatch {
                            phase: BatchPhase::Reading,
                            processed,
                            limit: self.limit,
                        };
                        BatchAction::Read
                    }
                },
                LogEvent::Undelivered => {
                    self.phase = BatchPhase::Reading;
                    BatchAction::Read
                },
                _ => BatchAction::Ignore,
            },
            BatchPhase::Done => BatchAction::Ignore,
        }
    }

    /// How many prices were delivered so far.
    pub fn processed(&self) -> (count: usize)
        ensures
            count == self@.processed,
    {
        self.processed
    }

    /// Whether the batch is over.
    pub fn is_done(&self) -> (done: bool)
        ensures
            done == (self@.phase == BatchPhase::Done),
    {
        self.phase == BatchPhase::Done
    }
}

/// A price that finds no receiver does not end the batch: it stays
/// uncounted, and the batch asks for the next log.
pub proof fn lemma_undelivered_price_is_absorbed(status: BatchStatus)
    requires
        status.phase == BatchPhase::Sending,
    ensures
        batch_action(status, LogEvent::Undelivered) == BatchAction::Read,
        next_batch_status(status, LogEvent::Undelivered) == (BatchStatus {
            phase: BatchPhase::Reading,
            ..status
        }),
{
}

/// A batch ends only when the subscription ends or a delivery reaches the
/// limit: no other event leads to the last phase.
pub proof fn lemma_batch_ends_on_limit_or_end(status: BatchStatus, event: LogEvent)
    requires
        status.phase != BatchPhase::Done,
        next_batch_status(status, event).phase == BatchPhase::Done,
    ensures
        (status.phase == BatchPhase::Reading && event == LogEvent::Ended) || (status.phase
            == BatchPhase::Sending && event == LogEvent::Delivered && status.processed + 1
            >= status.limit),
{
}

/// What the fetching task reports between two batches.
#[derive(Clone, Copy, PartialEq, Eq, Structural, Debug)]
pub enum FetchEvent {
    /// The task has just been started, or a pause is over.
    Wake,
    /// A batch ended in good order.
    BatchDone,
    /// A batch could not be started, or broke off with an error.
    BatchFailed,
}

/// What the fetching task does next.
#[derive(Clone, Copy, PartialEq, Eq, Structural, Debug)]
pub enum FetchStep {
    /// Fetch the next batch.
    Fetch,
    /// Pause for this many seconds, then report [`FetchEvent::Wake`].
    Pause(u64),
    /// Leave the task.
    Stop,
}

/// The step that follows `event`: a failed batch is always followed by the
/// retry pause; otherwise the task fetches while it is meant to run.
pub open spec fn fetch_step_of(running: bool, event: FetchEvent) -> FetchStep {
    if event == FetchEvent::BatchFailed {
        FetchStep::Pause(10)
    } else if running {
        FetchStep::Fetch
    } else {
        FetchStep::Stop
    }
}

/// Decides what the fetching task does after `event`, given whether the
/// process is still meant to run.
pub fn fetch_step(running: bool, event: FetchEvent) -> (step: FetchStep)
    ensures
        step == fetch_step_of(running, event),
{
    match event {
        FetchEvent::BatchFailed => FetchStep::Pause(FETCH_RETRY_SECS),
        _ => if running {
            FetchStep::Fetch
        } else {
            FetchStep::Stop
        },
    }
}

} // verus!
