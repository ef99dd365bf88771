//! The per-symbol connection supervisor: connect, stream, back off, retry.
//!
//! The supervisor decides; its caller acts. The caller performs each
//! [`Action`] and reports what came of it as the next [`Event`].

use crate::decoder::close_price_text;
use crate::decoder::extract_close_price;
use vstd::prelude::*;
use vstd::string::StringExecFns;

verus! {

/// The longest pause between two connection attempts, in seconds.
pub const MAX_BACKOFF_SECS: u64 = 10;

/// The pause that follows when `failures` connection attempts have failed so
/// far: one second for each, capped at [`MAX_BACKOFF_SECS`].
pub open spec fn backoff_secs(failures: nat) -> nat {
    if failures <= 10 {
        failures
    } else {
        10
    }
}

/// Computes the pause before the next connection attempt.
pub fn backoff_delay(failures: u64) -> (secs: u64)
    ensures
        secs == backoff_secs(failures as nat),
{
    if failures <= MAX_BACKOFF_SECS {
        failures
    } else {
        MAX_BACKOFF_SECS
    }
}

/// The address of the one-minute kline stream of `symbol`.
pub open spec fn stream_url_of(base_url: Seq<char>, symbol: Seq<char>) -> Seq<char> {
    base_url + "/"@ + symbol + "@kline_1m"@
}

/// Builds the address of the one-minute kline stream of `symbol`.
pub fn stream_url(base_url: &str, symbol: &str) -> (url: String)
    ensures
        url@ == stream_url_of(base_url@, symbol@),
{
    let mut url = base_url.to_owned();
    url.append("/");
    url.append(symbol);
    url.append("@kline_1m");
    url
}

/// Where a supervisor stands in the life of its connection.
#[derive(Clone, Copy, PartialEq, Eq, Structural, Debug)]
pub enum Phase {
    /// No connection, and no attempt under way.
    Disconnected,
    /// A connection attempt is under way.
    Connecting,
    /// The connection is open and frames are read from it.
    Streaming,
}

/// What the caller reports to the supervisor.
#[derive(Debug, PartialEq, Eq)]
pub enum Event {
    /// The pause is over, or the supervisor has just been started.
    Wake,
    /// The connection attempt failed.
    ConnectFailed,
    /// The connection attempt succeeded.
    Connected,
    /// A frame arrived, with this text.
    Frame(String),
    /// A frame arrived that holds no text.
    Unreadable,
    /// The connection ended, closed by the peer or broken by an error.
    Closed,
}

/// What the supervisor asks of its caller.
#[derive(Debug, PartialEq, Eq)]
pub enum Action {
    /// Nothing: the event does not belong to the current phase.
    Ignore,
    /// Open a connection to the stream address.
    Connect,
    /// Pause for this many seconds, then report [`Event::Wake`].
    Sleep(u64),
    /// Read the next frame.
    Read,
    /// Forward this close price for the symbol, then read the next frame,
    /// whether or not anyone took the price.
    Forward(String),
}

/// An [`Action`] as a plain value.
pub enum Reaction {
    Ignore,
    Connect,
    Sleep(u64),
    Read,
    Forward(Seq<char>),
}

impl View for Action {
    type V = Reaction;

    open spec fn view(&self) -> Reaction {
        match self {
            Action::Ignore => Reaction::Ignore,
            Action::Connect => Reaction::Connect,
            Action::Sleep(secs) => Reaction::Sleep(*secs),
            Action::Read => Reaction::Read,
            Action::Forward(price) => Reaction::Forward(price@),
        }
    }
}

/// The state of a supervisor: its phase, and how many connection attempts
/// have failed since it was made.
pub struct Status {
    pub phase: Phase,
    pub failures: u64,
}

/// The failure count after one more failure. It stops at the largest value
/// it can hold.
pub open spec fn one_more(failures: u64) -> u64 {
    if failures < u64::MAX {
        (failures + 1) as u64
    } else {
        failures
    }
}

/// The state that follows `status` on `event`. A success never resets the
/// failure count.
pub open spec fn next_status(status: Status, event: Event) -> Status {
    match (status.phase, event) {
        (Phase::Disconnected, Event::Wake) => Status { phase: Phase::Connecting, ..status },
        (Phase::Connecting, Event::ConnectFailed) => Status {
            phase: Phase::Disconnected,
            failures: one_more(status.failures),
        },
        (Phase::Connecting, Event::Connected) => Status { phase: Phase::Streaming, ..status },
        (Phase::Streaming, Event::Closed) => Status { phase: Phase::Disconnected, ..status },
        _ => status,
    }
}

/// What the supervisor asks for once a frame has been decoded: a close price
/// is forwarded, a frame without one is dropped and the next frame is read.
pub open spec fn frame_reaction(decoded: Option<Seq<char>>) -> Reaction {
    match decoded {
        Some(price) => Reaction::Forward(price),
        None => Reaction::Read,
    }
}

/// What the supervisor asks for when `event` arrives in `status`.
pub open spec fn reaction(status: Status, event: Event) -> Reaction {
    match (status.phase, event) {
        (Phase::Disconnected, Event::Wake) => Reaction::Connect,
        (Phase::Connecting, Event::ConnectFailed) => Reaction::Sleep(
            backoff_secs(one_more(status.failures) as nat) as u64,
        ),
        (Phase::Connecting, Event::Connected) => Reaction::Read,
        (Phase::Streaming, Event::Frame(text)) => frame_reaction(close_price_text(text@)),
        (Phase::Streaming, Event::Unreadable) => Reaction::Read,
        (Phase::Streaming, Event::Closed) => Reaction::Sleep(
            backoff_secs(status.failures as nat) as u64,
        ),
        _ => Reaction::Ignore,
    }
}

/// Says what to do with a frame once it has been decoded to `decoded`.
pub fn after_decoding(decoded: Option<String>) -> (action: Action)
    ensures
        action@ == frame_reaction(
            match decoded {
                Some(price) => Some(price@),
                None => None,
            },
        ),
{
    match decoded {
        Some(price) => Action::Forward(price),
        None => Action::Read,
    }
}

/// The supervisor of the connection of one symbol.
pub struct ConnectionSupervisor {
    base_url: String,
    symbol: String,
    phase: Phase,
    failures: u64,
}

impl View for ConnectionSupervisor {
    type V = Status;

    closed spec fn view(&self) -> Status {
        Status { phase: self.phase, failures: self.failures }
    }
}

impl ConnectionSupervisor {
    /// The symbol whose stream is supervised.
    pub closed spec fn symbol_text(&self) -> Seq<char> {
        self.symbol@
    }

    /// The address that connections are opened to.
    pub closed spec fn url_text(&self) -> Seq<char> {
        stream_url_of(self.base_url@, self.symbol@)
    }

    /// A supervisor for `symbol` that has not connected yet and has seen no
    /// failure.
    pub fn new(base_url: &str, symbol: &str) -> (supervisor: Self)
        ensures
            supervisor@ == (Status { phase: Phase::Disconnected, failures: 0 }),
            supervisor.symbol_text() == symbol@,
            supervisor.url_text() == stream_url_of(base_url@, symbol@),
    {
        ConnectionSupervisor {
            base_url: base_url.to_owned(),
            symbol: symbol.to_owned(),
            phase: Phase::Disconnected,
            failures: 0,
        }
    }

    /// Takes in `event` and says what to do next.
    pub fn step(&mut self, event: Event) -> (action: Action)
        ensures
            final(self)@ == next_status(old(self)@, event),
            action@ == reaction(old(self)@, event),
            final(self).symbol_text() == old(self).symbol_text(),
            final(self).url_text() == old(self).url_text(),
    {
        match self.phase {
            Phase::Disconnected => match event {
                Event::Wake => {
                    self.phase = Phase::Connecting;
                    Action::Connect
                },
                _ => Action::Ignore,
            },
            Phase::Connecting => match event {
                Event::ConnectFailed => {
                    if self.failures < u64::MAX {
                        self.failures = self.failures + 1;
                    }
                    self.phase = Phase::Disconnected;
                    Action::Sleep(backoff_delay(self.failures))
                },
                Event::Connected => {
                    self.phase = Phase::Streaming;
                    Action::Read
                },
                _ => Action::Ignore,
            },
            Phase::Streaming => match event {
                Event::Frame(text) => after_decoding(extract_close_price(text.as_str())),
                Event::Unreadable => Action::Read,
                Event::Closed => {
                    self.phase = Phase::Disconnected;
                    Action::Sleep(backoff_delay(self.failures))
                },
                _ => Action::Ignore,
            },
        }
    }

    /// The phase the supervisor is in.
    pub fn phase(&self) -> (phase: Phase)
        ensures
            phase == self@.phase,
    {
        self.phase
    }

    /// How many connection attempts have failed so far.
    pub fn failures(&self) -> (failures: u64)
        ensures
            failures == self@.failures,
    {
        self.failures
    }

    /// The symbol whose stream is supervised.
    pub fn symbol(&self) -> (symbol: &str)
        ensures
            symbol@ == self.symbol_text(),
    {
        self.symbol.as_str()
    }

    /// The address that connections are opened to.
    pub fn url(&self) -> (url: String)
        ensures
            url@ == self.url_text(),
    {
        stream_url(self.base_url.as_str(), self.symbol.as_str())
    }
}

/// The state after `attempts` connection attempts in a row have failed, each
/// begun by a wake-up.
pub open spec fn after_failed_attempts(status: Status, attempts: nat) -> Status
    decreases attempts,
{
    if attempts == 0 {
        status
    } else {
        next_status(
            next_status(after_failed_attempts(status, (attempts - 1) as nat), Event::Wake),
            Event::ConnectFailed,
        )
    }
}

/// Failed attempts in a row leave the supervisor disconnected, with each of
/// them counted.
pub proof fn lemma_failed_attempts_count(status: Status, attempts: nat)
    requires
        status.phase == Phase::Disconnected,
    ensures
        after_failed_attempts(status, attempts).phase == Phase::Disconnected,
        after_failed_attempts(status, attempts).failures == if status.failures + attempts
            <= u64::MAX {
            status.failures + attempts
        } else {
            u64::MAX as int
        },
    decreases attempts,
{
    if attempts > 0 {
        lemma_failed_attempts_count(status, (attempts - 1) as nat);
    }
}

/// When a supervisor that has seen no failure fails to connect `attempts`
/// times in a row, the pause it asks for after the last failure is
/// `attempts` seconds, and ten seconds from the tenth failure on.
pub proof fn lemma_backoff_after_failures(status: Status, attempts: nat)
    requires
        status.phase == Phase::Disconnected,
        status.failures == 0,
        attempts >= 1,
    ensures
        reaction(
            next_status(after_failed_attempts(status, (attempts - 1) as nat), Event::Wake),
            Event::ConnectFailed,
        ) == Reaction::Sleep(backoff_secs(attempts) as u64),
        backoff_secs(attempts) == if attempts <= 10 {
            attempts
        } else {
            10
        },
{
    lemma_failed_attempts_count(status, (attempts - 1) as nat);
}

/// No event lowers the failure count: a connection that succeeds does not
/// reset it.
pub proof fn lemma_failures_never_reset(status: Status, event: Event)
    ensures
        next_status(status, event).failures >= status.failures,
{
}

/// No state is final: in every state some event moves the supervisor on.
pub proof fn lemma_no_final_state(status: Status)
    ensures
        exists|event: Event| reaction(status, event) != Reaction::Ignore,
{
    match status.phase {
        Phase::Disconnected => {
            assert(reaction(status, Event::Wake) != Reaction::Ignore);
        },
        Phase::Connecting => {
            assert(reaction(status, Event::Connected) != Reaction::Ignore);
        },
        Phase::Streaming => {
            assert(reaction(status, Event::Closed) != Reaction::Ignore);
        },
    }
}

/// A frame that holds no close price is dropped: the supervisor asks for the
/// next frame and goes on streaming, unchanged.
pub proof fn lemma_undecodable_frame_is_dropped(status: Status, text: String)
    requires
        status.phase == Phase::Streaming,
        close_price_text(text@) is None,
    ensures
        reaction(status, Event::Frame(text)) == Reaction::Read,
        next_status(status, Event::Frame(text)) == status,
{
}

} // verus!
