//! One client connection of the server: when to ping it, when to answer
//! it, and when to close it.
use rand::rngs::SmallRng;
use rand::{Rng, SeedableRng};
use vstd::bytes::{spec_u32_to_le_bytes, u32_to_le_bytes};
use vstd::prelude::*;

use crate::text::same_bytes;

verus! {

/// The close code of a connection that ends in order.
pub const CLOSE_NORMAL: u16 = 1000;

/// The close code of a connection that broke the protocol.
pub const CLOSE_PROTOCOL_ERROR: u16 = 1002;

/// Seconds without an answered ping after which a connection is closed.
pub const CLOSE_TIMEOUT: u64 = 30;

/// Seconds between two pings.
pub const PING_TIMEOUT: u64 = 10;

/// Declares the generator of ping payloads, whose state is not read.
#[verifier::external_type_specification]
#[verifier::external_body]
pub struct ExSmallRng(SmallRng);

/// `SmallRng::seed_from_u64` makes a generator from a seed. Its state
/// depends on the platform: nothing is claimed of it.
#[verifier::external_body]
fn seeded(seed: u64) -> SmallRng {
    SmallRng::seed_from_u64(seed)
}

/// `Rng::gen` draws the next number. Nothing is claimed of the number.
#[verifier::external_body]
fn draw(rng: &mut SmallRng) -> u32 {
    rng.gen::<u32>()
}

/// What a [`Message`] holds.
pub enum Frame {
    Text,
    Binary,
    Ping(Seq<u8>),
    Pong(Seq<u8>),
    Close,
}

/// A message of the client, as far as the connection looks into it.
#[derive(Debug)]
pub enum Message {
    Text,
    Binary,
    Ping(Vec<u8>),
    Pong(Vec<u8>),
    Close,
}

impl View for Message {
    type V = Frame;

    open spec fn view(&self) -> Frame {
        match self {
            Message::Text => Frame::Text,
            Message::Binary => Frame::Binary,
            Message::Ping(payload) => Frame::Ping(payload@),
            Message::Pong(payload) => Frame::Pong(payload@),
            Message::Close => Frame::Close,
        }
    }
}

/// What an [`Event`] holds.
pub enum Occurrence {
    CloseTimeout,
    PingTimeout,
    SystemClosed,
    Received(Frame),
    Ended,
}

/// What happens on a connection.
#[derive(Debug)]
pub enum Event {
    /// No ping was answered for [`CLOSE_TIMEOUT`] seconds.
    CloseTimeout,
    /// [`PING_TIMEOUT`] seconds have passed since the last ping.
    PingTimeout,
    /// The system will send no more events.
    SystemClosed,
    /// The client sent a message.
    Received(Message),
    /// The client will send no more messages.
    Ended,
}

impl View for Event {
    type V = Occurrence;

    open spec fn view(&self) -> Occurrence {
        match self {
            Event::CloseTimeout => Occurrence::CloseTimeout,
            Event::PingTimeout => Occurrence::PingTimeout,
            Event::SystemClosed => Occurrence::SystemClosed,
            Event::Received(message) => Occurrence::Received(message@),
            Event::Ended => Occurrence::Ended,
        }
    }
}

/// What an [`Action`] holds.
pub enum Step {
    Close(u16, Seq<char>),
    Hangup,
    SendPing(Seq<u8>),
    SendPong(Seq<u8>),
    ResetTimers,
    Continue,
}

/// What the server does next on a connection.
#[derive(Debug)]
pub enum Action {
    /// Send a close frame with this code and reason, and end.
    Close(u16, &'static str),
    /// End without a word.
    Hangup,
    /// Send a ping with this payload, and start the ping timer anew.
    SendPing(Vec<u8>),
    /// Send a pong with this payload.
    SendPong(Vec<u8>),
    /// Start both timers anew.
    ResetTimers,
    /// Go on waiting.
    Continue,
}

impl View for Action {
    type V = Step;

    open spec fn view(&self) -> Step {
        match self {
            Action::Close(code, reason) => Step::Close(*code, reason@),
            Action::Hangup => Step::Hangup,
            Action::SendPing(payload) => Step::SendPing(payload@),
            Action::SendPong(payload) => Step::SendPong(payload@),
            Action::ResetTimers => Step::ResetTimers,
            Action::Continue => Step::Continue,
        }
    }
}

/// The ping that waits for its answer after an event, and what the server
/// does, given the ping that waited before and the number `drawn` for a
/// new ping.
///
/// Either timeout for closing, or the end of the system's events, closes
/// the connection in order. The timeout for pinging sends the number drawn,
/// which then waits for its answer; the payload is the number in four
/// bytes, the lowest first, on every machine. A text or binary message breaks the
/// protocol. A ping is answered with its own payload. A pong that carries
/// the waiting ping's number settles it and starts the timers anew; any
/// other pong changes nothing. A close message, or the end of messages,
/// ends the connection without a word.
pub open spec fn reacted(waiting: Option<u32>, event: Occurrence, drawn: u32) -> (
    Option<u32>,
    Step,
) {
    match event {
        Occurrence::CloseTimeout => (waiting, Step::Close(CLOSE_NORMAL, "connection timed out"@)),
        Occurrence::PingTimeout => (Some(drawn), Step::SendPing(spec_u32_to_le_bytes(drawn))),
        Occurrence::SystemClosed => (waiting, Step::Close(CLOSE_NORMAL, "system shutting down"@)),
        Occurrence::Ended => (waiting, Step::Hangup),
        Occurrence::Received(frame) => match frame {
            Frame::Text | Frame::Binary => (
                waiting,
                Step::Close(CLOSE_PROTOCOL_ERROR, "unsupported message"@),
            ),
            Frame::Ping(payload) => (waiting, Step::SendPong(payload)),
            Frame::Pong(payload) => match waiting {
                Some(expected) if spec_u32_to_le_bytes(expected) == payload => (
                    None,
                    Step::ResetTimers,
                ),
                _ => (waiting, Step::Continue),
            },
            Frame::Close => (waiting, Step::Hangup),
        },
    }
}

/// The state of one connection.
pub struct Session {
    last_ping: Option<u32>,
    rng: SmallRng,
}

impl Session {
    /// The number of the ping that waits for its answer.
    pub closed spec fn waiting(&self) -> Option<u32> {
        self.last_ping
    }

    /// A connection on which no ping waits.
    pub fn new() -> (session: Session)
        ensures
            session.waiting() is None,
    {
        Session { last_ping: None, rng: seeded(0x404241112) }
    }

    /// Reacts to an event, with `drawn` as the number of a new ping.
    pub fn react(&mut self, event: Event, drawn: u32) -> (action: Action)
        ensures
            (final(self).waiting(), action@) == reacted(old(self).waiting(), event@, drawn),
    {
        match event {
            Event::CloseTimeout => Action::Close(CLOSE_NORMAL, "connection timed out"),
            Event::PingTimeout => {
                self.last_ping = Some(drawn);
                Action::SendPing(u32_to_le_bytes(drawn))
            },
            Event::SystemClosed => Action::Close(CLOSE_NORMAL, "system shutting down"),
            Event::Ended => Action::Hangup,
            Event::Received(message) => match message {
                Message::Text | Message::Binary => Action::Close(
                    CLOSE_PROTOCOL_ERROR,
                    "unsupported message",
                ),
                Message::Ping(payload) => Action::SendPong(payload),
                Message::Pong(payload) => {
                    match self.last_ping {
                        Some(expected) => {
                            let sent = u32_to_le_bytes(expected);
                            if same_bytes(sent.as_slice(), payload.as_slice()) {
                                self.last_ping = None;
                                Action::ResetTimers
                            } else {
                                Action::Continue
                            }
                        },
                        None => Action::Continue,
                    }
                },
                Message::Close => Action::Hangup,
            },
        }
    }

    /// Reacts to an event. The number of a new ping is drawn from the
    /// connection's generator, and only the timeout for pinging looks at
    /// it: what follows any other event is the same whatever is drawn.
    pub fn step(&mut self, event: Event) -> (action: Action)
        ensures
            exists|drawn: u32|
                (final(self).waiting(), action@) == #[trigger] reacted(
                    old(self).waiting(),
                    event@,
                    drawn,
                ),
            !(event@ is PingTimeout) ==> forall|drawn: u32|
                (final(self).waiting(), action@) == #[trigger] reacted(
                    old(self).waiting(),
                    event@,
                    drawn,
                ),
            event@ is PingTimeout ==> final(self).waiting() is Some && action@
                == Step::SendPing(spec_u32_to_le_bytes(final(self).waiting().unwrap())),
    {
        let drawn = match event {
            Event::PingTimeout => draw(&mut self.rng),
            _ => 0,
        };
        self.react(event, drawn)
    }
}

} // verus!
