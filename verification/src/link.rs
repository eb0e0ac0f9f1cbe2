//! The life of the voice connection: connect, greet, talk, and start over after a pause
//! whenever it is lost; and within a connection the order of one turn.
//!
//! The outside carries a step out and hands back what came of it.
use vstd::prelude::*;
use crate::session::{retry_logged, FrameAction};

verus! {

/// Pause before a connection is tried again.
pub const RECONNECT_MS: u32 = 3000;

/// Longest wait for a frame in one turn.
pub const FRAME_WAIT_MS: u32 = 50;

// ---------- from connection to connection ----------

/// What came of a step.
#[derive(Debug, Clone, Copy, PartialEq, Eq, Structural)]
pub enum LinkEvent {
    /// The connection is open, or could not be opened.
    Connected(bool),
    /// The opening message was sent, or could not be.
    HelloSent(bool),
    /// The connection is gone.
    Lost,
    /// The pause is over.
    Waited,
}

/// What to do next. A channel begins with [`LinkStep::Connect`].
#[derive(Debug, Clone, Copy, PartialEq, Eq, Structural)]
pub enum LinkStep {
    /// Open a new connection.
    Connect,
    /// Send the opening message.
    Hello,
    /// Take turns until the connection is gone.
    Talk,
    /// Do nothing for so many milliseconds.
    Wait(u32),
}

/// What follows an event after `retried` failures in a row: how many failures there are then,
/// the next step, and whether a failure is logged.
pub open spec fn link_next(retried: u32, ev: LinkEvent) -> (u32, LinkStep, bool) {
    match ev {
        LinkEvent::Connected(true) => (0, LinkStep::Hello, false),
        LinkEvent::Connected(false) => (
            retried.wrapping_add(1),
            LinkStep::Wait(RECONNECT_MS),
            retried.wrapping_add(1) % 10 == 1,
        ),
        LinkEvent::HelloSent(true) => (retried, LinkStep::Talk, false),
        LinkEvent::HelloSent(false) => (0, LinkStep::Wait(RECONNECT_MS), false),
        LinkEvent::Lost => (0, LinkStep::Wait(RECONNECT_MS), false),
        LinkEvent::Waited => (retried, LinkStep::Connect, false),
    }
}

/// The next step of the channel, and whether a failure to connect is logged. `retried` counts
/// the failures in a row.
pub fn link_step(retried: &mut u32, ev: LinkEvent) -> (r: (LinkStep, bool))
    ensures
        (*final(retried), r.0, r.1) == link_next(*old(retried), ev),
{
    match ev {
        LinkEvent::Connected(true) => {
            *retried = 0;
            (LinkStep::Hello, false)
        },
        LinkEvent::Connected(false) => {
            *retried = (*retried).wrapping_add(1);
            (LinkStep::Wait(RECONNECT_MS), retry_logged(*retried))
        },
        LinkEvent::HelloSent(true) => (LinkStep::Talk, false),
        LinkEvent::HelloSent(false) => {
            *retried = 0;
            (LinkStep::Wait(RECONNECT_MS), false)
        },
        LinkEvent::Lost => {
            *retried = 0;
            (LinkStep::Wait(RECONNECT_MS), false)
        },
        LinkEvent::Waited => (LinkStep::Connect, false),
    }
}

// ---------- one turn of a connection ----------

/// What came of a step of a turn.
#[derive(Debug, Clone, Copy, PartialEq, Eq, Structural)]
pub enum TurnEvent {
    /// A turn begins; whether the user has asked to interrupt the reply.
    Begin(bool),
    /// The interruption was sent, or could not be.
    InterruptSent(bool),
    /// A block of samples was sent, or could not be.
    BlockSent(bool),
    /// No block of samples waits.
    NoBlock,
    /// A frame came in.
    Frame(FrameAction),
    /// None came in time.
    TimedOut,
    /// The answer to a message was sent, or could not be.
    AnswerSent(bool),
    /// A message asked for no answer.
    NoAnswer,
}

/// What to do next in a turn.
#[derive(Debug, Clone, Copy, PartialEq, Eq, Structural)]
pub enum TurnStep {
    /// Interrupt the reply.
    Interrupt,
    /// Send the next block of samples, if one waits.
    Uplink,
    /// Wait for a frame, at most so many milliseconds.
    Frame(u32),
    /// Handle the message of so many bytes that came in.
    Handle(usize),
    /// The turn is over; the next one begins.
    Over,
    /// The connection is gone.
    Lost,
}

/// The uplink's part of a turn, or, where the uplink is off, what comes behind it.
pub open spec fn uplink_next(mic_on: bool) -> TurnStep {
    if mic_on {
        TurnStep::Uplink
    } else {
        TurnStep::Frame(FRAME_WAIT_MS)
    }
}

/// What follows an event in a turn: first an interruption, then samples for as long as the
/// uplink is on and any wait, then one frame and the answer to it. What cannot be sent ends
/// the connection.
pub open spec fn turn_next(ev: TurnEvent, mic_on: bool) -> TurnStep {
    match ev {
        TurnEvent::Begin(true) => TurnStep::Interrupt,
        TurnEvent::Begin(false) => uplink_next(mic_on),
        TurnEvent::InterruptSent(true) => uplink_next(mic_on),
        TurnEvent::BlockSent(true) => uplink_next(mic_on),
        TurnEvent::NoBlock => TurnStep::Frame(FRAME_WAIT_MS),
        TurnEvent::Frame(FrameAction::Handle(n)) => TurnStep::Handle(n),
        TurnEvent::Frame(FrameAction::Disconnect) => TurnStep::Lost,
        TurnEvent::Frame(_) => TurnStep::Over,
        TurnEvent::TimedOut => TurnStep::Over,
        TurnEvent::AnswerSent(true) => TurnStep::Over,
        TurnEvent::NoAnswer => TurnStep::Over,
        TurnEvent::InterruptSent(false) => TurnStep::Lost,
        TurnEvent::BlockSent(false) => TurnStep::Lost,
        TurnEvent::AnswerSent(false) => TurnStep::Lost,
    }
}

fn uplink_step(mic_on: bool) -> (s: TurnStep)
    ensures
        s == uplink_next(mic_on),
{
    if mic_on {
        TurnStep::Uplink
    } else {
        TurnStep::Frame(FRAME_WAIT_MS)
    }
}

/// The next step of a turn. `mic_on` tells whether the uplink is on at this moment.
pub fn turn_step(ev: TurnEvent, mic_on: bool) -> (s: TurnStep)
    ensures
        s == turn_next(ev, mic_on),
{
    match ev {
        TurnEvent::Begin(true) => TurnStep::Interrupt,
        TurnEvent::Begin(false) => uplink_step(mic_on),
        TurnEvent::InterruptSent(sent) => {
            if sent {
                uplink_step(mic_on)
            } else {
                TurnStep::Lost
            }
        },
        TurnEvent::BlockSent(sent) => {
            if sent {
                uplink_step(mic_on)
            } else {
                TurnStep::Lost
            }
        },
        TurnEvent::NoBlock => TurnStep::Frame(FRAME_WAIT_MS),
        TurnEvent::Frame(action) => match action {
            FrameAction::Handle(n) => TurnStep::Handle(n),
            FrameAction::Disconnect => TurnStep::Lost,
            _ => TurnStep::Over,
        },
        TurnEvent::TimedOut => TurnStep::Over,
        TurnEvent::AnswerSent(sent) => {
            if sent {
                TurnStep::Over
            } else {
                TurnStep::Lost
            }
        },
        TurnEvent::NoAnswer => TurnStep::Over,
    }
}

// ---------- laws of the connection ----------

/// Every connection that is lost, and every one that could not be greeted, is followed by a
/// new attempt after one pause.
pub proof fn law_lost_link_reconnects(retried: u32, ev: LinkEvent)
    requires
        ev == LinkEvent::Lost || ev == LinkEvent::HelloSent(false),
    ensures
        ({
            let lost = link_next(retried, ev);
            let waited = link_next(lost.0, LinkEvent::Waited);
            &&& lost.1 == LinkStep::Wait(RECONNECT_MS)
            &&& waited.1 == LinkStep::Connect
            &&& waited.0 == 0
        }),
{
}

/// The count after `n` failures in a row, each followed by its pause.
pub open spec fn after_failures(retried: u32, n: nat) -> u32
    decreases n,
{
    if n == 0 {
        retried
    } else {
        link_next(
            link_next(after_failures(retried, (n - 1) as nat), LinkEvent::Connected(false)).0,
            LinkEvent::Waited,
        ).0
    }
}

/// Attempts go on until one succeeds: after any number of failures the next failure leads to
/// one more attempt after a pause, and a success to the opening message. Of the failures the
/// first is logged and every tenth after it.
pub proof fn law_attempts_repeat(n: nat)
    requires
        n < u32::MAX,
    ensures
        after_failures(0, n) == n,
        ({
            let failed = link_next(after_failures(0, n), LinkEvent::Connected(false));
            &&& failed.1 == LinkStep::Wait(RECONNECT_MS)
            &&& failed.2 == ((n + 1) % 10 == 1)
            &&& link_next(failed.0, LinkEvent::Waited).1 == LinkStep::Connect
        }),
        link_next(after_failures(0, n), LinkEvent::Connected(true)).1 == LinkStep::Hello,
    decreases n,
{
    if n > 0 {
        law_attempts_repeat((n - 1) as nat);
    }
}

/// Nothing but a greeting that was sent leads to talking, and nothing but a new connection to
/// a greeting.
pub proof fn law_greeting_comes_first(retried: u32, ev: LinkEvent)
    ensures
        link_next(retried, ev).1 == LinkStep::Talk <==> ev == LinkEvent::HelloSent(true),
        link_next(retried, ev).1 == LinkStep::Hello <==> ev == LinkEvent::Connected(true),
{
}

/// A turn gives the connection up exactly where something could not be sent or the peer is
/// gone.
pub proof fn law_connection_given_up(ev: TurnEvent, mic_on: bool)
    ensures
        turn_next(ev, mic_on) == TurnStep::Lost <==> ev == TurnEvent::InterruptSent(false) || ev
            == TurnEvent::BlockSent(false) || ev == TurnEvent::AnswerSent(false) || ev
            == TurnEvent::Frame(FrameAction::Disconnect),
{
}

/// An interruption goes out before anything else in its turn; samples go up only while the
/// uplink is on; and a turn with nothing to send up waits for a frame, for a limited time.
pub proof fn law_turn_order(ev: TurnEvent, mic_on: bool)
    ensures
        turn_next(ev, mic_on) == TurnStep::Interrupt <==> ev == TurnEvent::Begin(true),
        turn_next(ev, mic_on) == TurnStep::Uplink ==> mic_on,
        turn_next(ev, mic_on) matches TurnStep::Frame(ms) ==> ms == FRAME_WAIT_MS && (!mic_on || ev
            == TurnEvent::NoBlock),
        ev == TurnEvent::BlockSent(true) && mic_on ==> turn_next(ev, mic_on) == TurnStep::Uplink,
{
}

/// How much of a turn is ahead, with `waiting` blocks of samples still to go up.
pub open spec fn turn_ahead(s: TurnStep, waiting: nat) -> nat {
    match s {
        TurnStep::Interrupt => waiting + 4,
        TurnStep::Uplink => waiting + 3,
        TurnStep::Frame(_) => 2,
        TurnStep::Handle(_) => 1,
        TurnStep::Over => 0,
        TurnStep::Lost => 0,
    }
}

/// Every step brings a turn nearer to its end: the interruption, a block that leaves the
/// queue or an empty queue, a frame or none, an answer or none.
pub proof fn law_turn_comes_to_an_end(sent: bool, mic_on: bool, action: FrameAction, waiting: nat)
    ensures
        turn_ahead(turn_next(TurnEvent::InterruptSent(sent), mic_on), waiting) < turn_ahead(
            TurnStep::Interrupt,
            waiting,
        ),
        waiting > 0 ==> turn_ahead(
            turn_next(TurnEvent::BlockSent(sent), mic_on),
            (waiting - 1) as nat,
        ) < turn_ahead(TurnStep::Uplink, waiting),
        turn_ahead(turn_next(TurnEvent::NoBlock, mic_on), 0) < turn_ahead(TurnStep::Uplink, 0),
        turn_ahead(turn_next(TurnEvent::Frame(action), mic_on), waiting) < turn_ahead(
            TurnStep::Frame(FRAME_WAIT_MS),
            waiting,
        ),
        turn_ahead(turn_next(TurnEvent::TimedOut, mic_on), waiting) == 0,
        turn_ahead(turn_next(TurnEvent::AnswerSent(sent), mic_on), waiting) == 0,
        turn_ahead(turn_next(TurnEvent::NoAnswer, mic_on), waiting) == 0,
{
}

/// A turn leaves nothing out. Where nothing is interrupted, behind an interruption and behind
/// every block, samples go up if the uplink is on, and otherwise a frame is awaited; so it is
/// where no block waits. A message is handled, and behind anything else that came in, behind
/// the answer and where nothing came in time the next turn begins.
pub proof fn law_turn_goes_through(ev: TurnEvent, mic_on: bool, n: usize)
    ensures
        ev == TurnEvent::Begin(false) || ev == TurnEvent::InterruptSent(true) || ev
            == TurnEvent::BlockSent(true) ==> turn_next(ev, mic_on) == (if mic_on {
            TurnStep::Uplink
        } else {
            TurnStep::Frame(50)
        }),
        turn_next(TurnEvent::NoBlock, mic_on) == TurnStep::Frame(50),
        turn_next(TurnEvent::Frame(FrameAction::Handle(n)), mic_on) == TurnStep::Handle(n),
        turn_next(TurnEvent::Frame(FrameAction::Wait), mic_on) == TurnStep::Over,
        turn_next(TurnEvent::Frame(FrameAction::Ignore), mic_on) == TurnStep::Over,
        turn_next(TurnEvent::Frame(FrameAction::Dropped), mic_on) == TurnStep::Over,
        turn_next(TurnEvent::TimedOut, mic_on) == TurnStep::Over,
        turn_next(TurnEvent::AnswerSent(true), mic_on) == TurnStep::Over,
        turn_next(TurnEvent::NoAnswer, mic_on) == TurnStep::Over,
{
}

} // verus!
