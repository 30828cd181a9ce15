//! The decisions of a connection worker: which command to send the
//! coordinator for each thing that happens on its connection.
use vstd::prelude::*;
use crate::coordinator::{opt_view, Command, Conn};
use crate::handshake::{accept_token, handshake};
use crate::packet::Packet;

verus! {

/// Where a worker stands in the life of its connection.
#[derive(Clone, Copy, PartialEq, Eq, Structural, Debug)]
pub enum Phase {
    /// Accepted; the coordinator has not been told yet.
    Accepted,
    /// Announced to the coordinator; waiting for the upgrade request.
    Connected,
    /// Upgraded; messages flow.
    Open,
    /// Done: nothing more is sent.
    Closed,
}

/// What happens on a connection.
pub enum Event {
    /// The worker starts.
    Start,
    /// A valid upgrade request arrived with this `Sec-WebSocket-Key`.
    Upgraded(String),
    /// A message was decoded.
    Received(Packet),
    /// Reading, the upgrade request or decoding failed.
    Failed,
}

/// The kinds of events.
pub enum EventKind {
    Start,
    Upgraded,
    Text,
    Close,
    Failed,
}

/// The kinds of commands.
pub enum CommandKind {
    Connect,
    Handshake,
    Echo,
    Close,
}

pub open spec fn event_kind(e: Event) -> EventKind {
    match e {
        Event::Start => EventKind::Start,
        Event::Upgraded(_) => EventKind::Upgraded,
        Event::Received(Packet::Text(_)) => EventKind::Text,
        Event::Received(Packet::Close(_, _)) => EventKind::Close,
        Event::Failed => EventKind::Failed,
    }
}

pub open spec fn command_kind(c: Command) -> CommandKind {
    match c {
        Command::Connect(_) => CommandKind::Connect,
        Command::Handshake(_, _) => CommandKind::Handshake,
        Command::Echo(_, _) => CommandKind::Echo,
        Command::Close(_, _, _) => CommandKind::Close,
    }
}

/// The next phase and the kind of command sent, if any: an event that does
/// not fit the phase ends the connection without a command.
pub open spec fn transition(phase: Phase, e: EventKind) -> (Phase, Option<CommandKind>) {
    match (phase, e) {
        (Phase::Accepted, EventKind::Start) => (Phase::Connected, Some(CommandKind::Connect)),
        (Phase::Connected, EventKind::Upgraded) => (Phase::Open, Some(CommandKind::Handshake)),
        (Phase::Open, EventKind::Text) => (Phase::Open, Some(CommandKind::Echo)),
        (Phase::Open, EventKind::Close) => (Phase::Closed, Some(CommandKind::Close)),
        _ => (Phase::Closed, None),
    }
}

/// The kinds of the commands sent over a run of events from a phase.
pub open spec fn run(phase: Phase, events: Seq<EventKind>) -> Seq<CommandKind>
    decreases events.len(),
{
    if events.len() == 0 {
        Seq::empty()
    } else {
        let (next, sent) = transition(phase, events[0]);
        match sent {
            Some(k) => seq![k] + run(next, events.drop_first()),
            None => run(next, events.drop_first()),
        }
    }
}

/// The commands that may still follow in a phase: from Accepted, Connect,
/// then Handshake, then any number of Echo, then at most one Close, which
/// ends the sequence; any prefix of that.
pub open spec fn follows(phase: Phase, s: Seq<CommandKind>) -> bool
    decreases s.len(),
{
    if s.len() == 0 {
        true
    } else {
        match phase {
            Phase::Accepted => s[0] == CommandKind::Connect && follows(Phase::Connected, s.drop_first()),
            Phase::Connected => s[0] == CommandKind::Handshake && follows(Phase::Open, s.drop_first()),
            Phase::Open => (s[0] == CommandKind::Echo && follows(Phase::Open, s.drop_first())) || (
            s[0] == CommandKind::Close && s.len() == 1),
            Phase::Closed => false,
        }
    }
}

proof fn lemma_run_closed(events: Seq<EventKind>)
    ensures
        run(Phase::Closed, events) == Seq::<CommandKind>::empty(),
    decreases events.len(),
{
    if events.len() > 0 {
        lemma_run_closed(events.drop_first());
    }
}

proof fn lemma_run_follows(phase: Phase, events: Seq<EventKind>)
    ensures
        follows(phase, run(phase, events)),
    decreases events.len(),
{
    if events.len() > 0 {
        let (next, sent) = transition(phase, events[0]);
        let rest = run(next, events.drop_first());
        lemma_run_follows(next, events.drop_first());
        if next == Phase::Closed {
            lemma_run_closed(events.drop_first());
        }
        match sent {
            Some(k) => {
                let s = seq![k] + rest;
                assert(s.drop_first() =~= rest);
            },
            None => {
                assert(follows(Phase::Closed, rest));
            },
        }
    }
}

/// Whatever happens on a connection, its worker sends Connect first, then
/// Handshake, then Echo commands, and a Close last if at all, in that order.
pub proof fn lemma_commands_in_order(events: Seq<EventKind>)
    ensures
        follows(Phase::Accepted, run(Phase::Accepted, events)),
{
    lemma_run_follows(Phase::Accepted, events);
}

/// A connection worker's state.
pub struct Worker {
    pub conn: Conn,
    pub phase: Phase,
}

impl Worker {
    /// A worker for a connection just accepted.
    pub fn new(conn: Conn) -> (r: Worker)
        ensures
            r.conn == conn,
            r.phase == Phase::Accepted,
    {
        Worker { conn, phase: Phase::Accepted }
    }

    /// Handles one event: moves to the next phase and gives the command to
    /// send the coordinator, if any.
    pub fn on_event(&mut self, event: Event) -> (r: Option<Command>)
        ensures
            final(self).conn == old(self).conn,
            final(self).phase == transition(old(self).phase, event_kind(event)).0,
            match r {
                Some(c) => transition(old(self).phase, event_kind(event)).1 == Some(command_kind(c)),
                None => transition(old(self).phase, event_kind(event)).1 is None,
            },
            match (event, r) {
                (_, Some(Command::Connect(c))) => c == old(self).conn,
                (Event::Upgraded(key), Some(Command::Handshake(c, token))) => c == old(self).conn
                    && token@ == accept_token(key@),
                (Event::Received(Packet::Text(t)), Some(Command::Echo(c, text))) => c == old(
                    self,
                ).conn && text@ == t@,
                (Event::Received(Packet::Close(code, reason)), Some(Command::Close(c, code2, reason2))) => c
                    == old(self).conn && code2 == code && opt_view(reason2) == opt_view(reason),
                (_, None) => true,
                _ => false,
            },
    {
        let conn = self.conn;
        match (self.phase, event) {
            (Phase::Accepted, Event::Start) => {
                self.phase = Phase::Connected;
                Some(Command::Connect(conn))
            },
            (Phase::Connected, Event::Upgraded(key)) => {
                self.phase = Phase::Open;
                Some(Command::Handshake(conn, handshake(key)))
            },
            (Phase::Open, Event::Received(Packet::Text(text))) => Some(Command::Echo(conn, text)),
            (Phase::Open, Event::Received(Packet::Close(code, reason))) => {
                self.phase = Phase::Closed;
                Some(Command::Close(conn, code, reason))
            },
            _ => {
                self.phase = Phase::Closed;
                None
            },
        }
    }
}

} // verus!
