use vstd::prelude::*;
use vstd::string::StrSliceExecFns;
use vstd::utf8::encode_utf8;
use crate::message::{parse_line, parse_message};

verus! {

/// Where the forwarding loop stands.
#[derive(PartialEq, Eq, Structural, Clone, Copy, Debug)]
pub enum Phase {
    /// Waiting for the next line from the network stream.
    AwaitingLine,
    /// A payload is being written to the serial transport.
    Writing,
    /// The loop has ended; no event is taken any more.
    Closed,
}

/// Why the loop ended with an error.
#[derive(PartialEq, Eq, Structural, Clone, Copy, Debug)]
pub enum Failure {
    /// Reading from the network stream failed.
    Read,
    /// Writing to the serial transport failed.
    Write,
}

/// What the transports report to the loop.
#[derive(Debug)]
pub enum Event {
    /// A complete line arrived, without its terminator.
    Line(String),
    /// The network stream reached its end.
    StreamEnded,
    /// Reading from the network stream failed.
    ReadFailed,
    /// The last write to the serial transport completed.
    WriteDone,
    /// The last write to the serial transport failed.
    WriteFailed,
}

/// What the loop asks of the transports next.
#[derive(Debug)]
pub enum Action {
    /// Write these bytes to the serial transport, then report how it went.
    Forward(Vec<u8>),
    /// The line was addressed to the named other unit: read the next line.
    Skip(String),
    /// The line does not follow the addressing grammar: read the next line.
    Discard,
    /// Read the next line.
    ReadNext,
    /// The stream ended: stop without error.
    Finish,
    /// Stop with this error.
    Fail(Failure),
}

pub ghost enum EventModel {
    Line(Seq<char>),
    StreamEnded,
    ReadFailed,
    WriteDone,
    WriteFailed,
}

pub ghost enum ActionModel {
    Forward(Seq<u8>),
    Skip(Seq<char>),
    Discard,
    ReadNext,
    Finish,
    Fail(Failure),
}

impl View for Event {
    type V = EventModel;

    open spec fn view(&self) -> EventModel {
        match self {
            Event::Line(l) => EventModel::Line(l@),
            Event::StreamEnded => EventModel::StreamEnded,
            Event::ReadFailed => EventModel::ReadFailed,
            Event::WriteDone => EventModel::WriteDone,
            Event::WriteFailed => EventModel::WriteFailed,
        }
    }
}

impl View for Action {
    type V = ActionModel;

    open spec fn view(&self) -> ActionModel {
        match self {
            Action::Forward(b) => ActionModel::Forward(b@),
            Action::Skip(r) => ActionModel::Skip(r@),
            Action::Discard => ActionModel::Discard,
            Action::ReadNext => ActionModel::ReadNext,
            Action::Finish => ActionModel::Finish,
            Action::Fail(f) => ActionModel::Fail(*f),
        }
    }
}

/// The bytes that carry `payload` on the serial link: its UTF-8 encoding and
/// one newline byte.
pub open spec fn serial_frame(payload: Seq<char>) -> Seq<u8> {
    encode_utf8(payload) + seq![10u8]
}

/// What becomes of one line at a unit named `unit`.
pub open spec fn route(unit: Seq<char>, line: Seq<char>) -> ActionModel {
    match parse_line(line) {
        None => ActionModel::Discard,
        Some((recipient, payload)) => if recipient == unit {
            ActionModel::Forward(serial_frame(payload))
        } else {
            ActionModel::Skip(recipient)
        },
    }
}

/// The events that the loop takes in each phase.
pub open spec fn expects(phase: Phase, event: EventModel) -> bool {
    match phase {
        Phase::AwaitingLine => event is Line || event is StreamEnded || event is ReadFailed,
        Phase::Writing => event is WriteDone || event is WriteFailed,
        Phase::Closed => false,
    }
}

/// One transition of the loop: the next phase and the action asked for.
pub open spec fn step_model(phase: Phase, unit: Seq<char>, event: EventModel) -> (
    Phase,
    ActionModel,
) {
    match event {
        EventModel::Line(line) => {
            let action = route(unit, line);
            if action is Forward {
                (Phase::Writing, action)
            } else {
                (Phase::AwaitingLine, action)
            }
        },
        EventModel::StreamEnded => (Phase::Closed, ActionModel::Finish),
        EventModel::ReadFailed => (Phase::Closed, ActionModel::Fail(Failure::Read)),
        EventModel::WriteDone => (Phase::AwaitingLine, ActionModel::ReadNext),
        EventModel::WriteFailed => (Phase::Closed, ActionModel::Fail(Failure::Write)),
    }
}

/// Only a line addressed to this unit reaches the serial transport: a
/// transition that asks for a write was caused by a line that decodes to this
/// unit's identity, and the write carries that line's payload framed.
pub proof fn lemma_forward_only_own_messages(phase: Phase, unit: Seq<char>, event: EventModel)
    requires
        expects(phase, event),
    ensures
        step_model(phase, unit, event).1 matches ActionModel::Forward(bytes) ==> {
            &&& step_model(phase, unit, event).0 == Phase::Writing
            &&& event matches EventModel::Line(line)
            &&& parse_line(line) matches Some((recipient, payload))
            &&& recipient == unit
            &&& bytes == serial_frame(payload)
        },
{
}

/// Once closed, the loop takes no event; it closes exactly when the stream
/// ends or a transport fails.
pub proof fn lemma_closed_is_final(phase: Phase, unit: Seq<char>, event: EventModel)
    ensures
        !expects(Phase::Closed, event),
        expects(phase, event) ==> (step_model(phase, unit, event).0 == Phase::Closed <==> (
        event is StreamEnded || event is ReadFailed || event is WriteFailed)),
{
}

/// Decides what to do with one line at the unit named `unit`: forward the
/// payload framed for the serial link when the line is addressed to `unit`,
/// name the other recipient when it is addressed elsewhere, discard it when
/// it does not decode.
pub fn route_line(unit: &String, line: &str) -> (action: Action)
    ensures
        action@ == route(unit@, line@),
{
    let parsed = parse_message(line);
    match parsed {
        None => Action::Discard,
        Some((recipient, payload)) => {
            assert(parse_line(line@) == Some((recipient@, payload@)));
            if recipient == *unit {
                let text = payload.as_str();
                let mut bytes = text.as_bytes_vec();
                bytes.push(10u8);
                assert(bytes@ =~= serial_frame(payload@));
                Action::Forward(bytes)
            } else {
                Action::Skip(recipient)
            }
        },
    }
}

/// The forwarding loop's state: this unit's identity and the phase.
pub struct Relay {
    unit: String,
    phase: Phase,
}

impl Relay {
    /// This unit's identity.
    pub closed spec fn unit_spec(&self) -> Seq<char> {
        self.unit@
    }

    /// The phase the loop stands in.
    pub closed spec fn phase_spec(&self) -> Phase {
        self.phase
    }

    /// A loop for the unit named `unit`, waiting for its first line.
    pub fn new(unit: String) -> (r: Relay)
        ensures
            r.unit_spec() == unit@,
            r.phase_spec() == Phase::AwaitingLine,
    {
        Relay { unit, phase: Phase::AwaitingLine }
    }

    pub fn phase(&self) -> (r: Phase)
        ensures
            r == self.phase_spec(),
    {
        self.phase
    }

    pub fn unit(&self) -> (r: &String)
        ensures
            r@ == self.unit_spec(),
    {
        &self.unit
    }

    /// Whether the loop takes `event` in its present phase.
    pub fn expects(&self, event: &Event) -> (r: bool)
        ensures
            r == expects(self.phase_spec(), event@),
    {
        match self.phase {
            Phase::AwaitingLine => match event {
                Event::Line(_) | Event::StreamEnded | Event::ReadFailed => true,
                _ => false,
            },
            Phase::Writing => match event {
                Event::WriteDone | Event::WriteFailed => true,
                _ => false,
            },
            Phase::Closed => false,
        }
    }

    /// Takes one event and returns the action that the transports perform
    /// next; the identity stays as it is.
    pub fn step(&mut self, event: Event) -> (action: Action)
        requires
            expects(old(self).phase_spec(), event@),
        ensures
            final(self).unit_spec() == old(self).unit_spec(),
            (final(self).phase_spec(), action@) == step_model(
                old(self).phase_spec(),
                old(self).unit_spec(),
                event@,
            ),
    {
        match event {
            Event::Line(line) => {
                let action = route_line(&self.unit, line.as_str());
                self.phase = match action {
                    Action::Forward(_) => Phase::Writing,
                    _ => Phase::AwaitingLine,
                };
                action
            },
            Event::StreamEnded => {
                self.phase = Phase::Closed;
                Action::Finish
            },
            Event::ReadFailed => {
                self.phase = Phase::Closed;
                Action::Fail(Failure::Read)
            },
            Event::WriteDone => {
                self.phase = Phase::AwaitingLine;
                Action::ReadNext
            },
            Event::WriteFailed => {
                self.phase = Phase::Closed;
                Action::Fail(Failure::Write)
            },
        }
    }
}

} // verus!
