//! The read / reconnect decisions of the ingestion loop, as a state machine.
//!
//! The caller performs each action (open the source, read a line, hand a
//! message to the sink, report an error) and feeds back what came of it.
use vstd::prelude::*;
use crate::decode::{DecodeError, decode, decode_spec};
use crate::message::{Message, MessageModel};

verus! {

#[derive(Debug, Clone, Copy, PartialEq, Eq, Structural)]
pub enum LoopState {
    /// The source is being opened (at start and after each drop).
    Reconnecting,
    /// A handle is open and lines are read from it.
    Reading,
    /// A fatal error ended the loop.
    Terminated,
}

/// What a read of one line gave.
pub enum LineOutcome {
    /// The bytes of one line, terminator included.
    Data(String),
    /// Zero bytes: the writer end closed.
    EndOfStream,
    IoFailure(String),
}

/// What the caller reports back after performing an action.
pub enum Event {
    Opened,
    OpenFailed(String),
    Read(LineOutcome),
}

/// An error that ends the loop, with its cause.
#[derive(Debug, Clone, PartialEq, Eq)]
pub enum Fatal {
    OpenError(String),
    IoFailure(String),
}

/// What the caller is to do next.
#[derive(Debug, Clone, PartialEq, Eq)]
pub enum Action {
    /// Drop the current handle, if any, and open the source at the same path.
    Open,
    /// Read the next line from the open handle.
    ReadLine,
    /// Hand the message to the sink, then read the next line.
    Forward(Message),
    /// Report the decode error, then read the next line.
    Report(DecodeError),
    /// Report the error and end the loop.
    Stop(Fatal),
    /// The loop has ended: nothing is left to do.
    Halt,
}

pub enum EventModel {
    Opened,
    OpenFailed(Seq<char>),
    Data(Seq<char>),
    EndOfStream,
    IoFailure(Seq<char>),
}

pub enum FatalModel {
    OpenError(Seq<char>),
    IoFailure(Seq<char>),
}

pub enum ActionModel {
    Open,
    ReadLine,
    Forward(MessageModel),
    Report(DecodeError),
    Stop(FatalModel),
    Halt,
}

impl View for Event {
    type V = EventModel;

    open spec fn view(&self) -> EventModel {
        match self {
            Event::Opened => EventModel::Opened,
            Event::OpenFailed(c) => EventModel::OpenFailed(c@),
            Event::Read(LineOutcome::Data(s)) => EventModel::Data(s@),
            Event::Read(LineOutcome::EndOfStream) => EventModel::EndOfStream,
            Event::Read(LineOutcome::IoFailure(c)) => EventModel::IoFailure(c@),
        }
    }
}

impl View for Action {
    type V = ActionModel;

    open spec fn view(&self) -> ActionModel {
        match self {
            Action::Open => ActionModel::Open,
            Action::ReadLine => ActionModel::ReadLine,
            Action::Forward(m) => ActionModel::Forward(m@),
            Action::Report(e) => ActionModel::Report(*e),
            Action::Stop(Fatal::OpenError(c)) => ActionModel::Stop(FatalModel::OpenError(c@)),
            Action::Stop(Fatal::IoFailure(c)) => ActionModel::Stop(FatalModel::IoFailure(c@)),
            Action::Halt => ActionModel::Halt,
        }
    }
}

/// The characters that `str::trim` removes: Unicode's White_Space property.
pub open spec fn is_unicode_ws(c: char) -> bool {
    ('\t' <= c && c <= '\r') || c == ' ' || c == '\u{85}' || c == '\u{a0}' || c == '\u{1680}' || (
    '\u{2000}' <= c && c <= '\u{200a}') || c == '\u{2028}' || c == '\u{2029}' || c == '\u{202f}'
        || c == '\u{205f}' || c == '\u{3000}'
}

/// A line that is empty once trimmed of whitespace.
pub open spec fn is_blank(s: Seq<char>) -> bool {
    forall|i: int| 0 <= i < s.len() ==> is_unicode_ws(#[trigger] s[i])
}

/// The action that a state waits to have performed.
pub open spec fn awaited(st: LoopState) -> ActionModel {
    match st {
        LoopState::Reconnecting => ActionModel::Open,
        LoopState::Reading => ActionModel::ReadLine,
        LoopState::Terminated => ActionModel::Halt,
    }
}

/// The transition on one event: the next state and the action to perform.
/// An event that does not answer the state's awaited action changes nothing.
pub open spec fn next(st: LoopState, e: EventModel) -> (LoopState, ActionModel) {
    match (st, e) {
        (LoopState::Reconnecting, EventModel::Opened) => (LoopState::Reading, ActionModel::ReadLine),
        (LoopState::Reconnecting, EventModel::OpenFailed(c)) => (
            LoopState::Terminated,
            ActionModel::Stop(FatalModel::OpenError(c)),
        ),
        (LoopState::Reading, EventModel::Data(s)) => if is_blank(s) {
            (LoopState::Reconnecting, ActionModel::Open)
        } else {
            match decode_spec(s) {
                Ok(m) => (LoopState::Reading, ActionModel::Forward(m)),
                Err(d) => (LoopState::Reading, ActionModel::Report(d)),
            }
        },
        (LoopState::Reading, EventModel::EndOfStream) => (LoopState::Reconnecting, ActionModel::Open),
        (LoopState::Reading, EventModel::IoFailure(c)) => (
            LoopState::Terminated,
            ActionModel::Stop(FatalModel::IoFailure(c)),
        ),
        _ => (st, awaited(st)),
    }
}

/// A blank line never reaches the decoder: the loop drops the handle and
/// reopens the source.
pub proof fn lemma_blank_line_reopens(s: Seq<char>)
    requires
        is_blank(s),
    ensures
        next(LoopState::Reading, EventModel::Data(s)) == (LoopState::Reconnecting, ActionModel::Open),
{
}

/// The end of the stream is never an error: the loop reopens the source at
/// the same path and, once it is open, reads again.
pub proof fn lemma_end_of_stream_reopens()
    ensures
        next(LoopState::Reading, EventModel::EndOfStream) == (
            LoopState::Reconnecting,
            ActionModel::Open,
        ),
        next(LoopState::Reconnecting, EventModel::Opened) == (
            LoopState::Reading,
            ActionModel::ReadLine,
        ),
{
}

/// A line that does not decode is reported, and reading goes on from the
/// same handle, without a reconnect.
pub proof fn lemma_decode_error_keeps_reading(s: Seq<char>, d: DecodeError)
    requires
        !is_blank(s),
        decode_spec(s) == Err::<MessageModel, DecodeError>(d),
    ensures
        next(LoopState::Reading, EventModel::Data(s)) == (LoopState::Reading, ActionModel::Report(d)),
{
}

/// Only a failed open or a failed read ends the loop, and once ended it stays
/// ended and asks for nothing more.
pub proof fn lemma_termination(st: LoopState, e: EventModel)
    ensures
        next(st, e).0 == LoopState::Terminated <==> (st == LoopState::Terminated || (st
            == LoopState::Reconnecting && e is OpenFailed) || (st == LoopState::Reading
            && e is IoFailure)),
        st == LoopState::Terminated ==> next(st, e).1 == ActionModel::Halt,
        next(st, e).1 is Forward ==> st == LoopState::Reading,
{
}

fn is_unicode_ws_char(c: char) -> (r: bool)
    ensures
        r == is_unicode_ws(c),
{
    ('\t' <= c && c <= '\r') || c == ' ' || c == '\u{85}' || c == '\u{a0}' || c == '\u{1680}' || (
    '\u{2000}' <= c && c <= '\u{200a}') || c == '\u{2028}' || c == '\u{2029}' || c == '\u{202f}'
        || c == '\u{205f}' || c == '\u{3000}'
}

/// Whether a line is empty once trimmed of whitespace.
pub fn is_blank_line(line: &str) -> (r: bool)
    ensures
        r == is_blank(line@),
{
    let s = crate::decode::chars_of(line);
    let mut k: usize = 0;
    while k < s.len()
        invariant
            s@ == line@,
            k <= s@.len(),
            forall|i: int| 0 <= i < k ==> is_unicode_ws(#[trigger] s@[i]),
        decreases s@.len() - k,
    {
        if !is_unicode_ws_char(s[k]) {
            return false;
        }
        k = k + 1;
    }
    true
}

/// The ingestion loop's decision state.
pub struct IngestLoop {
    pub state: LoopState,
}

impl IngestLoop {
    /// A loop about to open its source for the first time.
    pub fn new() -> (r: (IngestLoop, Action))
        ensures
            r.0.state == LoopState::Reconnecting,
            r.1@ == ActionModel::Open,
    {
        (IngestLoop { state: LoopState::Reconnecting }, Action::Open)
    }

    pub fn is_terminated(&self) -> (r: bool)
        ensures
            r == (self.state == LoopState::Terminated),
    {
        self.state == LoopState::Terminated
    }

    /// Takes what came of the last action, moves to the next state, and says
    /// what to do next.
    pub fn handle(&mut self, e: Event) -> (r: Action)
        ensures
            (final(self).state, r@) == next(old(self).state, e@),
    {
        match (self.state, e) {
            (LoopState::Reconnecting, Event::Opened) => {
                self.state = LoopState::Reading;
                Action::ReadLine
            },
            (LoopState::Reconnecting, Event::OpenFailed(c)) => {
                self.state = LoopState::Terminated;
                Action::Stop(Fatal::OpenError(c))
            },
            (LoopState::Reading, Event::Read(LineOutcome::Data(s))) => {
                if is_blank_line(s.as_str()) {
                    self.state = LoopState::Reconnecting;
                    Action::Open
                } else {
                    match decode(s.as_str()) {
                        Ok(m) => Action::Forward(m),
                        Err(d) => Action::Report(d),
                    }
                }
            },
            (LoopState::Reading, Event::Read(LineOutcome::EndOfStream)) => {
                self.state = LoopState::Reconnecting;
                Action::Open
            },
            (LoopState::Reading, Event::Read(LineOutcome::IoFailure(c))) => {
                self.state = LoopState::Terminated;
                Action::Stop(Fatal::IoFailure(c))
            },
            (LoopState::Reconnecting, _) => Action::Open,
            (LoopState::Reading, _) => Action::ReadLine,
            (LoopState::Terminated, _) => Action::Halt,
        }
    }
}

} // verus!
