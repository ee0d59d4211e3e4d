//! Scripted interaction with line- or prompt-driven sessions: send bytes, then
//! wait until expected content shows up in what the session sends back.
//!
//! The library does no input or output of its own. A [`SwitchExpect`] keeps the
//! text that was read and not yet matched, says which bytes are to be written
//! and when the transport is to be flushed, and is told what came of each read.
//! Whoever owns the transport performs the [`Command`]s and reports the
//! [`Event`]s.

use crate::error::{SwitchExpectError, SwitchExpectResult};
use crate::control::{control_code, control_code_of};
use crate::hay::{find, find_spec, lemma_find_within, MatchSpec, ReadUntil};
use crate::text::{decode, decoded, lemma_encode_concat, lemma_encode_one};
use std::time::Duration;
use vstd::prelude::*;
use vstd::string::{StrSliceExecFns, StringExecFns};
use vstd::utf8::encode_utf8;

pub mod control;
pub mod describe;
pub mod engine;
pub mod error;
pub mod hay;
pub mod literal;
pub mod pattern;
pub mod text;

verus! {

/// How many bytes one read asks the transport for, at most.
pub const READ_CHUNK: usize = 128;

/// Something for the transport to do.
#[derive(Clone, Debug, PartialEq, Eq)]
pub enum Command {
    /// Write all of these bytes.
    Write(Vec<u8>),
    /// Deliver what has been written.
    Flush,
}

/// A [`Command`], with the bytes as a sequence.
pub enum CommandSpec {
    Write(Seq<u8>),
    Flush,
}

impl DeepView for Command {
    type V = CommandSpec;

    open spec fn deep_view(&self) -> CommandSpec {
        match self {
            Command::Write(bytes) => CommandSpec::Write(bytes@),
            Command::Flush => CommandSpec::Flush,
        }
    }
}

/// What came of one read that was raced against the timer.
#[derive(Debug)]
pub enum Event {
    /// The read came first and brought these bytes (none at all is a read like
    /// any other).
    Data(Vec<u8>),
    /// The timer came first.
    TimerElapsed,
    /// The read came first and failed.
    Failed(std::io::Error),
}

/// What a session holds.
pub struct SessionState {
    /// The text read and not yet handed out.
    pub buffer: Seq<char>,
    /// How long an `expect` may wait; `None` for as long as it takes.
    pub timeout: Option<Duration>,
}

/// A session: the text read from the transport and not yet matched, and the
/// time an `expect` may take.
pub struct SwitchExpect {
    buffer: String,
    timeout: Option<Duration>,
}

impl View for SwitchExpect {
    type V = SessionState;

    closed spec fn view(&self) -> SessionState {
        SessionState { buffer: self.buffer@, timeout: self.timeout }
    }
}

/// What an `expect` hands back, with sequences in place of strings.
pub open spec fn outcome_view(
    outcome: SwitchExpectResult<Option<(String, String)>>,
) -> SwitchExpectResult<Option<(Seq<char>, Seq<char>)>> {
    match outcome {
        Ok(found) => Ok(pair_view(found)),
        Err(error) => Err(error),
    }
}

/// What becomes of the buffer when `fresh` text arrives while `needle` is
/// waited for: the buffer afterwards, and what is handed to the caller.
///
/// The fresh text goes to the end of the buffer. If `needle` then matches (the
/// stream is never taken to have ended), the text before the match and the
/// match itself leave the buffer and are handed out, in that order; what
/// follows the match stays. Without a match everything stays, and nothing is
/// handed out.
pub open spec fn feed_spec(buffer: Seq<char>, needle: MatchSpec, fresh: Seq<char>) -> (
    Seq<char>,
    Option<(Seq<char>, Seq<char>)>,
) {
    let text = buffer + fresh;
    match find_spec(needle, text, false) {
        Some((start, end)) => (
            text.subrange(end, text.len() as int),
            Some((text.subrange(0, start), text.subrange(start, end))),
        ),
        None => (text, None),
    }
}

/// One step of an `expect`: the buffer afterwards, and what the step hands
/// back.
///
/// Bytes that were read are decoded and fed to the buffer, as [`feed_spec`]
/// has it; `Ok(None)` says that another read is due. The timer and a failed
/// read end the `expect` with an error and leave the buffer as it was.
pub open spec fn step_spec(buffer: Seq<char>, needle: MatchSpec, event: Event) -> (
    Seq<char>,
    SwitchExpectResult<Option<(Seq<char>, Seq<char>)>>,
) {
    match event {
        Event::Data(bytes) => {
            let (kept, found) = feed_spec(buffer, needle, decoded(bytes@));
            (kept, Ok(found))
        },
        Event::TimerElapsed => (buffer, Err(SwitchExpectError::ExpectTimeout)),
        Event::Failed(cause) => (buffer, Err(SwitchExpectError::TokioIOError(cause))),
    }
}

/// A pair of strings as a pair of sequences.
pub open spec fn pair_view(found: Option<(String, String)>) -> Option<(Seq<char>, Seq<char>)> {
    match found {
        Some((preamble, matched)) => Some((preamble@, matched@)),
        None => None,
    }
}

/// A whole wait: steps taken on `events`, one after the other, until one of
/// them ends the wait. Events after that one are not looked at. Where the
/// events run out first, the wait is still on: `Ok(None)`.
pub open spec fn run_spec(buffer: Seq<char>, needle: MatchSpec, events: Seq<Event>) -> (
    Seq<char>,
    SwitchExpectResult<Option<(Seq<char>, Seq<char>)>>,
)
    decreases events.len(),
{
    if events.len() == 0 {
        (buffer, Ok(None))
    } else {
        let (after, outcome) = step_spec(buffer, needle, events[0]);
        if outcome matches Ok(None) {
            run_spec(after, needle, events.drop_first())
        } else {
            (after, outcome)
        }
    }
}

/// The text that an event brings in.
pub open spec fn text_of(event: Event) -> Seq<char> {
    match event {
        Event::Data(bytes) => decoded(bytes@),
        _ => Seq::empty(),
    }
}

/// The text that a whole wait takes in: what its events bring, in the order
/// of their arrival, up to and including the event that ends the wait.
pub open spec fn taken_in(buffer: Seq<char>, needle: MatchSpec, events: Seq<Event>) -> Seq<char>
    decreases events.len(),
{
    if events.len() == 0 {
        Seq::empty()
    } else {
        let (after, outcome) = step_spec(buffer, needle, events[0]);
        if outcome matches Ok(None) {
            text_of(events[0]) + taken_in(after, needle, events.drop_first())
        } else {
            text_of(events[0])
        }
    }
}

/// The text that an outcome hands to the caller: the preamble, then the match.
pub open spec fn handed_out(outcome: SwitchExpectResult<Option<(Seq<char>, Seq<char>)>>) -> Seq<
    char,
> {
    match outcome {
        Ok(Some((preamble, matched))) => preamble + matched,
        _ => Seq::empty(),
    }
}

/// A step ends in one of four ways, and the event decides which: bytes that
/// were read lead to a match or to waiting on, the timer to a timeout, a failed
/// read to that failure. Nothing else comes of a step.
pub proof fn lemma_step_outcomes(buffer: Seq<char>, needle: MatchSpec, event: Event)
    ensures
        match step_spec(buffer, needle, event).1 {
            Ok(Some(_)) => event matches Event::Data(bytes) && find_spec(
                needle,
                buffer + decoded(bytes@),
                false,
            ) is Some,
            Ok(None) => event matches Event::Data(bytes) && find_spec(
                needle,
                buffer + decoded(bytes@),
                false,
            ) is None,
            Err(SwitchExpectError::ExpectTimeout) => event is TimerElapsed,
            Err(SwitchExpectError::TokioIOError(cause)) => event == Event::Failed(cause),
            Err(SwitchExpectError::UnknownControlCode(_)) => false,
        },
{
}

/// A step neither loses text nor makes any up: what it hands out, followed by
/// what it keeps, is what was buffered followed by what the event brought. In
/// particular the buffer never holds text that was handed out, and a step
/// that ends in an error keeps the buffer as it was.
pub proof fn lemma_step_conserves(buffer: Seq<char>, needle: MatchSpec, event: Event)
    ensures
        handed_out(step_spec(buffer, needle, event).1) + step_spec(buffer, needle, event).0
            == buffer + text_of(event),
        step_spec(buffer, needle, event).1 is Err ==> step_spec(buffer, needle, event).0
            == buffer,
{
    if let Event::Data(bytes) = event {
        lemma_find_within(needle, buffer + decoded(bytes@), false);
    }
}

/// A whole wait neither loses text nor makes any up: what it hands out,
/// followed by what it keeps, is what was buffered followed by what the wait
/// took in.
pub proof fn lemma_run_conserves(buffer: Seq<char>, needle: MatchSpec, events: Seq<Event>)
    ensures
        handed_out(run_spec(buffer, needle, events).1) + run_spec(buffer, needle, events).0
            == buffer + taken_in(buffer, needle, events),
    decreases events.len(),
{
    if events.len() > 0 {
        let (after, outcome) = step_spec(buffer, needle, events[0]);
        lemma_step_conserves(buffer, needle, events[0]);
        if outcome matches Ok(None) {
            lemma_run_conserves(after, needle, events.drop_first());
        }
    }
}

/// A timeout loses nothing. Where one wait ends in a timeout and the next one
/// in a match, the second wait sees everything that both took in, in the order
/// of its arrival: the preamble, the match and what stays buffered are, end to
/// end, the text buffered at the start, then what the first wait took in, then
/// what the second did.
pub proof fn lemma_timeout_loses_nothing(
    buffer: Seq<char>,
    first_needle: MatchSpec,
    first: Seq<Event>,
    second_needle: MatchSpec,
    second: Seq<Event>,
)
    requires
        run_spec(buffer, first_needle, first).1 == Err::<Option<(Seq<char>, Seq<char>)>, _>(
            SwitchExpectError::ExpectTimeout,
        ),
        run_spec(run_spec(buffer, first_needle, first).0, second_needle, second).1 matches Ok(
            Some(_),
        ),
    ensures
        ({
            let kept = run_spec(buffer, first_needle, first).0;
            let (rest, outcome) = run_spec(kept, second_needle, second);
            &&& kept == buffer + taken_in(buffer, first_needle, first)
            &&& outcome matches Ok(Some((preamble, matched))) && preamble + matched + rest
                == buffer + taken_in(buffer, first_needle, first) + taken_in(
                kept,
                second_needle,
                second,
            )
        }),
{
    lemma_run_conserves(buffer, first_needle, first);
    lemma_run_conserves(run_spec(buffer, first_needle, first).0, second_needle, second);
}

impl SwitchExpect {
    /// A session that has read nothing yet.
    pub fn new(timeout: Option<Duration>) -> (session: SwitchExpect)
        ensures
            session@ == (SessionState { buffer: Seq::empty(), timeout }),
    {
        SwitchExpect { buffer: String::new(), timeout }
    }

    /// How long an `expect` may wait; `None` for as long as it takes.
    pub fn timeout(&self) -> (timeout: Option<Duration>)
        ensures
            timeout == self@.timeout,
    {
        self.timeout
    }

    /// The text read and not yet handed out.
    pub fn buffer(&self) -> (text: &str)
        ensures
            text@ == self@.buffer,
    {
        self.buffer.as_str()
    }

    /// Sends `s`: its bytes are written as they are.
    pub fn send(&self, s: &str) -> (plan: Vec<Command>)
        ensures
            plan.deep_view() == seq![CommandSpec::Write(encode_utf8(s@))],
    {
        let plan = vec![Command::Write(s.as_bytes_vec())];
        plan
    }

    /// Sends `s` and a line feed after it, in one write.
    pub fn send_line(&self, s: &str) -> (plan: Vec<Command>)
        ensures
            plan.deep_view() == seq![CommandSpec::Write(encode_utf8(s@ + seq!['\n']))],
            encode_utf8(s@ + seq!['\n']) == encode_utf8(s@) + seq![0x0au8],
    {
        let mut bytes = s.as_bytes_vec();
        bytes.push(0x0a);
        proof {
            lemma_encode_concat(s@, seq!['\n']);
            lemma_encode_one('\n');
            assert(0x0au32 & 0x7f == 0x0au32) by (bit_vector);
            assert(bytes@ =~= encode_utf8(s@ + seq!['\n']));
        }
        let plan = vec![Command::Write(bytes)];
        plan
    }

    /// Has the transport deliver what was written.
    pub fn flush(&self) -> (plan: Vec<Command>)
        ensures
            plan.deep_view() == seq![CommandSpec::Flush],
    {
        let plan = vec![Command::Flush];
        plan
    }

    /// Sends the control code that `c` names: the one byte is written and the
    /// transport flushed at once. A character that names no control code is
    /// an error, and nothing is sent.
    pub fn send_control(&self, c: char) -> (plan: SwitchExpectResult<Vec<Command>>)
        ensures
            match control_code_of(c) {
                Some(code) => plan matches Ok(commands) && commands.deep_view() == seq![
                    CommandSpec::Write(seq![code]),
                    CommandSpec::Flush,
                ],
                None => plan == Err::<Vec<Command>, _>(SwitchExpectError::UnknownControlCode(c)),
            },
    {
        match control_code(c) {
            Some(code) => {
                let byte = vec![code];
                assert(byte@ =~= seq![code]);
                let commands = vec![Command::Write(byte), Command::Flush];
                Ok(commands)
            },
            None => Err(SwitchExpectError::UnknownControlCode(c)),
        }
    }

    /// Takes one step of waiting for `needle`, on what came of the latest
    /// read.
    ///
    /// `Ok(None)` asks for another read. `Ok(Some((preamble, matched)))` ends
    /// the wait: `preamble` is the text before the match and `matched` the
    /// match; what follows it stays buffered for the next `expect`. An error
    /// ends the wait too, and leaves the buffer as it was.
    pub fn expect(&mut self, needle: &ReadUntil, event: Event) -> (outcome: SwitchExpectResult<
        Option<(String, String)>,
    >)
        ensures
            final(self)@.timeout == old(self)@.timeout,
            (final(self)@.buffer, outcome_view(outcome)) == step_spec(
                old(self)@.buffer,
                needle@,
                event,
            ),
    {
        match event {
            Event::Data(bytes) => {
                let fresh = decode(bytes.as_slice());
                Ok(self.feed(needle, fresh.as_str()))
            },
            Event::TimerElapsed => Err(SwitchExpectError::ExpectTimeout),
            Event::Failed(cause) => Err(SwitchExpectError::TokioIOError(cause)),
        }
    }

    /// Appends `fresh` to the buffer and looks for `needle` in it.
    ///
    /// On a match the text before it and the match itself leave the buffer
    /// and are handed back; what follows the match stays. Without a match the
    /// buffer keeps everything.
    pub fn feed(&mut self, needle: &ReadUntil, fresh: &str) -> (found: Option<(String, String)>)
        ensures
            final(self)@.timeout == old(self)@.timeout,
            (final(self)@.buffer, pair_view(found)) == feed_spec(
                old(self)@.buffer,
                needle@,
                fresh@,
            ),
    {
        self.buffer.append(fresh);
        match find(needle, self.buffer.as_str(), false) {
            Some((start, end)) => {
                let text = self.buffer.as_str();
                let total: usize = text.unicode_len();
                let preamble = text.substring_char(0, start).to_owned();
                let matched = text.substring_char(start, end).to_owned();
                let rest = text.substring_char(end, total).to_owned();
                self.buffer = rest;
                Some((preamble, matched))
            },
            None => None,
        }
    }

    /// [`SwitchExpect::expect`] for an exact text.
    pub fn exp_string(&mut self, s: &str, event: Event) -> (outcome: SwitchExpectResult<
        Option<(String, String)>,
    >)
        ensures
            final(self)@.timeout == old(self)@.timeout,
            (final(self)@.buffer, outcome_view(outcome)) == step_spec(
                old(self)@.buffer,
                MatchSpec::Literal(s@),
                event,
            ),
    {
        let needle = ReadUntil::String(s.to_owned());
        self.expect(&needle, event)
    }
}

} // verus!
