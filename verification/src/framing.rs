//! The adapter as a state machine over bytes, and what holds of it.

use crate::error;
use crate::error::{Error, ErrorKind};
use crate::limits::AdapterLimits;
use crate::lines;
use crate::lines::{NumericResponse, TaggedStatus};
use crate::text;
use crate::text::RIGHT_BRACE;
use vstd::prelude::*;

verus! {

/// How a response that the parser sees came off the wire.
#[derive(Clone, Copy, Debug, PartialEq, Eq, Structural)]
pub enum Provenance {
    TranslatedUidFetch { leading_uid: u32, wire_bytes: usize },
    Unchanged { wire_bytes: usize },
}

/// What the first line of an active response announced.
#[derive(Clone, Copy, Debug, PartialEq, Eq, Structural)]
pub enum ActiveResponseKind {
    TranslatedUidFetch { leading_uid: u32 },
    Unchanged,
}

/// How far activation has come.
#[verifier::ext_equal]
pub ghost enum Phase {
    PassThrough,
    PendingEnable { tag: Seq<u8>, saw_enabled: bool },
    Active,
    Poisoned,
}

/// Everything the adapter remembers between two bytes.
#[verifier::ext_equal]
pub ghost struct State {
    pub limits: AdapterLimits,
    pub phase: Phase,
    pub provenance: Seq<Provenance>,
    pub reserved: int,
    pub capacity: int,
    pub activation_wire_bytes: int,
    pub literal_bytes: int,
    pub poison: Option<&'static str>,
    pub line: Seq<u8>,
    pub literal_remaining: int,
    pub response_bytes: int,
    pub in_response: bool,
    pub first_line: bool,
    pub holds_slot: bool,
    pub kind: Option<ActiveResponseKind>,
    pub literal_context: bool,
}

/// The part of the state that a control handle shares with its adapter.
#[verifier::ext_equal]
pub ghost struct Control {
    pub phase: Phase,
    pub provenance: Seq<Provenance>,
    pub reserved: int,
    pub capacity: int,
    pub activation_wire_bytes: int,
    pub literal_bytes: int,
    pub poison: Option<&'static str>,
}

/// The part of the state that the adapter keeps to itself.
#[verifier::ext_equal]
pub ghost struct Frame {
    pub limits: AdapterLimits,
    pub line: Seq<u8>,
    pub literal_remaining: int,
    pub response_bytes: int,
    pub in_response: bool,
    pub first_line: bool,
    pub holds_slot: bool,
    pub kind: Option<ActiveResponseKind>,
    pub literal_context: bool,
}

/// The whole state of an adapter and its handle.
pub open spec fn joined(control: Control, frame: Frame) -> State {
    State {
        limits: frame.limits,
        phase: control.phase,
        provenance: control.provenance,
        reserved: control.reserved,
        capacity: control.capacity,
        activation_wire_bytes: control.activation_wire_bytes,
        literal_bytes: control.literal_bytes,
        poison: control.poison,
        line: frame.line,
        literal_remaining: frame.literal_remaining,
        response_bytes: frame.response_bytes,
        in_response: frame.in_response,
        first_line: frame.first_line,
        holds_slot: frame.holds_slot,
        kind: frame.kind,
        literal_context: frame.literal_context,
    }
}

/// The outcome of one transition: the next state, what is emitted, what failed.
#[verifier::ext_equal]
pub ghost struct Step {
    pub state: State,
    pub out: Seq<u8>,
    pub error: Option<Error>,
}

/// The state of a fresh adapter.
pub open spec fn initial(limits: AdapterLimits) -> State {
    State {
        limits,
        phase: Phase::PassThrough,
        provenance: Seq::empty(),
        reserved: 0,
        capacity: limits.provenance_capacity@ as int,
        activation_wire_bytes: 0,
        literal_bytes: 0,
        poison: None,
        line: Seq::empty(),
        literal_remaining: 0,
        response_bytes: 0,
        in_response: false,
        first_line: true,
        holds_slot: false,
        kind: None,
        literal_context: false,
    }
}

/// Pass-through, with no response, line, literal or record in progress.
pub open spec fn at_boundary(s: State) -> bool {
    &&& s.phase is PassThrough
    &&& s.provenance.len() == 0
    &&& s.reserved == 0
    &&& s.line.len() == 0
    &&& s.literal_remaining == 0
    &&& !s.in_response
    &&& !s.holds_slot
}

/// The error of a poisoned state.
pub open spec fn poison_error(s: State) -> Error {
    error::data_error(
        match s.poison {
            Some(message) => message,
            None => "UIDONLY adapter poisoned",
        },
    )
}

/// The error of a result, if it is one.
pub open spec fn verdict(result: Result<(), Error>) -> Option<Error> {
    match result {
        Ok(()) => None,
        Err(e) => Some(e),
    }
}

pub open spec fn poisoned(s: State, message: &'static str) -> State {
    State { phase: Phase::Poisoned, poison: Some(message), ..s }
}

pub open spec fn fail(s: State, message: &'static str) -> Step {
    Step {
        state: poisoned(s, message),
        out: Seq::empty(),
        error: Some(error::data_error(message)),
    }
}

pub open spec fn pass(s: State, out: Seq<u8>) -> Step {
    Step { state: s, out, error: None }
}

/// No room is left for the record of one more active response.
pub open spec fn blocked(s: State) -> bool {
    s.phase is Active && s.provenance.len() + s.reserved >= s.capacity
}

/// The state at the first byte of a response; an active one reserves its record.
pub open spec fn begin(s: State) -> State {
    State {
        reserved: if s.phase is Active { s.reserved + 1 } else { s.reserved },
        holds_slot: s.phase is Active || s.holds_slot,
        in_response: true,
        first_line: true,
        response_bytes: 0,
        kind: None,
        literal_context: false,
        ..s
    }
}

/// The state between two responses.
pub open spec fn between(s: State) -> State {
    State {
        in_response: false,
        first_line: true,
        response_bytes: 0,
        kind: None,
        literal_context: false,
        ..s
    }
}

/// A line with the word at `start..end` replaced by `FETCH`.
pub open spec fn with_fetch(line: Seq<u8>, start: int, end: int) -> Seq<u8> {
    line.take(start) + text::word_bytes("FETCH"@) + line.skip(end)
}

/// What the first line of a response tells; `out` is the line to hand on.
pub open spec fn classify(s: State, line: Seq<u8>) -> Step {
    match (s.phase, lines::numeric_response(line)) {
        (Phase::Poisoned, _) => fail(s, "UIDONLY adapter already poisoned"),
        (_, Err(e)) => fail(s, e.message),
        (Phase::PassThrough, Ok(numeric)) => pass(
            State {
                literal_context: numeric is Fetch || lines::untagged_may_carry_literal(line),
                kind: if numeric is Fetch { Some(ActiveResponseKind::Unchanged) } else { s.kind },
                ..s
            },
            line,
        ),
        (Phase::PendingEnable { .. }, Ok(NumericResponse::UidFetch { .. })) => fail(
            s,
            "UIDFETCH arrived before UIDONLY activation",
        ),
        (Phase::PendingEnable { .. }, Ok(_)) => pass(s, line),
        (
            Phase::Active,
            Ok(NumericResponse::UidFetch { leading_uid, atom_start, atom_end }),
        ) => pass(
            State { kind: Some(ActiveResponseKind::TranslatedUidFetch { leading_uid }), ..s },
            with_fetch(line, atom_start as int, atom_end as int),
        ),
        (Phase::Active, Ok(NumericResponse::Fetch)) => fail(
            s,
            "raw FETCH is forbidden after UIDONLY activation",
        ),
        (Phase::Active, Ok(NumericResponse::Other)) => pass(
            State { kind: Some(ActiveResponseKind::Unchanged), ..s },
            line,
        ),
    }
}

pub open spec fn record_of(kind: ActiveResponseKind, wire_bytes: int) -> Provenance {
    match kind {
        ActiveResponseKind::TranslatedUidFetch { leading_uid } => Provenance::TranslatedUidFetch {
            leading_uid,
            wire_bytes: wire_bytes as usize,
        },
        ActiveResponseKind::Unchanged => Provenance::Unchanged { wire_bytes: wire_bytes as usize },
    }
}

/// The end of a response whose last line is `line`.
pub open spec fn finish(s: State, line: Seq<u8>) -> Step {
    match s.phase {
        Phase::PassThrough => pass(between(s), line),
        Phase::PendingEnable { tag, saw_enabled } => {
            let counted = State {
                activation_wire_bytes: s.activation_wire_bytes + s.response_bytes,
                ..s
            };
            if s.activation_wire_bytes + s.response_bytes > usize::MAX {
                fail(s, "ENABLE UIDONLY wire byte count overflow")
            } else if lines::enabled_uidonly(line) {
                pass(
                    between(
                        State { phase: Phase::PendingEnable { tag, saw_enabled: true }, ..counted },
                    ),
                    line,
                )
            } else {
                match lines::tagged_completion(line, tag) {
                    None => pass(between(counted), line),
                    Some(TaggedStatus::Done) => if saw_enabled {
                        pass(between(State { phase: Phase::Active, ..counted }), line)
                    } else {
                        fail(counted, "ENABLE completed OK without ENABLED UIDONLY")
                    },
                    Some(TaggedStatus::NoOrBad) => fail(counted, "ENABLE UIDONLY was rejected"),
                }
            }
        },
        Phase::Active => if !s.holds_slot || s.reserved == 0 {
            fail(s, "missing reserved provenance slot")
        } else {
            match s.kind {
                None => fail(s, "missing active response classification"),
                Some(kind) => pass(
                    between(
                        State {
                            reserved: s.reserved - 1,
                            provenance: s.provenance.push(record_of(kind, s.response_bytes)),
                            holds_slot: false,
                            ..s
                        },
                    ),
                    line,
                ),
            }
        },
        Phase::Poisoned => Step {
            state: s,
            out: Seq::empty(),
            error: Some(error::data_error("UIDONLY adapter poisoned")),
        },
    }
}

pub open spec fn in_uidfetch(s: State) -> bool {
    s.kind matches Some(ActiveResponseKind::TranslatedUidFetch { .. })
}

/// The literal that a line (without its line end) announces in this state.
pub open spec fn announced(s: State, body: Seq<u8>) -> Result<Option<usize>, Error> {
    if body.len() == 0 || body.last() != RIGHT_BRACE {
        Ok(None)
    } else if in_uidfetch(s) {
        match lines::literal_len(body) {
            Ok(length) => Ok(Some(length)),
            Err(e) => Err(e),
        }
    } else if s.phase is PassThrough && s.literal_context {
        lines::pass_through_literal_len(body)
    } else {
        Ok(None)
    }
}

/// A classified line: a literal follows, or the response ends with it.
pub open spec fn after_line(s: State, line: Seq<u8>) -> Step {
    let body = line.take(line.len() - 2);
    let marker = body.len() > 0 && body.last() == RIGHT_BRACE;
    if in_uidfetch(s) && lines::nil_date(lines::tokens(body, 0)) {
        fail(s, "UIDFETCH INTERNALDATE NIL is invalid")
    } else if marker && s.phase is Active && !in_uidfetch(s) {
        fail(s, "literal-like marker outside an active UIDFETCH response")
    } else if marker && s.phase is PendingEnable {
        fail(s, "literal response is forbidden during UIDONLY activation")
    } else {
        match announced(s, body) {
            Err(e) => fail(s, e.message),
            Ok(None) => finish(s, line),
            Ok(Some(length)) => if length > s.limits.max_literal_bytes@ {
                fail(s, "literal exceeds configured byte limit")
            } else if s.response_bytes + length > usize::MAX {
                fail(s, "response byte count overflow")
            } else if s.response_bytes + length > s.limits.max_response_bytes@ {
                fail(s, "announced literal exceeds remaining response budget")
            } else {
                pass(State { literal_remaining: length as int, ..s }, line)
            },
        }
    }
}

/// A complete line, line end included, is in the line buffer.
#[verifier::opaque]
pub open spec fn complete_line(s: State) -> Step {
    let cleared = State { line: Seq::empty(), ..s };
    if s.first_line {
        let classified = classify(cleared, s.line);
        if classified.error is Some {
            Step { out: Seq::empty(), ..classified }
        } else {
            after_line(State { first_line: false, ..classified.state }, classified.out)
        }
    } else {
        after_line(cleared, s.line)
    }
}

/// Counts bytes of the response against its ceiling.
pub open spec fn count(s: State, bytes: int) -> Step {
    if s.response_bytes + bytes > usize::MAX {
        fail(s, "response byte count overflow")
    } else {
        let counted = State { response_bytes: s.response_bytes + bytes, ..s };
        if counted.response_bytes > s.limits.max_response_bytes@ {
            fail(counted, "response exceeds configured byte limit")
        } else {
            pass(counted, Seq::empty())
        }
    }
}

/// One byte of a line.
pub open spec fn line_byte(s: State, b: u8) -> Step {
    let counted = count(State { line: s.line.push(b), ..s }, 1);
    if counted.error is Some {
        counted
    } else if s.line.len() + 1 > s.limits.max_control_line_bytes@ {
        fail(counted.state, "control line exceeds configured byte limit")
    } else if lines::ends_in_crlf(s.line.push(b)) {
        complete_line(counted.state)
    } else {
        counted
    }
}

/// Some bytes of an announced literal.
pub open spec fn literal_bytes(s: State, bytes: Seq<u8>) -> Step {
    let counted = count(s, bytes.len() as int);
    if counted.error is Some {
        counted
    } else if s.literal_bytes + bytes.len() > u64::MAX {
        fail(counted.state, "literal byte counter overflow")
    } else {
        pass(
            State {
                literal_bytes: s.literal_bytes + bytes.len(),
                literal_remaining: s.literal_remaining - bytes.len(),
                ..counted.state
            },
            bytes,
        )
    }
}

/// A rewritten line keeps its line end.
pub proof fn lemma_rewrite_keeps_line_end(line: Seq<u8>)
    requires
        lines::ends_in_crlf(line),
        line.len() <= usize::MAX,
    ensures
        lines::numeric_response(line) matches Ok(
            NumericResponse::UidFetch { leading_uid, atom_start, atom_end },
        ) ==> {
            &&& 0 < leading_uid
            &&& 4 <= atom_start <= atom_end <= line.len() - 3
            &&& lines::ends_in_crlf(with_fetch(line, atom_start as int, atom_end as int))
        },
{
    reveal_strlit("FETCH");
    if lines::untagged(line) {
        lines::lemma_digits_end(line, 2);
        let number_end = lines::digits_end(line, 2);
        if lines::space_at(line, number_end) {
            lines::lemma_letters_end(line, number_end + 1);
            let atom_start = number_end + 1;
            let atom_end = lines::letters_end(line, atom_start);
            if lines::space_at(line, atom_end) {
                assert(atom_end <= line.len() - 3);
                let rewritten = with_fetch(line, atom_start, atom_end);
                assert(rewritten.len() == line.len() - (atom_end - atom_start) + 5);
                assert(rewritten[rewritten.len() - 1] == line[line.len() - 1]);
                assert(rewritten[rewritten.len() - 2] == line[line.len() - 2]);
            }
        }
    }
}

/// Lines are read up to the end of one line, a failure or the end of the input.
#[verifier::ext_equal]
pub ghost struct LineRun {
    pub step: Step,
    pub rest: Seq<u8>,
    pub completed: bool,
}

pub open spec fn line_run(s: State, input: Seq<u8>) -> LineRun
    decreases input.len(),
{
    if input.len() == 0 {
        LineRun { step: pass(s, Seq::empty()), rest: input, completed: false }
    } else {
        let step = line_byte(s, input[0]);
        let completed = lines::ends_in_crlf(s.line.push(input[0]));
        if step.error is Some || completed {
            LineRun { step, rest: input.drop_first(), completed }
        } else {
            line_run(step.state, input.drop_first())
        }
    }
}

/// What one round of processing did with the buffered input.
#[derive(Clone, Copy, Debug, PartialEq, Eq, Structural)]
pub enum ProcessInput {
    Emitted,
    NeedInput,
    Backpressured,
}

#[verifier::ext_equal]
pub ghost struct Round {
    pub state: State,
    pub input: Seq<u8>,
    pub emit: Seq<u8>,
    pub result: Result<ProcessInput, Error>,
}

/// The most literal bytes that one round moves.
pub const READ_CHUNK: usize = 8192;

pub open spec fn smaller(a: int, b: int) -> int {
    if a < b {
        a
    } else {
        b
    }
}

/// One round of processing over the buffered input.
pub open spec fn round(s: State, input: Seq<u8>, emit: Seq<u8>) -> Round {
    let idle = Round { state: s, input, emit, result: Ok(ProcessInput::NeedInput) };
    if emit.len() > 0 {
        Round { result: Ok(ProcessInput::Emitted), ..idle }
    } else if !s.in_response && input.len() == 0 {
        idle
    } else if !s.in_response && s.phase is Poisoned {
        Round {
            result: Err(poison_error(s)),
            ..idle
        }
    } else if !s.in_response && blocked(s) {
        Round { result: Ok(ProcessInput::Backpressured), ..idle }
    } else {
        let started = if s.in_response { s } else { begin(s) };
        if started.literal_remaining > 0 {
            let n = smaller(smaller(started.literal_remaining, input.len() as int), READ_CHUNK as int);
            let step = literal_bytes(started, input.take(n));
            if input.len() == 0 {
                Round { state: started, ..idle }
            } else {
                match step.error {
                    Some(e) => Round { state: step.state, result: Err(e), ..idle },
                    None => Round {
                        state: step.state,
                        input: input.skip(n),
                        emit: step.out,
                        result: Ok(ProcessInput::Emitted),
                    },
                }
            }
        } else {
            let run = line_run(started, input);
            Round {
                state: run.step.state,
                input: run.rest,
                emit: run.step.out,
                result: match run.step.error {
                    Some(e) => Err(e),
                    None => if run.completed {
                        Ok(ProcessInput::Emitted)
                    } else {
                        Ok(ProcessInput::NeedInput)
                    },
                },
            }
        }
    }
}

/// How a read goes on after a round of processing.
pub ghost enum ReadVerdict {
    Deliver,
    Wait,
    Fill(int),
    Ended,
    Fault(Error),
}

#[verifier::ext_equal]
pub ghost struct Reading {
    pub state: State,
    pub input: Seq<u8>,
    pub emit: Seq<u8>,
    pub delivered: Seq<u8>,
    pub verdict: ReadVerdict,
}

/// The reading of at most `wanted` bytes after the round `r`.
pub open spec fn read_outcome(r: Round, wanted: int, at_eof: bool) -> Reading {
    let idle = Reading {
        state: r.state,
        input: r.input,
        emit: r.emit,
        delivered: Seq::empty(),
        verdict: ReadVerdict::Wait,
    };
    let max_input = r.state.limits.max_input_bytes@;
    match r.result {
        Err(e) => Reading { verdict: ReadVerdict::Fault(e), ..idle },
        Ok(ProcessInput::Backpressured) => idle,
        Ok(ProcessInput::Emitted) => {
            let n = smaller(wanted, r.emit.len() as int);
            Reading {
                emit: r.emit.skip(n),
                delivered: r.emit.take(n),
                verdict: ReadVerdict::Deliver,
                ..idle
            }
        },
        Ok(ProcessInput::NeedInput) => if at_eof {
            if r.input.len() > 0 && !r.state.in_response {
                idle
            } else if r.state.in_response || r.state.line.len() > 0 || r.state.literal_remaining
                > 0 {
                Reading {
                    state: poisoned(r.state, "truncated IMAP response"),
                    verdict: ReadVerdict::Fault(
                        Error {
                            kind: ErrorKind::UnexpectedEof,
                            message: "truncated IMAP response",
                        },
                    ),
                    ..idle
                }
            } else {
                Reading { verdict: ReadVerdict::Ended, ..idle }
            }
        } else if r.input.len() >= max_input {
            Reading {
                state: poisoned(r.state, "input buffer limit reached"),
                verdict: ReadVerdict::Fault(error::data_error("input buffer limit reached")),
                ..idle
            }
        } else {
            Reading {
                verdict: ReadVerdict::Fill(smaller(max_input - r.input.len(), READ_CHUNK as int)),
                ..idle
            }
        },
    }
}

} // verus!
