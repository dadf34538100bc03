//! What holds of every run of reads until UIDONLY is active.

use crate::framing;
use crate::framing_laws;
use crate::framing_laws::{halted, run, sound, started};
use crate::limits::AdapterLimits;
use crate::lines;
use vstd::prelude::*;

verus! {

/// An adapter between two calls, with all bytes that came off the stream and all that were
/// delivered.
#[verifier::ext_equal]
pub ghost struct Pipe {
    pub state: framing::State,
    pub input: Seq<u8>,
    pub emit: Seq<u8>,
    pub at_eof: bool,
    pub received: Seq<u8>,
    pub delivered: Seq<u8>,
}

/// A call on an adapter or on its handle.
pub ghost enum Call {
    /// A read of at most so many bytes.
    Read(nat),
    /// Bytes off the stream; none at all are its end.
    Receive(Seq<u8>),
    /// `ENABLE UIDONLY` was sent under this tag.
    Arm(Seq<u8>),
}

/// A fresh adapter.
pub open spec fn fresh(limits: AdapterLimits) -> Pipe {
    Pipe {
        state: framing::initial(limits),
        input: Seq::empty(),
        emit: Seq::empty(),
        at_eof: false,
        received: Seq::empty(),
        delivered: Seq::empty(),
    }
}

/// What a read of at most `wanted` bytes gives.
pub open spec fn reading(pipe: Pipe, wanted: nat) -> framing::Reading {
    framing::read_outcome(
        framing::round(pipe.state, pipe.input, pipe.emit),
        wanted as int,
        pipe.at_eof,
    )
}

/// What a call does.
pub open spec fn after_call(pipe: Pipe, call: Call) -> Pipe {
    match call {
        Call::Read(wanted) => if wanted == 0 {
            pipe
        } else {
            let read = reading(pipe, wanted);
            Pipe {
                state: read.state,
                input: read.input,
                emit: read.emit,
                delivered: pipe.delivered + read.delivered,
                ..pipe
            }
        },
        Call::Receive(bytes) => Pipe {
            input: pipe.input + bytes,
            at_eof: pipe.at_eof || bytes.len() == 0,
            received: pipe.received + bytes,
            ..pipe
        },
        Call::Arm(tag) => if pipe.state.phase is PassThrough {
            Pipe {
                state: framing::State {
                    phase: framing::Phase::PendingEnable { tag, saw_enabled: false },
                    activation_wire_bytes: 0,
                    ..pipe.state
                },
                ..pipe
            }
        } else {
            pipe
        },
    }
}

/// What some calls do, one after the other.
pub open spec fn after_calls(pipe: Pipe, calls: Seq<Call>) -> Pipe
    decreases calls.len(),
{
    if calls.len() == 0 {
        pipe
    } else {
        after_call(after_calls(pipe, calls.drop_last()), calls.last())
    }
}

/// UIDONLY is not active before, between and after some calls.
pub open spec fn stays_inactive(pipe: Pipe, calls: Seq<Call>) -> bool {
    forall|n: int|
        0 <= n <= calls.len() ==> !((#[trigger] after_calls(pipe, calls.take(n))).state.phase
            is Active)
}

/// Nothing failed: every byte that was received was delivered, waits to be, waits for its
/// line end, or was not looked at yet.
spec fn flowing(pipe: Pipe) -> bool {
    &&& sound(pipe.state)
    &&& pipe.state.limits.max_input_bytes@ > 0
    &&& !(pipe.state.phase is Poisoned)
    &&& !framing::in_uidfetch(pipe.state)
    &&& pipe.received == pipe.delivered + pipe.emit + pipe.state.line + pipe.input
}

/// Something failed: at most the rest of a literal is still handed on.
spec fn failed(pipe: Pipe) -> bool {
    let handed = pipe.delivered + pipe.emit;
    &&& pipe.state.phase is Poisoned
    &&& pipe.state.in_response
    &&& !framing::in_uidfetch(pipe.state)
    &&& pipe.state.literal_remaining >= 0
    &&& handed.is_prefix_of(pipe.received)
    &&& pipe.state.literal_remaining > 0 ==> pipe.received == handed + pipe.input
}

proof fn lemma_byte_keeps_quiet(s: framing::State, b: u8)
    requires
        sound(s),
        !halted(s),
        !(s.phase is Active),
        !(s.phase is Poisoned),
        !framing::in_uidfetch(s),
        !(framing_laws::feed(s, b).state.phase is Active),
    ensures
        !framing::in_uidfetch(framing_laws::feed(s, b).state),
        framing_laws::feed(s, b).error is None ==> !(framing_laws::feed(s, b).state.phase
            is Poisoned),
        framing_laws::feed(s, b).error is Some ==> {
            &&& framing_laws::feed(s, b).state.phase is Poisoned
            &&& framing_laws::feed(s, b).state.in_response
            &&& framing_laws::feed(s, b).state.literal_remaining == started(s).literal_remaining
        },
{
    reveal(framing_laws::feed);
    reveal(framing::complete_line);
}

proof fn lemma_run_keeps_quiet(s: framing::State, bytes: Seq<u8>)
    requires
        sound(s),
        !(s.phase is Active),
        !(s.phase is Poisoned),
        !framing::in_uidfetch(s),
        !(run(s, bytes).state.phase is Active),
        run(s, bytes).error is None,
    ensures
        sound(run(s, bytes).state),
        run(s, bytes).state.limits == s.limits,
        !(run(s, bytes).state.phase is Poisoned),
        !framing::in_uidfetch(run(s, bytes).state),
    decreases bytes.len(),
{
    if bytes.len() > 0 {
        let step = framing_laws::feed(s, bytes[0]);
        framing_laws::law_bytes_keep_state_sound(s, bytes[0]);
        if step.state.phase is Active {
            lemma_run_stays_active(step.state, bytes.drop_first());
        }
        lemma_byte_keeps_quiet(s, bytes[0]);
        lemma_run_keeps_quiet(step.state, bytes.drop_first());
    }
}

proof fn lemma_run_stays_active(s: framing::State, bytes: Seq<u8>)
    requires
        sound(s),
        s.phase is Active,
        run(s, bytes).error is None,
    ensures
        run(s, bytes).state.phase is Active,
    decreases bytes.len(),
{
    if bytes.len() > 0 && !halted(s) {
        let step = framing_laws::feed(s, bytes[0]);
        framing_laws::law_bytes_keep_state_sound(s, bytes[0]);
        assert(step.state.phase is Active) by {
            reveal(framing_laws::feed);
            reveal(framing::complete_line);
        }
        lemma_run_stays_active(step.state, bytes.drop_first());
    }
}

/// A line that fails hands nothing on and leaves no literal.
proof fn lemma_failed_lines(s: framing::State, input: Seq<u8>)
    requires
        sound(s),
        s.in_response,
        s.literal_remaining == 0,
        !(s.phase is Active),
        !(s.phase is Poisoned),
        !framing::in_uidfetch(s),
        framing::line_run(s, input).step.error is Some,
    ensures
        framing::line_run(s, input).step.out.len() == 0,
        framing::line_run(s, input).step.state.phase is Poisoned,
        framing::line_run(s, input).step.state.in_response,
        framing::line_run(s, input).step.state.literal_remaining == 0,
        !framing::in_uidfetch(framing::line_run(s, input).step.state),
    decreases input.len(),
{
    if input.len() > 0 {
        let step = framing::line_byte(s, input[0]);
        assert(framing_laws::feed(s, input[0]) == step) by {
            reveal(framing_laws::feed);
        }
        let completed = lines::ends_in_crlf(s.line.push(input[0]));
        if step.error is Some {
            reveal(framing::complete_line);
        } else if !completed {
            framing_laws::law_bytes_keep_state_sound(s, input[0]);
            lemma_failed_lines(step.state, input.drop_first());
        }
    }
}

/// A poisoned adapter hands on no line.
proof fn lemma_poisoned_lines(s: framing::State, input: Seq<u8>)
    requires
        s.phase is Poisoned,
        s.in_response,
        s.literal_remaining == 0,
        !framing::in_uidfetch(s),
    ensures
        ({
            let lines_read = framing::line_run(s, input);
            &&& lines_read.step.out.len() == 0
            &&& lines_read.step.state.phase is Poisoned
            &&& lines_read.step.state.in_response
            &&& lines_read.step.state.literal_remaining == 0
            &&& !framing::in_uidfetch(lines_read.step.state)
            &&& lines_read.completed ==> lines_read.step.error is Some
        }),
    decreases input.len(),
{
    if input.len() > 0 {
        let step = framing::line_byte(s, input[0]);
        let completed = lines::ends_in_crlf(s.line.push(input[0]));
        assert(step.out.len() == 0 && step.state.phase is Poisoned && step.state.in_response
            && step.state.literal_remaining == 0 && !framing::in_uidfetch(step.state) && (completed
            ==> step.error is Some)) by {
            reveal(framing::complete_line);
        }
        if !(step.error is Some || completed) {
            lemma_poisoned_lines(step.state, input.drop_first());
        }
    }
}

proof fn lemma_read_while_flowing(pipe: Pipe, wanted: nat)
    requires
        wanted > 0,
        flowing(pipe),
        !(pipe.state.phase is Active),
        !(after_call(pipe, Call::Read(wanted)).state.phase is Active),
    ensures
        flowing(after_call(pipe, Call::Read(wanted))) || failed(
            after_call(pipe, Call::Read(wanted)),
        ),
        reading(pipe, wanted).verdict is Ended ==> after_call(
            pipe,
            Call::Read(wanted),
        ).delivered == pipe.received,
{
    let s = pipe.state;
    let next = after_call(pipe, Call::Read(wanted));
    let r = framing::round(s, pipe.input, pipe.emit);
    let read = reading(pipe, wanted);
    if pipe.emit.len() > 0 {
        let n = framing::smaller(wanted as int, pipe.emit.len() as int);
        assert(pipe.emit =~= pipe.emit.take(n) + pipe.emit.skip(n));
        assert(next.received =~= next.delivered + next.emit + next.state.line + next.input);
    } else {
        assert(pipe.emit =~= Seq::<u8>::empty());
        let t = started(s);
        assert(sound(t));
        assert(t.line == s.line);
        let whole = pipe.delivered + s.line + pipe.input;
        assert(pipe.received =~= whole);
        lemma_lines_read_all(t, pipe.input);
        assert(!(r.state.phase is Active));
        lemma_round_while_flowing(s, pipe.input);
        assert(r.result is Ok ==> s.line + pipe.input == r.emit + r.state.line + r.input);
        if r.result is Ok {
            assert(pipe.received =~= pipe.delivered + (s.line + pipe.input));
            assert(pipe.received =~= pipe.delivered + r.emit + r.state.line + r.input);
            if r.result == Ok::<framing::ProcessInput, crate::error::Error>(
                framing::ProcessInput::Emitted,
            ) {
                let n = framing::smaller(wanted as int, r.emit.len() as int);
                assert(r.emit =~= r.emit.take(n) + r.emit.skip(n));
                assert(next.received =~= next.delivered + next.emit + next.state.line
                    + next.input);
            } else {
                assert(r.emit =~= Seq::<u8>::empty());
                assert(next.delivered =~= pipe.delivered);
                assert(next.received =~= next.delivered + next.emit + next.state.line
                    + next.input);
                if next.state.phase is Poisoned {
                    let handed = next.delivered + next.emit;
                    assert(handed =~= pipe.delivered);
                    assert(next.received.take(handed.len() as int) =~= handed);
                    if next.state.literal_remaining > 0 {
                        assert(next.state.line =~= Seq::<u8>::empty());
                        assert(next.received =~= handed + next.input);
                    }
                }
                if read.verdict is Ended {
                    assert(next.state.line =~= Seq::<u8>::empty());
                    assert(next.input =~= Seq::<u8>::empty());
                    assert(next.delivered =~= pipe.received);
                }
            }
        } else {
            let handed = next.delivered + next.emit;
            assert(handed =~= pipe.delivered);
            assert(next.received.take(handed.len() as int) =~= handed);
            if next.state.literal_remaining > 0 {
                assert(s.line =~= Seq::<u8>::empty());
                assert(next.received =~= handed + next.input);
            }
        }
    }
}

proof fn lemma_round_while_flowing(s: framing::State, input: Seq<u8>)
    requires
        sound(s),
        !(s.phase is Active),
        !(s.phase is Poisoned),
        !framing::in_uidfetch(s),
        !(framing::round(s, input, Seq::empty()).state.phase is Active),
    ensures
        ({
            let r = framing::round(s, input, Seq::empty());
            &&& r.result is Ok ==> {
                &&& sound(r.state)
                &&& r.state.limits == s.limits
                &&& !(r.state.phase is Poisoned)
                &&& !framing::in_uidfetch(r.state)
                &&& s.line + input == r.emit + r.state.line + r.input
                &&& r.result->Ok_0 is NeedInput ==> r.emit.len() == 0 && r.input.len() == 0
                &&& !(r.result->Ok_0 is Backpressured)
            }
            &&& r.result is Err ==> {
                &&& r.state.phase is Poisoned
                &&& r.state.in_response
                &&& !framing::in_uidfetch(r.state)
                &&& r.emit.len() == 0
                &&& r.state.literal_remaining >= 0
                &&& r.state.literal_remaining > 0 ==> s.line.len() == 0 && r.input == input
            }
        }),
{
    let r = framing::round(s, input, Seq::empty());
    let t = started(s);
    assert(sound(t));
    if !s.in_response && input.len() == 0 {
        assert(s.line + input =~= r.emit + r.state.line + r.input);
    } else if t.literal_remaining > 0 {
        if input.len() == 0 {
            assert(s.line + input =~= r.emit + r.state.line + r.input);
        } else {
            let n = framing::smaller(
                framing::smaller(t.literal_remaining, input.len() as int),
                framing::READ_CHUNK as int,
            );
            let step = framing::literal_bytes(t, input.take(n));
            if step.error is None {
                assert(input =~= input.take(n) + input.skip(n));
                assert(s.line + input =~= r.emit + r.state.line + r.input);
            }
        }
    } else {
        let lines_read = framing::line_run(t, input);
        framing_laws::lemma_line_run_is_run(t, input);
        let used = input.len() - lines_read.rest.len();
        if lines_read.step.error is Some {
            lemma_failed_lines(t, input);
        } else {
            framing_laws::law_pass_through_is_transparent(t, input.take(used));
            lemma_run_keeps_quiet(t, input.take(used));
            assert(input =~= input.take(used) + input.skip(used));
            assert(s.line + input =~= (s.line + input.take(used)) + input.skip(used));
            lemma_lines_read_all(t, input);
        }
    }
}

/// Lines are read up to the end of the input, unless one is complete or fails.
proof fn lemma_lines_read_all(s: framing::State, input: Seq<u8>)
    ensures
        ({
            let lines_read = framing::line_run(s, input);
            lines_read.step.error is None && !lines_read.completed ==> lines_read.rest.len() == 0
                && lines_read.step.out.len() == 0 && lines_read.step.state.phase == s.phase
        }),
    decreases input.len(),
{
    if input.len() > 0 {
        let step = framing::line_byte(s, input[0]);
        if !(step.error is Some || lines::ends_in_crlf(s.line.push(input[0]))) {
            lemma_lines_read_all(step.state, input.drop_first());
        }
    }
}

proof fn lemma_read_after_failure(pipe: Pipe, wanted: nat)
    requires
        wanted > 0,
        failed(pipe),
    ensures
        failed(after_call(pipe, Call::Read(wanted))),
        !(reading(pipe, wanted).verdict is Ended),
{
    let s = pipe.state;
    let next = after_call(pipe, Call::Read(wanted));
    let r = framing::round(s, pipe.input, pipe.emit);
    let handed = pipe.delivered + pipe.emit;
    if pipe.emit.len() > 0 {
        let n = framing::smaller(wanted as int, pipe.emit.len() as int);
        assert(pipe.emit =~= pipe.emit.take(n) + pipe.emit.skip(n));
        assert(next.delivered + next.emit =~= handed);
    } else {
        assert(pipe.emit =~= Seq::<u8>::empty());
        assert(handed =~= pipe.delivered);
        if s.literal_remaining > 0 {
            if pipe.input.len() > 0 {
                let n = framing::smaller(
                    framing::smaller(s.literal_remaining, pipe.input.len() as int),
                    framing::READ_CHUNK as int,
                );
                let bytes = pipe.input.take(n);
                let step = framing::literal_bytes(s, bytes);
                if step.error is None {
                    let m = framing::smaller(wanted as int, bytes.len() as int);
                    assert(bytes =~= bytes.take(m) + bytes.skip(m));
                    assert(next.delivered + next.emit =~= handed + bytes);
                    assert(pipe.input =~= bytes + pipe.input.skip(n));
                    assert(pipe.received =~= (handed + bytes) + pipe.input.skip(n));
                    assert(pipe.received.take((handed + bytes).len() as int) =~= handed + bytes);
                } else {
                    assert(next.delivered + next.emit =~= handed);
                }
            } else {
                assert(next.delivered + next.emit =~= handed);
            }
        } else {
            lemma_poisoned_lines(s, pipe.input);
            assert(r.emit =~= Seq::<u8>::empty());
            assert(next.delivered + next.emit =~= handed);
        }
    }
}

proof fn lemma_call_keeps_order(pipe: Pipe, call: Call)
    requires
        flowing(pipe) || failed(pipe),
        !(pipe.state.phase is Active),
        !(after_call(pipe, call).state.phase is Active),
    ensures
        flowing(after_call(pipe, call)) || failed(after_call(pipe, call)),
        call matches Call::Read(wanted) ==> wanted > 0 && reading(pipe, wanted).verdict is Ended
            ==> after_call(pipe, call).delivered == after_call(pipe, call).received,
{
    let next = after_call(pipe, call);
    match call {
        Call::Read(wanted) => {
            if wanted > 0 {
                if flowing(pipe) {
                    lemma_read_while_flowing(pipe, wanted);
                } else {
                    lemma_read_after_failure(pipe, wanted);
                }
            }
        },
        Call::Receive(bytes) => {
            if flowing(pipe) {
                assert(next.received =~= next.delivered + next.emit + next.state.line
                    + next.input);
            } else {
                let handed = pipe.delivered + pipe.emit;
                assert(next.received.take(handed.len() as int) =~= pipe.received.take(
                    handed.len() as int,
                ));
                if pipe.state.literal_remaining > 0 {
                    assert(next.received =~= handed + next.input);
                }
            }
        },
        Call::Arm(_) => {},
    }
}

proof fn lemma_calls_keep_order(limits: AdapterLimits, calls: Seq<Call>)
    requires
        limits.usable(),
        limits.max_input_bytes@ > 0,
        stays_inactive(fresh(limits), calls),
    ensures
        ({
            let pipe = after_calls(fresh(limits), calls);
            flowing(pipe) || failed(pipe)
        }),
    decreases calls.len(),
{
    let start = fresh(limits);
    if calls.len() == 0 {
        assert(start.received =~= start.delivered + start.emit + start.state.line + start.input);
        framing_laws::law_initial_state_is_sound(limits);
    } else {
        let before = calls.drop_last();
        assert forall|n: int| 0 <= n <= before.len() implies !((#[trigger] after_calls(
            start,
            before.take(n),
        )).state.phase is Active) by {
            assert(before.take(n) =~= calls.take(n));
        }
        lemma_calls_keep_order(limits, before);
        assert(before.take(before.len() as int) =~= before);
        assert(!(after_calls(start, before.take(before.len() as int)).state.phase is Active));
        assert(calls.take(calls.len() as int) =~= calls);
        assert(!(after_calls(start, calls.take(calls.len() as int)).state.phase is Active));
        lemma_call_keeps_order(after_calls(start, before), calls.last());
    }
}

/// Until UIDONLY is active, whatever reads there are and however the stream is cut, the bytes
/// delivered so far are the first of those received, none changed, added or dropped.
pub proof fn law_reads_pass_bytes_on_in_order(limits: AdapterLimits, calls: Seq<Call>)
    requires
        limits.usable(),
        limits.max_input_bytes@ > 0,
        stays_inactive(fresh(limits), calls),
    ensures
        ({
            let pipe = after_calls(fresh(limits), calls);
            pipe.delivered.is_prefix_of(pipe.received)
        }),
{
    lemma_calls_keep_order(limits, calls);
    let pipe = after_calls(fresh(limits), calls);
    let n = pipe.delivered.len() as int;
    if flowing(pipe) {
        assert(pipe.received.take(n) =~= pipe.delivered);
    } else {
        let handed = pipe.delivered + pipe.emit;
        assert(pipe.received.take(handed.len() as int) == handed);
        assert(pipe.received.take(n) =~= pipe.received.take(handed.len() as int).take(n));
        assert(handed.take(n) =~= pipe.delivered);
    }
}

/// Where a read finds the clean end of the stream before UIDONLY is active, everything that
/// was received has been delivered.
pub proof fn law_clean_end_delivered_everything(
    limits: AdapterLimits,
    calls: Seq<Call>,
    wanted: nat,
)
    requires
        limits.usable(),
        limits.max_input_bytes@ > 0,
        stays_inactive(fresh(limits), calls.push(Call::Read(wanted))),
        wanted > 0,
        reading(after_calls(fresh(limits), calls), wanted).verdict is Ended,
    ensures
        ({
            let pipe = after_calls(fresh(limits), calls.push(Call::Read(wanted)));
            pipe.delivered == pipe.received
        }),
{
    let start = fresh(limits);
    let all = calls.push(Call::Read(wanted));
    assert(all.drop_last() =~= calls);
    assert forall|n: int| 0 <= n <= calls.len() implies !((#[trigger] after_calls(
        start,
        calls.take(n),
    )).state.phase is Active) by {
        assert(calls.take(n) =~= all.take(n));
    }
    assert(calls.take(calls.len() as int) =~= calls);
    assert(!(after_calls(start, calls.take(calls.len() as int)).state.phase is Active));
    assert(all.take(all.len() as int) =~= all);
    assert(!(after_calls(start, all.take(all.len() as int)).state.phase is Active));
    lemma_calls_keep_order(limits, calls);
    lemma_call_keeps_order(after_calls(start, calls), Call::Read(wanted));
}

} // verus!
