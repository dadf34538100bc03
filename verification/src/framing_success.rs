//! What the adapter owes to a server that keeps within its ceilings.

use crate::error::{Error, ErrorKind};
use crate::framing;
use crate::framing::{ActiveResponseKind, Phase, ProcessInput, Provenance, ReadVerdict, State};
use crate::framing_laws;
use crate::framing_laws::{feed, halted, run, sound, started};
use crate::lines;
use crate::lines::{NumericResponse, TaggedStatus};
use vstd::prelude::*;

verus! {

/// One whole line: it ends in CRLF and nowhere before.
pub open spec fn whole_line(line: Seq<u8>) -> bool {
    &&& line.len() >= 2
    &&& line[line.len() - 2] == 13 && line[line.len() - 1] == 10
    &&& forall|i: int| 0 <= i < line.len() - 2 ==> !(#[trigger] line[i] == 13 && line[i + 1] == 10)
}

/// A line fits: no longer than a line may be, and within what is left of the response.
pub open spec fn line_fits(s: State, line: Seq<u8>) -> bool {
    &&& line.len() <= s.limits.max_control_line_bytes@
    &&& (if s.in_response {
        s.response_bytes
    } else {
        0
    }) + line.len() <= s.limits.max_response_bytes@
}

/// Ready for the first byte of a line.
pub open spec fn at_line_start(s: State) -> bool {
    s.line.len() == 0 && s.literal_remaining == 0 && !halted(s) && !(s.phase is Poisoned)
}

/// The state once the whole line has come in and before anything is made of it.
pub open spec fn with_line(s: State, line: Seq<u8>) -> State {
    State { line, response_bytes: started(s).response_bytes + line.len(), ..started(s) }
}

proof fn lemma_one_byte(s: State, b: u8)
    requires
        !halted(s),
    ensures
        run(s, seq![b]) == (framing_laws::Run {
            state: feed(s, b).state,
            out: feed(s, b).out,
            rest: Seq::empty(),
            error: feed(s, b).error,
        }),
{
    reveal_with_fuel(run, 2);
    assert(seq![b].drop_first() =~= Seq::empty());
    assert(feed(s, b).out + Seq::<u8>::empty() =~= feed(s, b).out);
}

proof fn lemma_line_comes_in(s: State, line: Seq<u8>, n: int)
    requires
        sound(s),
        at_line_start(s),
        whole_line(line),
        line_fits(s, line),
        0 < n < line.len(),
    ensures
        run(s, line.take(n)) == (framing_laws::Run {
            state: with_line(s, line.take(n)),
            out: Seq::empty(),
            rest: Seq::empty(),
            error: None,
        }),
    decreases n,
{
    reveal(feed);
    let part = line.take(n);
    let b = line[n - 1];
    let shorter = line.take(n - 1);
    assert(part =~= shorter.push(b));
    assert(!lines::ends_in_crlf(part)) by {
        if n >= 2 {
            assert(part[n - 2] == line[n - 2]);
            assert(part[n - 1] == line[n - 1]);
            if n < line.len() {
                assert(!(line[n - 2] == 13 && line[n - 1] == 10));
            }
        }
    }
    if n == 1 {
        assert(part =~= seq![b]);
        assert(started(s).line.push(b) =~= part);
        lemma_one_byte(s, b);
    } else {
        lemma_line_comes_in(s, line, n - 1);
        let before = with_line(s, shorter);
        framing_laws::law_fragmentation(s, shorter, seq![b]);
        assert(shorter + seq![b] =~= part);
        assert(started(before) == before);
        assert(before.line.push(b) =~= part);
        lemma_one_byte(before, b);
        assert(Seq::<u8>::empty() + Seq::<u8>::empty() =~= Seq::<u8>::empty());
    }
}

/// What becomes of a whole line that fits: it is classified and handled as one.
proof fn lemma_line_is_handled(s: State, line: Seq<u8>)
    requires
        sound(s),
        at_line_start(s),
        whole_line(line),
        line_fits(s, line),
    ensures
        ({
            let step = framing::complete_line(with_line(s, line));
            run(s, line) == (framing_laws::Run {
                state: step.state,
                out: step.out,
                rest: Seq::empty(),
                error: step.error,
            })
        }),
{
    reveal(feed);
    let n = line.len() - 1;
    let shorter = line.take(n);
    let b = line[n];
    lemma_line_comes_in(s, line, n);
    framing_laws::law_fragmentation(s, shorter, seq![b]);
    assert(shorter + seq![b] =~= line);
    let before = with_line(s, shorter);
    assert(started(before) == before);
    assert(before.line.push(b) =~= line);
    assert(lines::ends_in_crlf(line));
    let step = feed(before, b);
    assert(step == framing::complete_line(with_line(s, line)));
    lemma_one_byte(before, b);
    assert(Seq::<u8>::empty() + step.out =~= step.out);
}

/// A line that ends in a closing brace before its line end.
pub open spec fn ends_in_brace(line: Seq<u8>) -> bool {
    line.len() > 2 && line[line.len() - 3] == 125
}

/// Before activation every response of one line that fits is handed on as it came, and
/// leaves the adapter as it was: nothing of it is refused but a `UIDFETCH` that names no
/// UID.
pub proof fn law_ordinary_lines_pass(s: State, line: Seq<u8>)
    requires
        sound(s),
        s.phase is PassThrough,
        !s.in_response,
        whole_line(line),
        line_fits(s, line),
        !ends_in_brace(line),
        lines::numeric_response(line) is Ok,
    ensures
        ({
            let after = run(s, line);
            &&& after.error is None
            &&& after.out == line
            &&& after.rest.len() == 0
            &&& after.state.phase is PassThrough
            &&& !after.state.in_response
            &&& after.state.line.len() == 0
            &&& after.state.provenance == s.provenance
            &&& after.state.reserved == s.reserved
            &&& after.state.literal_bytes == s.literal_bytes
            &&& after.state.activation_wire_bytes == s.activation_wire_bytes
        }),
{
    lemma_line_is_handled(s, line);
    reveal(framing::complete_line);
    let body = line.take(line.len() - 2);
    assert(body.len() > 0 ==> body.last() == line[line.len() - 3]);
}

/// In pass-through a line that ends in a literal's length, where one may stand, is followed
/// by that many bytes as they are, within the ceilings.
pub proof fn law_ordinary_literals_pass(s: State, line: Seq<u8>, length: usize)
    requires
        sound(s),
        s.phase is PassThrough,
        !s.in_response,
        whole_line(line),
        line_fits(s, line),
        ends_in_brace(line),
        lines::numeric_response(line) matches Ok(numeric) && (numeric is Fetch
            || lines::untagged_may_carry_literal(line)),
        lines::pass_through_literal_len(line.take(line.len() - 2)) == Ok::<Option<usize>, Error>(
            Some(length),
        ),
    ensures
        ({
            let after = run(s, line);
            let fits = length <= s.limits.max_literal_bytes@ && line.len() + length
                <= s.limits.max_response_bytes@;
            &&& fits ==> {
                &&& after.error is None
                &&& after.out == line
                &&& after.state.literal_remaining == length
                &&& after.state.in_response
                &&& after.state.response_bytes == line.len()
            }
            &&& !fits ==> after.error is Some && after.state.phase is Poisoned
        }),
{
    lemma_line_is_handled(s, line);
    reveal(framing::complete_line);
    let body = line.take(line.len() - 2);
    assert(body.last() == line[line.len() - 3]);
}

/// The bytes of an announced literal are handed on as they are, and counted.
pub proof fn law_literals_are_handed_on(s: State, bytes: Seq<u8>)
    requires
        sound(s),
        !(s.phase is Poisoned),
        s.in_response,
        bytes.len() <= s.literal_remaining,
        s.literal_bytes + bytes.len() <= u64::MAX,
    ensures
        run(s, bytes) == (framing_laws::Run {
            state: State {
                literal_bytes: s.literal_bytes + bytes.len(),
                literal_remaining: s.literal_remaining - bytes.len(),
                response_bytes: s.response_bytes + bytes.len(),
                ..s
            },
            out: bytes,
            rest: Seq::empty(),
            error: None,
        }),
    decreases bytes.len(),
{
    reveal(feed);
    if bytes.len() > 0 {
        let b = bytes[0];
        let rest = bytes.drop_first();
        assert(started(s) == s);
        let step = feed(s, b);
        assert(step.error is None);
        assert(step.out == seq![b]);
        framing_laws::law_bytes_keep_state_sound(s, b);
        law_literals_are_handed_on(step.state, rest);
        assert(seq![b] + rest =~= bytes);
    } else {
        assert(bytes =~= Seq::empty());
    }
}

/// After activation a response of one line that is no fetch is handed on as it came, and
/// leaves one record that counts its bytes.
pub proof fn law_active_lines_pass(s: State, line: Seq<u8>)
    requires
        sound(s),
        s.phase is Active,
        !s.in_response,
        !halted(s),
        whole_line(line),
        line_fits(s, line),
        !ends_in_brace(line),
        lines::numeric_response(line) == Ok::<NumericResponse, Error>(NumericResponse::Other),
    ensures
        ({
            let after = run(s, line);
            &&& after.error is None
            &&& after.out == line
            &&& after.state.phase is Active
            &&& !after.state.in_response
            &&& after.state.provenance == s.provenance.push(
                Provenance::Unchanged { wire_bytes: line.len() as usize },
            )
            &&& after.state.reserved == s.reserved
            &&& after.state.literal_bytes == s.literal_bytes
        }),
{
    lemma_line_is_handled(s, line);
    reveal(framing::complete_line);
    let body = line.take(line.len() - 2);
    assert(body.len() > 0 ==> body.last() == line[line.len() - 3]);
}

/// After activation a `UIDFETCH` of one line comes out as a `FETCH` with the same number and
/// everything else as it was, and leaves one record with its UID and its bytes on the wire;
/// one whose date is missing is refused.
pub proof fn law_active_fetches_are_translated(
    s: State,
    line: Seq<u8>,
    uid: u32,
    from: usize,
    to: usize,
)
    requires
        sound(s),
        s.phase is Active,
        !s.in_response,
        !halted(s),
        whole_line(line),
        line_fits(s, line),
        !ends_in_brace(line),
        from <= to < line.len() - 2,
        lines::numeric_response(line) == Ok::<NumericResponse, Error>(
            (NumericResponse::UidFetch { leading_uid: uid, atom_start: from, atom_end: to }),
        ),
    ensures
        ({
            let after = run(s, line);
            let shown = line.take(from as int) + crate::text::word_bytes("FETCH"@) + line.skip(
                to as int,
            );
            let undated = lines::nil_date(lines::tokens(shown.take(shown.len() - 2), 0));
            &&& undated ==> after.error is Some && after.state.phase is Poisoned
            &&& !undated ==> {
                &&& after.error is None
                &&& after.out == shown
                &&& after.state.phase is Active
                &&& !after.state.in_response
                &&& after.state.provenance == s.provenance.push(
                    Provenance::TranslatedUidFetch {
                        leading_uid: uid,
                        wire_bytes: line.len() as usize,
                    },
                )
                &&& after.state.reserved == s.reserved
            }
        }),
{
    lemma_line_is_handled(s, line);
    reveal(framing::complete_line);
    let shown = framing::with_fetch(line, from as int, to as int);
    let body = shown.take(shown.len() - 2);
    reveal_strlit("FETCH");
    let word = crate::text::word_bytes("FETCH"@);
    assert(word.len() == 5);
    assert(body.last() == line[line.len() - 3]) by {
        let at = body.len() - 1;
        assert(shown[at] == line.skip(to as int)[at - from - 5]);
    }
}

/// After activation a `UIDFETCH` that announces a literal is followed by it, within the
/// ceilings; one that would pass them is refused.
pub proof fn law_active_fetches_carry_literals(
    s: State,
    line: Seq<u8>,
    uid: u32,
    from: usize,
    to: usize,
    length: usize,
)
    requires
        sound(s),
        s.phase is Active,
        !s.in_response,
        !halted(s),
        whole_line(line),
        line_fits(s, line),
        ends_in_brace(line),
        from <= to < line.len() - 2,
        lines::numeric_response(line) == Ok::<NumericResponse, Error>(
            (NumericResponse::UidFetch { leading_uid: uid, atom_start: from, atom_end: to }),
        ),
        ({
            let shown = line.take(from as int) + crate::text::word_bytes("FETCH"@) + line.skip(
                to as int,
            );
            let body = shown.take(shown.len() - 2);
            &&& lines::literal_len(body) == Ok::<usize, Error>(length)
            &&& !lines::nil_date(lines::tokens(body, 0))
        }),
    ensures
        ({
            let after = run(s, line);
            let fits = length <= s.limits.max_literal_bytes@ && line.len() + length
                <= s.limits.max_response_bytes@;
            &&& fits ==> {
                &&& after.error is None
                &&& after.state.phase is Active
                &&& after.state.in_response
                &&& after.state.literal_remaining == length
                &&& after.state.response_bytes == line.len()
                &&& after.state.kind == Some(
                    ActiveResponseKind::TranslatedUidFetch { leading_uid: uid },
                )
                &&& after.state.provenance == s.provenance
            }
            &&& !fits ==> after.error is Some && after.state.phase is Poisoned
        }),
{
    lemma_line_is_handled(s, line);
    reveal(framing::complete_line);
    let shown = framing::with_fetch(line, from as int, to as int);
    let body = shown.take(shown.len() - 2);
    reveal_strlit("FETCH");
    let word = crate::text::word_bytes("FETCH"@);
    assert(word.len() == 5);
    assert(body.last() == line[line.len() - 3]) by {
        let at = body.len() - 1;
        assert(shown[at] == line.skip(to as int)[at - from - 5]);
    }
}

/// The last line of a fetch with a literal, behind the literal, ends the response: it is
/// handed on as it came and leaves the record of the whole response.
pub proof fn law_fetch_ends_behind_its_literal(s: State, line: Seq<u8>, uid: u32)
    requires
        sound(s),
        s.phase is Active,
        s.in_response,
        !s.first_line,
        s.line.len() == 0,
        s.literal_remaining == 0,
        s.kind == Some(ActiveResponseKind::TranslatedUidFetch { leading_uid: uid }),
        whole_line(line),
        line_fits(s, line),
        !ends_in_brace(line),
        !lines::nil_date(lines::tokens(line.take(line.len() - 2), 0)),
    ensures
        ({
            let after = run(s, line);
            &&& after.error is None
            &&& after.out == line
            &&& !after.state.in_response
            &&& after.state.phase is Active
            &&& after.state.provenance == s.provenance.push(
                Provenance::TranslatedUidFetch {
                    leading_uid: uid,
                    wire_bytes: (s.response_bytes + line.len()) as usize,
                },
            )
        }),
{
    lemma_line_is_handled(s, line);
    reveal(framing::complete_line);
    let body = line.take(line.len() - 2);
    assert(body.len() > 0 ==> body.last() == line[line.len() - 3]);
}

/// After activation a `FETCH` with a sequence number, and a literal outside of a fetch, is
/// refused and poisons the adapter.
pub proof fn law_active_sequence_numbers_are_refused(s: State, line: Seq<u8>)
    requires
        sound(s),
        s.phase is Active,
        !s.in_response,
        !halted(s),
        whole_line(line),
        line_fits(s, line),
        lines::numeric_response(line) == Ok::<NumericResponse, Error>(NumericResponse::Fetch) || (
        lines::numeric_response(line) == Ok::<NumericResponse, Error>(NumericResponse::Other)
            && ends_in_brace(line)),
    ensures
        run(s, line).error is Some,
        run(s, line).out.len() == 0,
        run(s, line).state.phase is Poisoned,
{
    lemma_line_is_handled(s, line);
    reveal(framing::complete_line);
    let body = line.take(line.len() - 2);
    assert(body.len() > 0 ==> body.last() == line[line.len() - 3]);
}

/// While an activation is awaited: the line that lists the extension is remembered, the
/// completion under the tag activates the connection if it was listed, and fails it
/// otherwise, as does a refusal. Other lines pass. The bytes of all of them are counted.
pub proof fn law_activation_follows_both_lines(
    s: State,
    line: Seq<u8>,
    tag: Seq<u8>,
    seen: bool,
)
    requires
        sound(s),
        s.phase == (Phase::PendingEnable { tag, saw_enabled: seen }),
        !s.in_response,
        whole_line(line),
        line_fits(s, line),
        !ends_in_brace(line),
        lines::numeric_response(line) matches Ok(numeric) && !(numeric is UidFetch),
        s.activation_wire_bytes + line.len() <= usize::MAX,
    ensures
        ({
            let after = run(s, line);
            let lists = lines::enabled_uidonly(line);
            let completion = lines::tagged_completion(line, tag);
            let activates = !lists && completion == Some(TaggedStatus::Done) && seen;
            let fails = !lists && completion is Some && !activates;
            &&& fails ==> after.error is Some && after.state.phase is Poisoned
            &&& !fails ==> {
                &&& after.error is None
                &&& after.out == line
                &&& !after.state.in_response
                &&& after.state.activation_wire_bytes == s.activation_wire_bytes + line.len()
                &&& after.state.provenance == s.provenance
                &&& after.state.phase == (if activates {
                    Phase::Active
                } else {
                    Phase::PendingEnable { tag, saw_enabled: seen || lists }
                })
            }
        }),
{
    lemma_line_is_handled(s, line);
    reveal(framing::complete_line);
    let body = line.take(line.len() - 2);
    assert(body.len() > 0 ==> body.last() == line[line.len() - 3]);
}

/// While an activation is awaited, a `UIDFETCH` and a literal are refused.
pub proof fn law_nothing_is_fetched_before_activation(s: State, line: Seq<u8>)
    requires
        sound(s),
        s.phase is PendingEnable,
        !s.in_response,
        whole_line(line),
        line_fits(s, line),
        ends_in_brace(line) || (lines::numeric_response(line) matches Ok(numeric) && numeric
            is UidFetch),
    ensures
        run(s, line).error is Some,
        run(s, line).state.phase is Poisoned,
{
    lemma_line_is_handled(s, line);
    reveal(framing::complete_line);
    let body = line.take(line.len() - 2);
    assert(body.len() > 0 ==> body.last() == line[line.len() - 3]);
}

/// One more byte of a line is refused just where it makes the line or the response longer
/// than it may be, or where the line that it ends is refused.
pub proof fn law_ceilings_are_exact(s: State, b: u8)
    requires
        sound(s),
        !halted(s),
        !(s.phase is Poisoned),
        s.literal_remaining == 0,
    ensures
        ({
            let begun = started(s);
            let longer = s.line.len() + 1 > s.limits.max_control_line_bytes@
                || begun.response_bytes + 1 > s.limits.max_response_bytes@;
            &&& longer ==> feed(s, b).error is Some && feed(s, b).state.phase is Poisoned
            &&& !longer && !lines::ends_in_crlf(s.line.push(b)) ==> {
                &&& feed(s, b).error is None
                &&& feed(s, b).state == (State {
                    line: s.line.push(b),
                    response_bytes: begun.response_bytes + 1,
                    ..begun
                })
            }
        }),
{
    reveal(feed);
}

/// No response is begun while the queue of records is full, and one is as soon as there is
/// room for one more.
pub proof fn law_backpressure_is_exact(s: State, input: Seq<u8>)
    requires
        sound(s),
        s.phase is Active,
        !s.in_response,
        input.len() > 0,
    ensures
        ({
            let r = framing::round(s, input, Seq::empty());
            let full = s.provenance.len() >= s.limits.provenance_capacity@;
            &&& full ==> r.result == Ok::<ProcessInput, Error>(ProcessInput::Backpressured)
                && r.state == s && r.input == input && r.emit.len() == 0
            &&& !full ==> r.result != Ok::<ProcessInput, Error>(ProcessInput::Backpressured)
                && r.input.len() < input.len()
        }),
{
    if s.provenance.len() < s.limits.provenance_capacity@ {
        lemma_line_run_takes_a_byte(framing::begin(s), input);
    }
}

proof fn lemma_line_run_takes_a_byte(s: State, input: Seq<u8>)
    requires
        input.len() > 0,
    ensures
        framing::line_run(s, input).rest.len() < input.len(),
    decreases input.len(),
{
    reveal_with_fuel(framing::line_run, 2);
    let step = framing::line_byte(s, input[0]);
    let rest = input.drop_first();
    if !(step.error is Some || lines::ends_in_crlf(s.line.push(input[0]))) && rest.len() > 0 {
        lemma_line_run_takes_a_byte(step.state, rest);
    }
}

/// A read delivers what was processed, as much as is wanted and in its order, and keeps the
/// rest; without anything it asks for more input, within the room for it, until the end of
/// the stream, which is clean between two responses and a fault within one.
pub proof fn law_reads_deliver_or_ask(r: framing::Round, wanted: int, at_eof: bool)
    requires
        wanted > 0,
        r.state.limits.max_input_bytes@ > 0,
    ensures
        ({
            let reading = framing::read_outcome(r, wanted, at_eof);
            let room = r.state.limits.max_input_bytes@ - r.input.len();
            let within = r.state.in_response || r.state.line.len() > 0
                || r.state.literal_remaining > 0;
            &&& r.result == Ok::<ProcessInput, Error>(ProcessInput::Emitted) ==> {
                &&& reading.verdict == ReadVerdict::Deliver
                &&& reading.delivered + reading.emit == r.emit
                &&& reading.delivered.len() <= wanted
                &&& reading.delivered.len() == wanted || reading.emit.len() == 0
                &&& reading.input == r.input && reading.state == r.state
            }
            &&& r.result == Ok::<ProcessInput, Error>(ProcessInput::Backpressured)
                ==> reading.verdict == ReadVerdict::Wait && reading.input == r.input
            &&& r.result is Err ==> reading.verdict == ReadVerdict::Fault(r.result->Err_0)
            &&& r.result == Ok::<ProcessInput, Error>(ProcessInput::NeedInput) ==> {
                &&& reading.input == r.input && reading.emit == r.emit
                &&& reading.delivered.len() == 0
                &&& !at_eof && room > 0 ==> {
                    &&& reading.state == r.state
                    &&& reading.verdict matches ReadVerdict::Fill(n)
                    &&& 0 < n <= room && n <= 8192
                    &&& n == room || n == 8192
                }
                &&& !at_eof && room <= 0 ==> reading.verdict is Fault && reading.state.phase
                    is Poisoned
                &&& at_eof && within && (r.state.in_response || r.input.len() == 0) ==> {
                    &&& reading.verdict matches ReadVerdict::Fault(e)
                    &&& e.kind == ErrorKind::UnexpectedEof
                    &&& reading.state.phase is Poisoned
                }
                &&& at_eof && !within && r.input.len() == 0 ==> reading.verdict
                    == ReadVerdict::Ended && reading.state == r.state
            }
        }),
{
    let n = framing::smaller(wanted, r.emit.len() as int);
    assert(r.emit.take(n) + r.emit.skip(n) =~= r.emit);
}

/// An adapter can be made just where a line can hold its line end, a response can hold a
/// line, and the queue holds at most 1024 records; it starts clean and in pass-through.
pub proof fn law_usable_limits_make_an_adapter<T>(
    inner: T,
    limits: crate::limits::AdapterLimits,
    result: Result<(crate::adapter::UidOnlyAdapter<T>, crate::adapter::AdapterHandle), Error>,
)
    requires
        call_ensures(crate::adapter::UidOnlyAdapter::<T>::new, (inner, limits), result),
    ensures
        result is Ok <==> {
            &&& limits.max_control_line_bytes@ >= 2
            &&& limits.max_response_bytes@ >= limits.max_control_line_bytes@
            &&& limits.provenance_capacity@ <= 1024
        },
        result matches Err(e) ==> e.kind == ErrorKind::InvalidInput,
        result matches Ok((adapter, handle)) ==> {
            let s = adapter.state(handle);
            &&& s.phase == Phase::PassThrough
            &&& s.provenance.len() == 0 && s.reserved == 0
            &&& s.capacity == limits.provenance_capacity@
            &&& s.line.len() == 0 && s.literal_remaining == 0 && s.response_bytes == 0
            &&& !s.in_response && !s.holds_slot
            &&& s.literal_bytes == 0 && s.activation_wire_bytes == 0
            &&& s.poison is None
            &&& s.limits == limits
            &&& adapter.inner() == inner
        },
{
}

/// The stream can be taken out of an adapter just where it is in pass-through with nothing
/// in progress, nothing buffered and no record waiting.
pub proof fn law_clean_adapter_gives_its_stream_back<T>(
    adapter: crate::adapter::UidOnlyAdapter<T>,
    handle: crate::adapter::AdapterHandle,
    result: Result<T, Error>,
)
    requires
        call_ensures(
            crate::adapter::UidOnlyAdapter::<T>::into_inner,
            (adapter, &handle),
            result,
        ),
    ensures
        ({
            let s = adapter.state(handle);
            result is Ok <==> {
                &&& s.phase == Phase::PassThrough
                &&& s.provenance.len() == 0 && s.reserved == 0
                &&& s.line.len() == 0 && s.literal_remaining == 0
                &&& !s.in_response && !s.holds_slot
                &&& adapter.input().len() == 0 && adapter.emitted().len() == 0
            }
        }),
        result matches Ok(stream) ==> stream == adapter.inner(),
{
}

/// A fetch whose date is missing is refused wherever in it that is said, and so is one whose
/// later literal would pass a ceiling.
pub proof fn law_later_lines_of_a_fetch_are_checked(
    s: State,
    line: Seq<u8>,
    uid: u32,
    length: usize,
)
    requires
        sound(s),
        s.phase is Active,
        s.in_response,
        !s.first_line,
        s.line.len() == 0,
        s.literal_remaining == 0,
        s.kind == Some(ActiveResponseKind::TranslatedUidFetch { leading_uid: uid }),
        whole_line(line),
        line_fits(s, line),
    ensures
        ({
            let after = run(s, line);
            let body = line.take(line.len() - 2);
            let undated = lines::nil_date(lines::tokens(body, 0));
            let fits = length <= s.limits.max_literal_bytes@ && s.response_bytes + line.len()
                + length <= s.limits.max_response_bytes@;
            &&& undated ==> after.error is Some && after.state.phase is Poisoned
            &&& !undated && ends_in_brace(line) && lines::literal_len(body) == Ok::<usize, Error>(
                length,
            ) ==> {
                &&& fits ==> after.error is None && after.out == line
                    && after.state.literal_remaining == length && after.state.in_response
                &&& !fits ==> after.error is Some && after.state.phase is Poisoned
            }
            &&& !undated && ends_in_brace(line) && lines::literal_len(body) is Err
                ==> after.error is Some
        }),
{
    lemma_line_is_handled(s, line);
    reveal(framing::complete_line);
    let body = line.take(line.len() - 2);
    assert(body.len() > 0 ==> body.last() == line[line.len() - 3]);
}

/// In pass-through a line that ends in a brace and may carry no literal, or names no length,
/// ends its response like any other.
pub proof fn law_ordinary_braces_pass(s: State, line: Seq<u8>)
    requires
        sound(s),
        s.phase is PassThrough,
        !s.in_response,
        whole_line(line),
        line_fits(s, line),
        lines::numeric_response(line) matches Ok(numeric) && ((!(numeric is Fetch)
            && !lines::untagged_may_carry_literal(line)) || lines::pass_through_literal_len(
            line.take(line.len() - 2),
        ) == Ok::<Option<usize>, Error>(None)),
    ensures
        run(s, line).error is None,
        run(s, line).out == line,
        run(s, line).state.phase is PassThrough,
        !run(s, line).state.in_response,
        run(s, line).state.literal_remaining == 0,
{
    lemma_line_is_handled(s, line);
    reveal(framing::complete_line);
    let body = line.take(line.len() - 2);
    assert(body.len() > 0 ==> body.last() == line[line.len() - 3]);
}

} // verus!
