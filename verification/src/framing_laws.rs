//! What holds of every run of the adapter.

use crate::error::Error;
use crate::framing;
use crate::framing::{ActiveResponseKind, Provenance};
use crate::limits::AdapterLimits;
use crate::lines;
use crate::lines::{NumericResponse, TaggedStatus};
use crate::text;
use vstd::prelude::*;

verus! {

/// The state with a response in progress.
pub open spec fn started(s: framing::State) -> framing::State {
    if s.in_response {
        s
    } else {
        framing::begin(s)
    }
}

/// One byte off the wire.
#[verifier::opaque]
pub open spec fn feed(s: framing::State, b: u8) -> framing::Step {
    if started(s).literal_remaining > 0 {
        framing::literal_bytes(started(s), seq![b])
    } else {
        framing::line_byte(started(s), b)
    }
}

/// No byte is taken in: a poisoned or full adapter between two responses.
pub open spec fn halted(s: framing::State) -> bool {
    !s.in_response && (s.phase is Poisoned || framing::blocked(s))
}

/// The outcome of some bytes: the state, what was emitted, what was not taken in.
#[verifier::ext_equal]
pub ghost struct Run {
    pub state: framing::State,
    pub out: Seq<u8>,
    pub rest: Seq<u8>,
    pub error: Option<Error>,
}

/// Some bytes off the wire, one after the other.
pub open spec fn run(s: framing::State, bytes: Seq<u8>) -> Run
    decreases bytes.len(),
{
    if bytes.len() == 0 {
        Run { state: s, out: Seq::empty(), rest: bytes, error: None }
    } else if halted(s) {
        Run {
            state: s,
            out: Seq::empty(),
            rest: bytes,
            error: if s.phase is Poisoned { Some(framing::poison_error(s)) } else { None },
        }
    } else {
        let step = feed(s, bytes[0]);
        if step.error is Some {
            Run {
                state: step.state,
                out: step.out,
                rest: bytes.drop_first(),
                error: step.error,
            }
        } else {
            let later = run(step.state, bytes.drop_first());
            Run { out: step.out + later.out, ..later }
        }
    }
}

/// What every reachable state satisfies.
pub open spec fn sound(s: framing::State) -> bool {
    &&& s.limits.usable()
    &&& s.capacity == s.limits.provenance_capacity@
    &&& s.reserved == if s.holds_slot { 1int } else { 0int }
    &&& s.provenance.len() + s.reserved <= s.capacity
    &&& 0 <= s.literal_remaining
    &&& 0 <= s.response_bytes
    &&& s.holds_slot ==> s.phase is Active || s.phase is Poisoned
    &&& 0 <= s.literal_bytes <= u64::MAX
    &&& 0 <= s.activation_wire_bytes <= usize::MAX
    &&& s.literal_remaining > 0 ==> s.line.len() == 0 && !s.first_line
    &&& !s.in_response ==> s.line.len() == 0 && s.literal_remaining == 0 && !s.holds_slot
    &&& !(s.phase is Poisoned) ==> {
        &&& s.line.len() <= s.response_bytes
        &&& s.response_bytes + s.literal_remaining <= s.limits.max_response_bytes@
        &&& s.literal_remaining <= s.limits.max_literal_bytes@
        &&& s.line.len() <= s.limits.max_control_line_bytes@
    }
    &&& s.phase is Active && s.in_response ==> s.holds_slot && (!s.first_line ==> s.kind is Some)
    &&& s.phase is Active && s.in_response && s.first_line ==> s.kind is None
    &&& s.in_response || s.first_line
}

/// A fresh adapter is in a sound state.
pub proof fn law_initial_state_is_sound(limits: AdapterLimits)
    requires
        limits.usable(),
    ensures
        sound(framing::initial(limits)),
{
}

proof fn lemma_finish_keeps_sound(s: framing::State, line: Seq<u8>)
    requires
        sound(s),
        s.in_response,
        !s.first_line,
        s.line.len() == 0,
        s.literal_remaining == 0,
    ensures
        sound(framing::finish(s, line).state),
        s.phase is Active ==> framing::finish(s, line).error is None,
{
}

/// Every byte keeps the state sound: lines, literals, responses and the
/// provenance queue stay within their ceilings unless the adapter is poisoned.
pub proof fn law_bytes_keep_state_sound(s: framing::State, b: u8)
    requires
        sound(s),
        !halted(s),
    ensures
        sound(feed(s, b).state),
        feed(s, b).state.limits == s.limits,
{
    reveal(feed);
    let t = started(s);
    assert(sound(t));
    if t.literal_remaining == 0 {
        let read = framing::State { line: t.line.push(b), ..t };
        let counted = framing::count(read, 1);
        if counted.error is None && t.line.len() + 1 <= t.limits.max_control_line_bytes@
            && lines::ends_in_crlf(read.line) {
            lemma_complete_line_keeps_sound(counted.state);
        }
    }
}

proof fn lemma_complete_line_keeps_sound(s: framing::State)
    requires
        s.in_response,
        s.literal_remaining == 0,
        lines::ends_in_crlf(s.line),
        s.line.len() <= s.limits.max_control_line_bytes@,
        sound(framing::State { line: Seq::empty(), ..s }),
    ensures
        sound(framing::complete_line(s).state),
        framing::complete_line(s).state.limits == s.limits,
{
    reveal(framing::complete_line);
    let cleared = framing::State { line: Seq::empty(), ..s };
    if s.first_line {
        let classified = framing::classify(cleared, s.line);
        if classified.error is None {
            let ready = framing::State { first_line: false, ..classified.state };
            assert(sound(ready));
            lemma_after_line_keeps_sound(ready, classified.out);
        }
    } else {
        lemma_after_line_keeps_sound(cleared, s.line);
    }
}

proof fn lemma_after_line_keeps_sound(s: framing::State, line: Seq<u8>)
    requires
        sound(s),
        s.in_response,
        !s.first_line,
        s.line.len() == 0,
        s.literal_remaining == 0,
    ensures
        sound(framing::after_line(s, line).state),
        framing::after_line(s, line).state.limits == s.limits,
{
    lemma_finish_keeps_sound(s, line);
}

/// Until activation every byte is handed on as it came: what was emitted and
/// what still waits for its line end are the bytes that came in.
pub proof fn law_pass_through_is_transparent(s: framing::State, bytes: Seq<u8>)
    requires
        sound(s),
        run(s, bytes).error is None,
        !(run(s, bytes).state.phase is Active),
    ensures
        run(s, bytes).rest.len() == 0,
        s.line + bytes == run(s, bytes).out + run(s, bytes).state.line,
    decreases bytes.len(),
{
    if bytes.len() == 0 {
    } else if halted(s) {
    } else {
        let step = feed(s, bytes[0]);
        law_bytes_keep_state_sound(s, bytes[0]);
        if s.phase is Active {
            lemma_active_stays_active(s, bytes);
        }
        lemma_byte_is_transparent(s, bytes[0]);
        law_pass_through_is_transparent(step.state, bytes.drop_first());
        let later = run(step.state, bytes.drop_first());
        assert(bytes =~= seq![bytes[0]] + bytes.drop_first());
        assert(s.line + bytes =~= s.line.push(bytes[0]) + bytes.drop_first());
        assert(s.line + bytes =~= step.out + (step.state.line + bytes.drop_first()));
        assert(s.line + bytes =~= (step.out + later.out) + later.state.line);
    }
}

proof fn lemma_run_of_one(s: framing::State, one: Seq<u8>)
    requires
        one.len() == 1,
        !halted(s),
    ensures
        run(s, one) == (Run {
            state: feed(s, one[0]).state,
            out: feed(s, one[0]).out,
            rest: Seq::empty(),
            error: feed(s, one[0]).error,
        }),
{
    let step = feed(s, one[0]);
    assert(one.drop_first() =~= Seq::<u8>::empty());
    assert(run(step.state, one.drop_first()) == (Run {
        state: step.state,
        out: Seq::empty(),
        rest: Seq::empty(),
        error: None,
    }));
    assert(step.out + Seq::<u8>::empty() =~= step.out);
}

proof fn lemma_active_byte(s: framing::State, b: u8)
    requires
        sound(s),
        !halted(s),
        s.phase is Active,
        feed(s, b).error is None,
    ensures
        feed(s, b).state.phase is Active,
        started(s).response_bytes + 1 <= usize::MAX,
        feed(s, b).state.in_response ==> feed(s, b).state.response_bytes == started(
            s,
        ).response_bytes + 1,
{
    reveal(feed);
    reveal(framing::complete_line);
}

proof fn lemma_active_stays_active(s: framing::State, bytes: Seq<u8>)
    requires
        sound(s),
        s.phase is Active,
        run(s, bytes).error is None,
    ensures
        run(s, bytes).state.phase is Active,
    decreases bytes.len(),
{
    if bytes.len() > 0 && !halted(s) {
        law_bytes_keep_state_sound(s, bytes[0]);
        lemma_active_byte(s, bytes[0]);
        lemma_active_stays_active(feed(s, bytes[0]).state, bytes.drop_first());
    }
}

proof fn lemma_byte_is_transparent(s: framing::State, b: u8)
    requires
        sound(s),
        !halted(s),
        !(s.phase is Active),
        feed(s, b).error is None,
    ensures
        s.line.push(b) == feed(s, b).out + feed(s, b).state.line,
{
    reveal(feed);
    reveal(framing::complete_line);
    let step = feed(s, b);
    if started(s).literal_remaining > 0 {
        assert(s.line.push(b) =~= seq![b]);
        assert(step.out + step.state.line =~= seq![b]);
    } else if lines::ends_in_crlf(s.line.push(b)) {
        assert(step.out == s.line.push(b));
        assert(step.out + step.state.line =~= s.line.push(b));
    } else {
        assert(step.out + step.state.line =~= s.line.push(b));
    }
}

/// The bytes that a response parser would take for the word of a numbered
/// response.
pub open spec fn announces_uidfetch(line: Seq<u8>) -> bool {
    lines::numeric_response(line) matches Ok(NumericResponse::UidFetch { .. })
}

/// An active line with its `UIDFETCH` word replaced.
pub open spec fn translated(line: Seq<u8>) -> Seq<u8> {
    match lines::numeric_response(line) {
        Ok(NumericResponse::UidFetch { atom_start, atom_end, .. }) => framing::with_fetch(
            line,
            atom_start as int,
            atom_end as int,
        ),
        _ => line,
    }
}

/// After activation only the top-level `UIDFETCH` word of the first line of a
/// response changes; literals and all other lines are handed on as they came.
pub proof fn law_only_top_level_uidfetch_is_translated(s: framing::State, b: u8)
    requires
        sound(s),
        !halted(s),
        s.phase is Active,
        feed(s, b).error is None,
    ensures
        started(s).literal_remaining > 0 ==> feed(s, b).out == seq![b],
        started(s).literal_remaining == 0 && !lines::ends_in_crlf(s.line.push(b)) ==> feed(
            s,
            b,
        ).out.len() == 0 && feed(s, b).state.line == s.line.push(b),
        started(s).literal_remaining == 0 && lines::ends_in_crlf(s.line.push(b)) ==> feed(
            s,
            b,
        ).state.line.len() == 0 && feed(s, b).out == (if started(s).first_line {
            translated(s.line.push(b))
        } else {
            s.line.push(b)
        }),
{
    reveal(feed);
    reveal(framing::complete_line);
}

proof fn lemma_digits_end_is_local(a: Seq<u8>, b: Seq<u8>, from: int)
    requires
        0 <= from <= lines::digits_end(a, from) < a.len(),
        lines::digits_end(a, from) < b.len(),
        a.take(lines::digits_end(a, from) + 1) == b.take(lines::digits_end(a, from) + 1),
    ensures
        lines::digits_end(b, from) == lines::digits_end(a, from),
    decreases a.len() - from,
{
    let end = lines::digits_end(a, from);
    assert(a.take(end + 1)[from] == b.take(end + 1)[from]);
    if text::digit(a[from]) {
        lines::lemma_digits_end(a, from + 1);
        lemma_digits_end_is_local(a, b, from + 1);
    }
}

/// A translated line announces an ordinary `FETCH` of the same number.
pub proof fn law_translation_announces_fetch(line: Seq<u8>)
    requires
        lines::ends_in_crlf(line),
        line.len() <= usize::MAX,
        announces_uidfetch(line),
    ensures
        lines::numeric_response(translated(line)) == Ok::<NumericResponse, Error>(
            NumericResponse::Fetch,
        ),
        lines::digits_end(translated(line), 2) == lines::digits_end(line, 2),
        translated(line).take(lines::digits_end(line, 2)) == line.take(lines::digits_end(line, 2)),
        lines::ends_in_crlf(translated(line)),
{
    reveal_strlit("FETCH");
    reveal_strlit("UIDFETCH");
    framing::lemma_rewrite_keeps_line_end(line);
    let out = translated(line);
    let number_end = lines::digits_end(line, 2);
    let start = number_end + 1;
    let end = lines::letters_end(line, start);
    lines::lemma_digits_end(line, 2);
    lines::lemma_letters_end(line, start);
    assert(out == framing::with_fetch(line, start, end));
    assert(out.take(number_end + 1) =~= line.take(number_end + 1));
    lemma_digits_end_is_local(line, out, 2);
    assert(out[number_end] == line[number_end]);
    assert(lines::untagged(out));
    let word = text::word_bytes("FETCH"@);
    assert(out.subrange(start, start + 5) =~= word);
    assert(out[start] == word[0] && out[start + 1] == word[1] && out[start + 2] == word[2]
        && out[start + 3] == word[3] && out[start + 4] == word[4]);
    assert(out[start + 5] == line[end]);
    reveal_with_fuel(lines::letters_end, 6);
    assert(lines::letters_end(out, start) == start + 5);
    assert(text::spells(word, "FETCH"@));
    assert(!text::spells(word, "UIDFETCH"@));
    assert(out.take(number_end) =~= line.take(number_end));
}

/// How often each response leaves a record: an active response leaves exactly
/// one, together with its last line, and no other byte touches the queue.
pub proof fn law_active_response_leaves_one_record(s: framing::State, b: u8)
    requires
        sound(s),
        !halted(s),
        feed(s, b).error is None,
    ensures
        !(s.phase is Active) || feed(s, b).state.in_response ==> feed(s, b).state.provenance
            == s.provenance,
        s.phase is Active && !feed(s, b).state.in_response ==> {
            let kind = if !started(s).first_line {
                started(s).kind->0
            } else {
                match lines::numeric_response(s.line.push(b)) {
                    Ok(
                        NumericResponse::UidFetch { leading_uid, .. },
                    ) => ActiveResponseKind::TranslatedUidFetch { leading_uid },
                    _ => ActiveResponseKind::Unchanged,
                }
            };
            feed(s, b).state.provenance == s.provenance.push(
                framing::record_of(kind, started(s).response_bytes + 1),
            )
        },
{
    reveal(feed);
    reveal(framing::complete_line);
}

/// The wire bytes of a record.
pub open spec fn wire_bytes(record: Provenance) -> int {
    match record {
        Provenance::TranslatedUidFetch { wire_bytes, .. } => wire_bytes as int,
        Provenance::Unchanged { wire_bytes } => wire_bytes as int,
    }
}

proof fn lemma_response_bytes_count(s: framing::State, bytes: Seq<u8>)
    requires
        sound(s),
        s.phase is Active,
        !halted(s),
        bytes.len() > 0,
        run(s, bytes).error is None,
        forall|k: int|
            0 < k <= bytes.len() ==> (#[trigger] run(s, bytes.take(k))).state.in_response,
    ensures
        run(s, bytes).rest.len() == 0,
        sound(run(s, bytes).state),
        run(s, bytes).state.phase is Active,
        run(s, bytes).state.in_response,
        run(s, bytes).state.provenance == s.provenance,
        run(s, bytes).state.response_bytes == started(s).response_bytes + bytes.len(),
    decreases bytes.len(),
{
    let step = feed(s, bytes[0]);
    let tail = bytes.drop_first();
    law_bytes_keep_state_sound(s, bytes[0]);
    law_active_response_leaves_one_record(s, bytes[0]);
    lemma_active_byte(s, bytes[0]);
    assert(run(step.state, tail).error is None);
    lemma_run_of_one(s, bytes.take(1));
    assert(step.state.in_response);
    assert(bytes.take(bytes.len() as int) =~= bytes);
    if tail.len() > 0 {
        assert forall|k: int| 0 < k <= tail.len() implies (#[trigger] run(
            step.state,
            tail.take(k),
        )).state.in_response by {
            let longer = bytes.take(k + 1);
            assert(longer.drop_first() =~= tail.take(k));
            assert(run(s, longer).state.in_response);
        }
        lemma_response_bytes_count(step.state, tail);
    } else {
        assert(tail =~= Seq::<u8>::empty());
    }
}

/// The record of an active response counts every byte of it: for bytes that
/// hold exactly one response, the queue grows by one record of their number.
pub proof fn law_record_counts_wire_bytes(s: framing::State, bytes: Seq<u8>)
    requires
        sound(s),
        s.phase is Active,
        !s.in_response,
        !halted(s),
        bytes.len() > 0,
        run(s, bytes).error is None,
        forall|k: int|
            0 < k < bytes.len() ==> (#[trigger] run(s, bytes.take(k))).state.in_response,
        !run(s, bytes).state.in_response,
    ensures
        run(s, bytes).state.provenance.len() == s.provenance.len() + 1,
        run(s, bytes).state.provenance.drop_last() == s.provenance,
        wire_bytes(run(s, bytes).state.provenance.last()) == bytes.len(),
{
    let n = (bytes.len() - 1) as int;
    let init = bytes.take(n);
    law_fragmentation(s, init, bytes.skip(n));
    assert(init + bytes.skip(n) =~= bytes);
    let mid = run(s, init);
    let last = bytes.skip(n);
    assert(last.len() == 1 && last[0] == bytes[n]);
    if n > 0 {
        assert forall|k: int| 0 < k <= init.len() implies (#[trigger] run(
            s,
            init.take(k),
        )).state.in_response by {
            assert(init.take(k) =~= bytes.take(k));
        }
        assert(mid.error is None);
        lemma_response_bytes_count(s, init);
    } else {
        assert(init =~= Seq::<u8>::empty());
    }
    let step = feed(mid.state, last[0]);
    lemma_run_of_one(mid.state, last);
    lemma_active_byte(mid.state, last[0]);
    law_active_response_leaves_one_record(mid.state, last[0]);
    law_bytes_keep_state_sound(mid.state, last[0]);
    assert(run(s, bytes).state == step.state);
    assert(started(mid.state).response_bytes + 1 == bytes.len());
    let grown = run(s, bytes).state.provenance;
    assert(grown.drop_last() =~= s.provenance);
}

/// It does not matter how bytes are cut into reads: two pieces one after the
/// other do what they do together, and what the first piece leaves over comes
/// before the second.
pub proof fn law_fragmentation(s: framing::State, a: Seq<u8>, b: Seq<u8>)
    ensures
        run(s, a).error is None && run(s, a).rest.len() == 0 ==> run(s, a + b) == (Run {
            out: run(s, a).out + run(run(s, a).state, b).out,
            ..run(run(s, a).state, b)
        }),
        run(s, a).error is Some || run(s, a).rest.len() > 0 ==> run(s, a + b) == (Run {
            rest: run(s, a).rest + b,
            ..run(s, a)
        }),
    decreases a.len(),
{
    if a.len() == 0 {
        assert(a + b =~= b);
        assert(run(s, a).out + run(s, b).out =~= run(s, b).out);
    } else if halted(s) {
    } else {
        let step = feed(s, a[0]);
        assert((a + b).drop_first() =~= a.drop_first() + b);
        assert((a + b)[0] == a[0]);
        if step.error is None {
            law_fragmentation(step.state, a.drop_first(), b);
            let head = run(step.state, a.drop_first());
            let tail = run(head.state, b);
            assert(step.out + (head.out + tail.out) =~= (step.out + head.out) + tail.out);
        }
    }
}

/// The lines that a round reads do what their bytes do one by one.
pub proof fn lemma_line_run_is_run(s: framing::State, input: Seq<u8>)
    requires
        s.in_response,
        s.literal_remaining == 0,
    ensures
        ({
            let lines_read = framing::line_run(s, input);
            let used = input.len() - lines_read.rest.len();
            &&& 0 <= used
            &&& input.len() > 0 ==> 0 < used
            &&& lines_read.rest == input.skip(used)
            &&& run(s, input.take(used)) == (Run {
                state: lines_read.step.state,
                out: lines_read.step.out,
                rest: Seq::empty(),
                error: lines_read.step.error,
            })
        }),
    decreases input.len(),
{
    reveal(feed);
    if input.len() == 0 {
        assert(input.take(0) =~= Seq::<u8>::empty());
        assert(input.skip(0) =~= input);
    } else {
        let step = framing::line_byte(s, input[0]);
        let completed = lines::ends_in_crlf(s.line.push(input[0]));
        if step.error is Some || completed {
            lemma_run_of_one(s, input.take(1));
            assert(input.drop_first() =~= input.skip(1));
        } else {
            let tail = input.drop_first();
            lemma_line_run_is_run(step.state, tail);
            let lines_read = framing::line_run(step.state, tail);
            let used = tail.len() - lines_read.rest.len();
            assert(input.take(used + 1).drop_first() =~= tail.take(used));
            assert(tail.skip(used) =~= input.skip(used + 1));
            assert(run(s, input.take(used + 1)).out =~= lines_read.step.out);
        }
    }
}

proof fn lemma_literal_bytes_are_a_run(s: framing::State, bytes: Seq<u8>)
    requires
        s.in_response,
        0 < bytes.len() <= s.literal_remaining,
        s.response_bytes + s.literal_remaining <= s.limits.max_response_bytes@,
        0 <= s.response_bytes,
        s.literal_bytes + bytes.len() <= u64::MAX,
    ensures
        framing::literal_bytes(s, bytes).error is None,
        run(s, bytes) == (Run {
            state: framing::literal_bytes(s, bytes).state,
            out: bytes,
            rest: Seq::empty(),
            error: None,
        }),
    decreases bytes.len(),
{
    reveal(feed);
    let step = framing::literal_bytes(s, seq![bytes[0]]);
    let tail = bytes.drop_first();
    assert(feed(s, bytes[0]) == step);
    assert(step.error is None);
    if tail.len() > 0 {
        lemma_literal_bytes_are_a_run(step.state, tail);
        assert(framing::literal_bytes(step.state, tail).state =~= framing::literal_bytes(
            s,
            bytes,
        ).state);
    } else {
        assert(step.state =~= framing::literal_bytes(s, bytes).state);
        lemma_run_of_one(s, bytes);
    }
    assert(bytes =~= seq![bytes[0]] + tail);
}

/// A round of processing does what its bytes do one by one, as long as the
/// count of literal octets does not overflow.
pub proof fn law_round_is_a_run(s: framing::State, input: Seq<u8>)
    requires
        sound(s),
        !(s.phase is Poisoned),
        s.literal_bytes + input.len() <= u64::MAX,
    ensures
        ({
            let r = framing::round(s, input, Seq::empty());
            let used = input.len() - r.input.len();
            &&& 0 <= used
            &&& r.input == input.skip(used)
            &&& run(s, input.take(used)) == (Run {
                state: r.state,
                out: r.emit,
                rest: Seq::empty(),
                error: match r.result {
                    Ok(_) => None,
                    Err(e) => Some(e),
                },
            })
        }),
{
    let r = framing::round(s, input, Seq::empty());
    assert(input.take(0) =~= Seq::<u8>::empty());
    assert(input.skip(0) =~= input);
    if (!s.in_response && input.len() == 0) || (!s.in_response && framing::blocked(s)) {
    } else {
        let t = started(s);
        assert(sound(t));
        let used = input.len() - r.input.len();
        if t.literal_remaining > 0 {
            if input.len() > 0 {
                let n = framing::smaller(
                    framing::smaller(t.literal_remaining, input.len() as int),
                    framing::READ_CHUNK as int,
                );
                lemma_literal_bytes_are_a_run(t, input.take(n));
            }
        } else {
            lemma_line_run_is_run(t, input);
            if input.len() > 0 {
                assert(used > 0);
                lemma_run_starts(s, input.take(used));
            }
        }
    }
}

proof fn lemma_run_starts(s: framing::State, bytes: Seq<u8>)
    requires
        !halted(s),
        bytes.len() > 0,
    ensures
        run(s, bytes) == run(started(s), bytes),
{
    reveal(feed);
    assert(feed(s, bytes[0]) == feed(started(s), bytes[0]));
}

/// The connection becomes active only when the awaited tag completes after the
/// server listed the extension.
pub proof fn law_activation_needs_both_confirmations(s: framing::State, b: u8)
    requires
        sound(s),
        !halted(s),
        !(s.phase is Active),
        feed(s, b).state.phase is Active,
    ensures
        s.phase matches framing::Phase::PendingEnable { tag, saw_enabled } && saw_enabled
            && lines::tagged_completion(s.line.push(b), tag) == Some(TaggedStatus::Done),
{
    reveal(feed);
    reveal(framing::complete_line);
}

/// The server has listed the extension only if one of its lines said so.
pub proof fn law_extension_is_seen_only_in_its_line(s: framing::State, b: u8)
    requires
        sound(s),
        !halted(s),
        s.phase matches framing::Phase::PendingEnable { saw_enabled, .. } && !saw_enabled,
        feed(s, b).state.phase matches framing::Phase::PendingEnable { saw_enabled, .. }
            && saw_enabled,
    ensures
        lines::enabled_uidonly(s.line.push(b)),
{
    reveal(feed);
    reveal(framing::complete_line);
}

/// A failed byte poisons the adapter, and nothing that comes in heals it.
pub proof fn law_poison_is_permanent(s: framing::State, b: u8)
    requires
        !halted(s),
        s.phase is Poisoned || feed(s, b).error is Some,
    ensures
        feed(s, b).state.phase is Poisoned,
{
    reveal(feed);
    reveal(framing::complete_line);
}

/// Awaiting an activation and taking a record keep the state sound too.
pub proof fn law_handle_keeps_state_sound(s: framing::State, tag: Seq<u8>)
    requires
        sound(s),
    ensures
        s.phase is PassThrough ==> sound(
            framing::State {
                phase: framing::Phase::PendingEnable { tag, saw_enabled: false },
                activation_wire_bytes: 0,
                ..s
            },
        ),
        s.provenance.len() > 0 ==> sound(
            framing::State { provenance: s.provenance.drop_first(), ..s },
        ),
{
}

/// A byte that fails is not handed on, nor is anything of its line: a refused marker or
/// an over-long line never reaches the parser.
pub proof fn law_failures_hand_nothing_on(s: framing::State, b: u8)
    requires
        !halted(s),
        feed(s, b).error is Some,
    ensures
        feed(s, b).out.len() == 0,
{
    reveal(feed);
    reveal(framing::complete_line);
}

/// The meter of literal octets counts each of them when it is handed on, and no other
/// byte: it does not wait for the command to complete.
pub proof fn law_meter_counts_literal_octets(s: framing::State, b: u8)
    requires
        !halted(s),
    ensures
        started(s).literal_remaining > 0 && feed(s, b).error is None ==> feed(
            s,
            b,
        ).state.literal_bytes == s.literal_bytes + 1 && feed(s, b).out == seq![b],
        started(s).literal_remaining <= 0 || feed(s, b).error is Some ==> feed(
            s,
            b,
        ).state.literal_bytes == s.literal_bytes,
{
    reveal(feed);
    reveal(framing::complete_line);
}

/// A read from the stream never overfills the input buffer.
pub proof fn law_reads_stay_within_the_input_limit(
    round: framing::Round,
    wanted: int,
    at_eof: bool,
)
    ensures
        framing::read_outcome(round, wanted, at_eof).verdict matches framing::ReadVerdict::Fill(most)
            ==> {
            &&& 0 < most <= framing::READ_CHUNK
            &&& round.input.len() + most <= round.state.limits.max_input_bytes@
            &&& framing::read_outcome(round, wanted, at_eof).input == round.input
        },
{
}

/// While no record can be left, buffered bytes wait: nothing more is read from the
/// stream or handed on before a record is taken.
pub proof fn law_full_queue_stops_reads(
    s: framing::State,
    input: Seq<u8>,
    wanted: int,
    at_eof: bool,
)
    requires
        !s.in_response,
        framing::blocked(s),
        input.len() > 0,
    ensures
        framing::read_outcome(framing::round(s, input, Seq::empty()), wanted, at_eof)
            == (framing::Reading {
            state: s,
            input,
            emit: Seq::empty(),
            delivered: Seq::empty(),
            verdict: framing::ReadVerdict::Wait,
        }),
{
}

} // verus!
