//! What the lines of a server are read as.

use crate::error::Error;
use crate::lines;
use crate::lines::{NumericResponse, TaggedStatus};
use crate::text;
use crate::text_laws;
use vstd::prelude::*;

verus! {

/// The bytes of a numeral.
pub open spec fn digits_of(n: nat) -> Seq<u8> {
    text::word_bytes(text::numeral(n))
}

proof fn lemma_digits_of(n: nat)
    ensures
        digits_of(n).len() > 0,
        text::all_digits(digits_of(n)),
        text::decimal(digits_of(n)) == n,
{
    text_laws::law_numerals_read_back(n);
    let shown = text::numeral(n);
    assert forall|i: int| 0 <= i < digits_of(n).len() implies text::digit(
        #[trigger] digits_of(n)[i],
    ) by {
        assert(48 <= shown[i] as int <= 57);
    }
}

proof fn lemma_digits_run(line: Seq<u8>, from: int, end: int)
    requires
        0 <= from <= end < line.len(),
        forall|i: int| from <= i < end ==> text::digit(#[trigger] line[i]),
        !text::digit(line[end]),
    ensures
        lines::digits_end(line, from) == end,
    decreases end - from,
{
    if from < end {
        assert(text::digit(line[from]));
        lemma_digits_run(line, from + 1, end);
    }
}

proof fn lemma_letters_run(line: Seq<u8>, from: int, end: int)
    requires
        0 <= from <= end < line.len(),
        forall|i: int| from <= i < end ==> text::letter(#[trigger] line[i]),
        !text::letter(line[end]),
    ensures
        lines::letters_end(line, from) == end,
    decreases end - from,
{
    if from < end {
        assert(text::letter(line[from]));
        lemma_letters_run(line, from + 1, end);
    }
}

/// `* <number> <word> ...`
pub open spec fn numbered(n: nat, word: Seq<u8>, rest: Seq<u8>) -> Seq<u8> {
    seq![42u8, 32u8] + digits_of(n) + seq![32u8] + word + seq![32u8] + rest
}

/// A numbered line is read by its word, in whatever case: `UIDFETCH` with the number as its
/// UID and the place of the word, `FETCH`, or something else. A `UIDFETCH` whose number is
/// zero or too large for a UID is refused.
pub proof fn law_numbered_lines_are_read_by_their_word(n: nat, word: Seq<u8>, rest: Seq<u8>)
    requires
        forall|i: int| 0 <= i < word.len() ==> text::letter(#[trigger] word[i]),
        numbered(n, word, rest).len() <= usize::MAX,
    ensures
        ({
            let read = lines::numeric_response(numbered(n, word, rest));
            let start = digits_of(n).len() + 3;
            &&& text::spells(word, "UIDFETCH"@) && 0 < n <= u32::MAX ==> read == Ok::<
                NumericResponse,
                Error,
            >(
                NumericResponse::UidFetch {
                    leading_uid: n as u32,
                    atom_start: start as usize,
                    atom_end: (start + word.len()) as usize,
                },
            )
            &&& text::spells(word, "UIDFETCH"@) && (n == 0 || n > u32::MAX) ==> read is Err
            &&& !text::spells(word, "UIDFETCH"@) && text::spells(word, "FETCH"@) ==> read == Ok::<
                NumericResponse,
                Error,
            >(NumericResponse::Fetch)
            &&& !text::spells(word, "UIDFETCH"@) && !text::spells(word, "FETCH"@) ==> read == Ok::<
                NumericResponse,
                Error,
            >(NumericResponse::Other)
        }),
{
    let line = numbered(n, word, rest);
    let digits = digits_of(n);
    lemma_digits_of(n);
    let number_end = 2 + digits.len() as int;
    let start = number_end + 1;
    let end = start + word.len();
    assert forall|i: int| 2 <= i < number_end implies text::digit(#[trigger] line[i]) by {
        assert(line[i] == digits[i - 2]);
    }
    assert(line[number_end] == 32);
    lemma_digits_run(line, 2, number_end);
    assert forall|i: int| start <= i < end implies text::letter(#[trigger] line[i]) by {
        assert(line[i] == word[i - start]);
    }
    assert(line[end] == 32);
    lemma_letters_run(line, start, end);
    assert(line.subrange(start, end) =~= word);
    assert(line.subrange(2, number_end) =~= digits);
}

/// A line that is not untagged, or has no number behind its star, announces no numbered
/// response.
pub proof fn law_other_lines_are_not_numbered(line: Seq<u8>)
    requires
        line.len() < 3 || line[0] != 42 || line[1] != 32 || !text::digit(line[2]),
    ensures
        lines::numeric_response(line) == Ok::<NumericResponse, Error>(NumericResponse::Other),
{
}

proof fn lemma_last_brace(before: Seq<u8>, after: Seq<u8>)
    requires
        forall|i: int| 0 <= i < after.len() ==> #[trigger] after[i] != 123,
    ensures
        lines::last_open_brace(before + seq![123u8] + after) == Some(before.len() as int),
        before.len() == 0 ==> lines::last_open_brace(after) is None,
    decreases after.len(),
{
    let line = before + seq![123u8] + after;
    if after.len() == 0 {
        assert(line.last() == 123);
    } else {
        let fewer = after.drop_last();
        assert forall|i: int| 0 <= i < fewer.len() implies #[trigger] fewer[i] != 123 by {
            assert(fewer[i] == after[i]);
        }
        lemma_last_brace(before, fewer);
        assert(line.drop_last() =~= before + seq![123u8] + fewer);
        assert(line.last() == after[after.len() - 1]);
    }
}

/// A line that ends in `{<number>}` announces a literal of that length, unless a tilde
/// stands before the brace, which asks for a kind of literal that is not spoken.
pub proof fn law_announced_literal_has_its_length(before: Seq<u8>, n: nat)
    ensures
        ({
            let line = before + seq![123u8] + (digits_of(n) + seq![125u8]);
            let length = lines::literal_len(line);
            let tilde = before.len() > 0 && before[before.len() - 1] == 126;
            &&& !tilde && n <= usize::MAX ==> length == Ok::<usize, Error>(n as usize)
            &&& tilde || n > usize::MAX ==> length is Err
        }),
{
    lemma_digits_of(n);
    let digits = digits_of(n);
    let after = digits + seq![125u8];
    let line = before + seq![123u8] + after;
    assert forall|i: int| 0 <= i < after.len() implies #[trigger] after[i] != 123 by {
        if i < digits.len() {
            assert(after[i] == digits[i]);
        }
    }
    lemma_last_brace(before, after);
    assert(line.subrange(before.len() as int + 1, line.len() - 1) =~= digits);
    if before.len() > 0 {
        assert(line[before.len() - 1] == before[before.len() - 1]);
    }
}

/// In pass-through a literal may also be announced with a plus behind its length; what
/// stands between the braces otherwise, or no brace at all, announces none.
pub proof fn law_pass_through_literal_has_its_length(before: Seq<u8>, n: nat, inside: Seq<u8>)
    requires
        n <= usize::MAX,
        forall|i: int| 0 <= i < inside.len() ==> #[trigger] inside[i] != 123,
        inside.len() == 0 || (!text::digit(inside[0])),
    ensures
        lines::pass_through_literal_len(
            before + seq![123u8] + (digits_of(n) + seq![125u8]),
        ) == Ok::<Option<usize>, Error>(Some(n as usize)),
        lines::pass_through_literal_len(
            before + seq![123u8] + (digits_of(n) + seq![43u8, 125u8]),
        ) == Ok::<Option<usize>, Error>(Some(n as usize)),
        lines::pass_through_literal_len(before + seq![123u8] + (inside + seq![125u8])) == Ok::<
            Option<usize>,
            Error,
        >(None),
        lines::pass_through_literal_len(inside) == Ok::<Option<usize>, Error>(None),
{
    lemma_digits_of(n);
    let digits = digits_of(n);
    let start = before.len() as int + 1;
    let plain = digits + seq![125u8];
    let line = before + seq![123u8] + plain;
    assert forall|i: int| 0 <= i < plain.len() implies #[trigger] plain[i] != 123 by {
        if i < digits.len() {
            assert(plain[i] == digits[i]);
        }
    }
    lemma_last_brace(before, plain);
    assert(line.subrange(start, line.len() - 1) =~= digits);
    assert(text::digit(digits[digits.len() - 1]));
    let plus = digits + seq![43u8, 125u8];
    let other = before + seq![123u8] + plus;
    assert forall|i: int| 0 <= i < plus.len() implies #[trigger] plus[i] != 123 by {
        if i < digits.len() {
            assert(plus[i] == digits[i]);
        }
    }
    lemma_last_brace(before, plus);
    assert(other.subrange(start, other.len() - 1) =~= digits.push(43u8));
    assert(digits.push(43u8).drop_last() =~= digits);
    let odd = inside + seq![125u8];
    let third = before + seq![123u8] + odd;
    assert forall|i: int| 0 <= i < odd.len() implies #[trigger] odd[i] != 123 by {
        if i < inside.len() {
            assert(odd[i] == inside[i]);
        }
    }
    lemma_last_brace(before, odd);
    assert(third.subrange(start, third.len() - 1) =~= inside);
    if inside.len() > 1 && inside.last() == 43 {
        assert(inside.drop_last()[0] == inside[0]);
    }
    lemma_last_brace(Seq::empty(), inside);
}

proof fn lemma_field_run(line: Seq<u8>, from: int, end: int)
    requires
        0 <= from <= end <= line.len(),
        forall|i: int| from <= i < end ==> #[trigger] line[i] != 32,
        end == line.len() || line[end] == 32,
    ensures
        lines::field_end(line, from) == end,
    decreases end - from,
{
    if from < end {
        assert(line[from] != 32);
        lemma_field_run(line, from + 1, end);
    }
}

/// The completion of a command: its tag, a space, and `OK`, `NO` or `BAD` in whatever case,
/// with anything or nothing behind. A line under another tag, or with another word there,
/// completes nothing.
pub proof fn law_completions_are_read_under_their_tag(
    tag: Seq<u8>,
    status: Seq<u8>,
    tail: Seq<u8>,
)
    requires
        forall|i: int| 0 <= i < status.len() ==> #[trigger] status[i] != 32,
        tail.len() == 0 || tail[0] == 32,
    ensures
        ({
            let line = tag + seq![32u8] + status + tail + seq![13u8, 10u8];
            let read = lines::tagged_completion(line, tag);
            let good = text::spells(status, "OK"@);
            let bad = text::spells(status, "NO"@) || text::spells(status, "BAD"@);
            &&& good ==> read == Some(TaggedStatus::Done)
            &&& !good && bad ==> read == Some(TaggedStatus::NoOrBad)
            &&& !good && !bad ==> read is None
        }),
{
    let body = tag + seq![32u8] + status + tail;
    let line = body + seq![13u8, 10u8];
    let start = tag.len() as int + 1;
    let end = start + status.len();
    assert(line.take(tag.len() as int) =~= tag);
    assert(line[start - 1] == 32);
    assert(line.take(line.len() - 2) =~= body);
    assert forall|i: int| start <= i < end implies #[trigger] body[i] != 32 by {
        assert(body[i] == status[i - start]);
    }
    if tail.len() > 0 {
        assert(body[end] == tail[0]);
    }
    lemma_field_run(body, start, end);
    assert(body.subrange(start, end) =~= status);
}

/// A line that does not start with the tag and a space completes nothing.
pub proof fn law_other_tags_complete_nothing(line: Seq<u8>, tag: Seq<u8>)
    requires
        line.len() < tag.len() + 1 || line.take(tag.len() as int) != tag || line[tag.len() as int]
            != 32,
    ensures
        lines::tagged_completion(line, tag) is None,
{
}

/// Fields with one space between them.
pub open spec fn spaced_fields(list: Seq<Seq<u8>>) -> Seq<u8>
    decreases list.len(),
{
    if list.len() == 0 {
        Seq::empty()
    } else if list.len() == 1 {
        list[0]
    } else {
        list[0] + seq![32u8] + spaced_fields(list.drop_first())
    }
}

/// The fields of a line are what stands between its single spaces, in their order.
pub proof fn law_fields_stand_between_spaces(before: Seq<u8>, list: Seq<Seq<u8>>)
    requires
        list.len() > 0,
        forall|i: int, j: int|
            0 <= i < list.len() && 0 <= j < list[i].len() ==> #[trigger] list[i][j] != 32,
    ensures
        lines::fields(before + spaced_fields(list), before.len() as int) == list,
    decreases list.len(),
{
    let line = before + spaced_fields(list);
    let from = before.len() as int;
    let first = list[0];
    let end = from + first.len();
    assert forall|i: int| from <= i < end implies #[trigger] line[i] != 32 by {
        assert(line[i] == first[i - from]);
        assert(list[0][i - from] != 32);
    }
    if list.len() > 1 {
        let rest = list.drop_first();
        let longer = before + first + seq![32u8];
        assert(line =~= longer + spaced_fields(rest));
        assert(line[end] == 32);
        lemma_field_run(line, from, end);
        assert forall|i: int, j: int| 0 <= i < rest.len() && 0 <= j < rest[i].len() implies
            #[trigger] rest[i][j] != 32 by {
            assert(rest[i] == list[i + 1]);
            assert(list[i + 1][j] != 32);
        }
        law_fields_stand_between_spaces(longer, rest);
        assert(line.subrange(from, end) =~= first);
        assert(lines::fields(line, from) == seq![first] + lines::fields(line, end + 1));
        assert(seq![first] + rest =~= list);
    } else {
        assert(line =~= before + first);
        lemma_field_run(line, from, end);
        assert(line.subrange(from, end) =~= first);
        assert(list =~= seq![first]);
        assert(lines::fields(line, from) == seq![first]);
    }
}

/// A server has enabled the extension where a whole line lists it behind a star and the
/// word `ENABLED`, in whatever case and wherever among other extensions; no other line says
/// so.
pub proof fn law_enabled_line_lists_the_extension(list: Seq<Seq<u8>>)
    requires
        list.len() > 0,
        forall|i: int, j: int|
            0 <= i < list.len() && 0 <= j < list[i].len() ==> #[trigger] list[i][j] != 32,
    ensures
        lines::enabled_uidonly(spaced_fields(list) + seq![13u8, 10u8]) <==> {
            &&& list.len() >= 3
            &&& list[0] == seq![42u8]
            &&& text::spells(list[1], "ENABLED"@)
            &&& exists|i: int| 2 <= i < list.len() && text::spells(#[trigger] list[i], "UIDONLY"@)
        },
{
    let body = spaced_fields(list);
    let line = body + seq![13u8, 10u8];
    assert(line.take(line.len() - 2) =~= body);
    law_fields_stand_between_spaces(Seq::empty(), list);
    assert(Seq::<u8>::empty() + body =~= body);
}

/// The date of a fetch is missing just where the token behind the first `INTERNALDATE` is
/// `NIL`.
pub proof fn law_missing_date_is_nil(before: Seq<Seq<u8>>, name: Seq<u8>, after: Seq<Seq<u8>>)
    requires
        forall|i: int| 0 <= i < before.len() ==> !text::spells(#[trigger] before[i], "INTERNALDATE"@),
        text::spells(name, "INTERNALDATE"@),
    ensures
        !lines::nil_date(before),
        lines::nil_date(before + seq![name] + after) <==> after.len() > 0 && text::spells(
            after[0],
            "NIL"@,
        ),
    decreases before.len(),
{
    let all = before + seq![name] + after;
    if before.len() > 0 {
        let fewer = before.drop_first();
        assert forall|i: int| 0 <= i < fewer.len() implies !text::spells(
            #[trigger] fewer[i],
            "INTERNALDATE"@,
        ) by {
            assert(fewer[i] == before[i + 1]);
        }
        law_missing_date_is_nil(fewer, name, after);
        assert(all.drop_first() =~= fewer + seq![name] + after);
        assert(all[0] == before[0]);
    } else {
        assert(all[0] == name);
        if after.len() > 0 {
            assert(all[1] == after[0]);
        }
    }
}

/// Which untagged lines may carry a literal in pass-through: those whose first word is
/// neither a number nor a status.
pub proof fn law_status_lines_carry_no_literal(atom: Seq<u8>, tail: Seq<u8>)
    requires
        atom.len() > 0,
        forall|i: int| 0 <= i < atom.len() ==> #[trigger] atom[i] != 32,
        tail.len() == 0 || tail[0] == 32,
    ensures
        ({
            let line = seq![42u8, 32u8] + atom + tail;
            let status = text::spells(atom, "OK"@) || text::spells(atom, "NO"@) || text::spells(
                atom,
                "BAD"@,
            ) || text::spells(atom, "PREAUTH"@) || text::spells(atom, "BYE"@);
            let number = forall|i: int| 0 <= i < atom.len() ==> text::digit(#[trigger] atom[i]);
            lines::untagged_may_carry_literal(line) <==> !status && !number
        }),
{
    let line = seq![42u8, 32u8] + atom + tail;
    let end = 2 + atom.len() as int;
    assert forall|i: int| 2 <= i < end implies #[trigger] line[i] != 32 by {
        assert(line[i] == atom[i - 2]);
    }
    if tail.len() > 0 {
        assert(line[end] == tail[0]);
    }
    lemma_field_run(line, 2, end);
    assert(line.subrange(2, end) =~= atom);
}

/// Where the byte at a place belongs to no token and opens no quotes, the tokens are those
/// behind it.
pub proof fn law_separators_are_no_tokens(line: Seq<u8>, from: int)
    requires
        0 <= from <= line.len(),
    ensures
        from == line.len() ==> lines::tokens(line, from).len() == 0,
        from < line.len() && line[from] != 34 && line[from] != 45 && !text::letter(line[from])
            && !text::digit(line[from]) ==> lines::tokens(line, from) == lines::tokens(
            line,
            from + 1,
        ),
{
}

/// A run of letters, digits and dashes is one token, and the next ones follow it.
pub proof fn law_runs_are_tokens(line: Seq<u8>, from: int, end: int)
    requires
        0 <= from < end <= line.len(),
        forall|i: int|
            from <= i < end ==> text::letter(#[trigger] line[i]) || text::digit(line[i]) || line[i]
                == 45,
        end < line.len() ==> !text::letter(line[end]) && !text::digit(line[end]) && line[end] != 45,
    ensures
        lines::tokens(line, from) == seq![line.subrange(from, end)] + lines::tokens(line, end),
{
    lemma_token_run(line, from, end);
    assert(text::letter(line[from]) || text::digit(line[from]) || line[from] == 45);
}

proof fn lemma_token_run(line: Seq<u8>, from: int, end: int)
    requires
        0 <= from <= end <= line.len(),
        forall|i: int|
            from <= i < end ==> text::letter(#[trigger] line[i]) || text::digit(line[i]) || line[i]
                == 45,
        end < line.len() ==> !text::letter(line[end]) && !text::digit(line[end]) && line[end] != 45,
    ensures
        lines::token_end(line, from) == end,
    decreases end - from,
{
    if from < end {
        assert(lines::token_byte(line[from]));
        lemma_token_run(line, from + 1, end);
    }
}

/// What stands in quotes is no token, whatever it is, and an escaped quote does not close
/// them.
pub proof fn law_quoted_text_has_no_tokens(line: Seq<u8>, from: int, end: int)
    requires
        0 <= from < end < line.len(),
        line[from] == 34,
        line[end] == 34,
        forall|i: int| from < i < end ==> #[trigger] line[i] != 34 && line[i] != 92,
    ensures
        lines::tokens(line, from) == lines::tokens(line, end + 1),
{
    lemma_quotes_end(line, from + 1, end);
}

proof fn lemma_quotes_end(line: Seq<u8>, from: int, end: int)
    requires
        0 <= from <= end < line.len(),
        line[end] == 34,
        forall|i: int| from <= i < end ==> #[trigger] line[i] != 34 && line[i] != 92,
    ensures
        lines::quoted_end(line, from) == end + 1,
    decreases end - from,
{
    if from < end {
        assert(line[from] != 34 && line[from] != 92);
        lemma_quotes_end(line, from + 1, end);
    }
}

/// A backslash inside quotes takes the next byte with it.
pub proof fn law_escapes_do_not_close_quotes(line: Seq<u8>, from: int)
    requires
        0 <= from,
        from + 1 < line.len(),
        line[from] == 92,
    ensures
        lines::quoted_end(line, from) == lines::quoted_end(line, from + 2),
{
}

} // verus!
