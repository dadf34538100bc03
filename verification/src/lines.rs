//! The grammar of IMAP response lines, as far as framing needs it.

use crate::error;
use crate::error::{invalid_data, Error};
use crate::text;
use crate::text::{
    are_digits, is_digit, is_letter, parse_decimal, spells_word, BACKSLASH, CR, DASH, LEFT_BRACE,
    LF, PLUS, QUOTE, RIGHT_BRACE, SPACE, STAR, TILDE,
};
use vstd::prelude::*;
use vstd::slice::slice_subrange;

verus! {

/// What an untagged line with a leading number announces.
#[derive(Clone, Copy, Debug, PartialEq, Eq)]
pub enum NumericResponse {
    /// `* <uid> UIDFETCH ...`, with the place of the word in the line.
    UidFetch { leading_uid: u32, atom_start: usize, atom_end: usize },
    /// `* <number> FETCH ...`.
    Fetch,
    Other,
}

/// The completion that a tagged line reports.
#[derive(Clone, Copy, Debug, PartialEq, Eq, Structural)]
pub enum TaggedStatus {
    Done,
    NoOrBad,
}

/// Where the digits that start at `from` end.
pub open spec fn digits_end(line: Seq<u8>, from: int) -> int
    decreases line.len() - from,
{
    if 0 <= from < line.len() && text::digit(line[from]) {
        digits_end(line, from + 1)
    } else {
        from
    }
}

/// Where the letters that start at `from` end.
pub open spec fn letters_end(line: Seq<u8>, from: int) -> int
    decreases line.len() - from,
{
    if 0 <= from < line.len() && text::letter(line[from]) {
        letters_end(line, from + 1)
    } else {
        from
    }
}

pub open spec fn space_at(line: Seq<u8>, i: int) -> bool {
    0 <= i < line.len() && line[i] == SPACE
}

/// A line that begins with `"* "`.
pub open spec fn untagged(line: Seq<u8>) -> bool {
    line.len() >= 2 && line[0] == STAR && line[1] == SPACE
}

pub open spec fn ends_in_crlf(line: Seq<u8>) -> bool {
    line.len() >= 2 && line[line.len() - 2] == CR && line[line.len() - 1] == LF
}

/// `* <digits> <letters> ` read as an announcement of a numbered response.
pub open spec fn numeric_response(line: Seq<u8>) -> Result<NumericResponse, Error> {
    let number_end = digits_end(line, 2);
    let atom_start = number_end + 1;
    let atom_end = letters_end(line, atom_start);
    if !untagged(line) || number_end == 2 || !space_at(line, number_end) || !space_at(
        line,
        atom_end,
    ) {
        Ok(NumericResponse::Other)
    } else {
        let atom = line.subrange(atom_start, atom_end);
        let number = text::decimal(line.subrange(2, number_end));
        if text::spells(atom, "UIDFETCH"@) {
            if number > u32::MAX {
                Err(error::data_error("invalid leading UID"))
            } else if number == 0 {
                Err(error::data_error("UID 0 is invalid"))
            } else {
                Ok(
                    NumericResponse::UidFetch {
                        leading_uid: number as u32,
                        atom_start: atom_start as usize,
                        atom_end: atom_end as usize,
                    },
                )
            }
        } else if text::spells(atom, "FETCH"@) {
            Ok(NumericResponse::Fetch)
        } else {
            Ok(NumericResponse::Other)
        }
    }
}

/// The place of the last `{`.
pub open spec fn last_open_brace(line: Seq<u8>) -> Option<int>
    decreases line.len(),
{
    if line.len() == 0 {
        None
    } else if line.last() == LEFT_BRACE {
        Some(line.len() - 1)
    } else {
        last_open_brace(line.drop_last())
    }
}

/// The length that a `{<digits>}` at the end of an active line announces.
pub open spec fn literal_len(line: Seq<u8>) -> Result<usize, Error> {
    match last_open_brace(line) {
        None => Err(error::data_error("invalid literal marker")),
        Some(open) => {
            let digits = line.subrange(open + 1, line.len() - 1);
            if open > 0 && line[open - 1] == TILDE {
                Err(error::data_error("literal8 is unsupported"))
            } else if digits.len() == 0 || !text::all_digits(digits) || text::decimal(digits)
                > usize::MAX {
                Err(error::data_error("invalid literal marker"))
            } else {
                Ok(text::decimal(digits) as usize)
            }
        },
    }
}

/// The digits between the braces of `{<digits>}` or `{<digits>+}`.
pub open spec fn marker_digits(line: Seq<u8>, open: int) -> Seq<u8> {
    let inside = line.subrange(open + 1, line.len() - 1);
    if inside.len() > 0 && inside.last() == PLUS {
        inside.drop_last()
    } else {
        inside
    }
}

/// The length that a pass-through line announces, where it ends in a marker.
pub open spec fn pass_through_literal_len(line: Seq<u8>) -> Result<Option<usize>, Error> {
    match last_open_brace(line) {
        None => Ok(None),
        Some(open) => {
            let digits = marker_digits(line, open);
            if digits.len() == 0 || !text::all_digits(digits) {
                Ok(None)
            } else if text::decimal(digits) > usize::MAX {
                Err(error::data_error("pass-through literal length overflow"))
            } else {
                Ok(Some(text::decimal(digits) as usize))
            }
        },
    }
}

/// The place after the quoted string whose inside starts at `from`.
pub open spec fn quoted_end(line: Seq<u8>, from: int) -> int
    decreases line.len() - from,
{
    if !(0 <= from < line.len()) {
        from
    } else if line[from] == BACKSLASH && from + 1 < line.len() {
        quoted_end(line, from + 2)
    } else if line[from] == QUOTE {
        from + 1
    } else {
        quoted_end(line, from + 1)
    }
}

pub open spec fn token_byte(b: u8) -> bool {
    text::letter(b) || text::digit(b) || b == DASH
}

/// Where the token that starts at `from` ends.
pub open spec fn token_end(line: Seq<u8>, from: int) -> int
    decreases line.len() - from,
{
    if 0 <= from < line.len() && token_byte(line[from]) {
        token_end(line, from + 1)
    } else {
        from
    }
}

/// The tokens of letters, digits and dashes from `from` on, outside quoted strings.
pub open spec fn tokens(line: Seq<u8>, from: int) -> Seq<Seq<u8>>
    decreases line.len() - from,
    when 0 <= from
{
    if from >= line.len() {
        Seq::empty()
    } else if line[from] == QUOTE {
        proof {
            lemma_quoted_end(line, from + 1);
        }
        tokens(line, quoted_end(line, from + 1))
    } else if !token_byte(line[from]) {
        tokens(line, from + 1)
    } else {
        proof {
            lemma_token_end(line, from + 1);
        }
        seq![line.subrange(from, token_end(line, from))] + tokens(line, token_end(line, from))
    }
}

/// Whether the token after the first `INTERNALDATE` is `NIL`.
pub open spec fn nil_date(tokens: Seq<Seq<u8>>) -> bool
    decreases tokens.len(),
{
    if tokens.len() == 0 {
        false
    } else if text::spells(tokens[0], "INTERNALDATE"@) {
        tokens.len() > 1 && text::spells(tokens[1], "NIL"@)
    } else {
        nil_date(tokens.drop_first())
    }
}

/// The place of the first space from `from` on, or the end.
pub open spec fn field_end(line: Seq<u8>, from: int) -> int
    decreases line.len() - from,
{
    if 0 <= from < line.len() && line[from] != SPACE {
        field_end(line, from + 1)
    } else {
        from
    }
}

/// The fields between single spaces, from `from` on.
pub open spec fn fields(line: Seq<u8>, from: int) -> Seq<Seq<u8>>
    decreases line.len() - from,
    when 0 <= from <= line.len()
{
    proof {
        lemma_field_end(line, from);
    }
    let end = field_end(line, from);
    if end < line.len() {
        seq![line.subrange(from, end)] + fields(line, end + 1)
    } else {
        seq![line.subrange(from, end)]
    }
}

/// The atom of an untagged line: what stands between `"* "` and the next space.
pub open spec fn untagged_atom(line: Seq<u8>) -> Seq<u8> {
    line.subrange(2, field_end(line, 2))
}

/// An untagged line that is neither numbered nor a status may carry a literal.
pub open spec fn untagged_may_carry_literal(line: Seq<u8>) -> bool {
    let atom = untagged_atom(line);
    &&& untagged(line)
    &&& atom.len() > 0
    &&& !text::all_digits(atom)
    &&& !text::spells(atom, "OK"@)
    &&& !text::spells(atom, "NO"@)
    &&& !text::spells(atom, "BAD"@)
    &&& !text::spells(atom, "PREAUTH"@)
    &&& !text::spells(atom, "BYE"@)
}

/// `* ENABLED ... UIDONLY ...` as a whole line.
pub open spec fn enabled_uidonly(line: Seq<u8>) -> bool {
    let parts = fields(line.take(line.len() - 2), 0);
    &&& ends_in_crlf(line)
    &&& parts[0] == seq![STAR]
    &&& parts.len() >= 2
    &&& text::spells(parts[1], "ENABLED"@)
    &&& exists|i: int| 2 <= i < parts.len() && text::spells(#[trigger] parts[i], "UIDONLY"@)
}

/// The completion that a line with the tag `tag` reports, if it has that tag.
pub open spec fn tagged_completion(line: Seq<u8>, tag: Seq<u8>) -> Option<TaggedStatus> {
    let end = line.len() - 2;
    let start = tag.len() + 1;
    if !ends_in_crlf(line) || end < start || line.take(tag.len() as int) != tag || line[start - 1]
        != SPACE {
        None
    } else {
        let body = line.take(end);
        let status = body.subrange(start as int, field_end(body, start as int));
        if text::spells(status, "OK"@) {
            Some(TaggedStatus::Done)
        } else if text::spells(status, "NO"@) || text::spells(status, "BAD"@) {
            Some(TaggedStatus::NoOrBad)
        } else {
            None
        }
    }
}

pub proof fn lemma_digits_end(line: Seq<u8>, from: int)
    requires
        0 <= from <= line.len(),
    ensures
        from <= digits_end(line, from) <= line.len(),
        text::all_digits(line.subrange(from, digits_end(line, from))),
    decreases line.len() - from,
{
    if from < line.len() && text::digit(line[from]) {
        lemma_digits_end(line, from + 1);
        let end = digits_end(line, from);
        assert forall|i: int| 0 <= i < end - from implies text::digit(
            #[trigger] line.subrange(from, end)[i],
        ) by {
            if i > 0 {
                assert(line.subrange(from, end)[i] == line.subrange(from + 1, end)[i - 1]);
            }
        }
    }
}

pub proof fn lemma_letters_end(line: Seq<u8>, from: int)
    requires
        0 <= from <= line.len(),
    ensures
        from <= letters_end(line, from) <= line.len(),
    decreases line.len() - from,
{
    if from < line.len() && text::letter(line[from]) {
        lemma_letters_end(line, from + 1);
    }
}

pub proof fn lemma_quoted_end(line: Seq<u8>, from: int)
    requires
        0 <= from <= line.len(),
    ensures
        from <= quoted_end(line, from) <= line.len(),
    decreases line.len() - from,
{
    if from < line.len() {
        if line[from] == BACKSLASH && from + 1 < line.len() {
            lemma_quoted_end(line, from + 2);
        } else if line[from] != QUOTE {
            lemma_quoted_end(line, from + 1);
        }
    }
}

pub proof fn lemma_token_end(line: Seq<u8>, from: int)
    requires
        0 <= from <= line.len(),
    ensures
        from <= token_end(line, from) <= line.len(),
    decreases line.len() - from,
{
    if from < line.len() && token_byte(line[from]) {
        lemma_token_end(line, from + 1);
    }
}

pub proof fn lemma_field_end(line: Seq<u8>, from: int)
    requires
        0 <= from <= line.len(),
    ensures
        from <= field_end(line, from) <= line.len(),
    decreases line.len() - from,
{
    if from < line.len() && line[from] != SPACE {
        lemma_field_end(line, from + 1);
    }
}

/// Reads the announcement of a numbered response.
pub fn classify_numeric_response(line: &[u8]) -> (result: Result<NumericResponse, Error>)
    ensures
        result == numeric_response(line@),
{
    if line.len() < 2 || line[0] != STAR || line[1] != SPACE {
        return Ok(NumericResponse::Other);
    }
    let mut index: usize = 2;
    while index < line.len() && is_digit(line[index])
        invariant
            2 <= index <= line.len(),
            digits_end(line@, 2) == digits_end(line@, index as int),
        decreases line.len() - index,
    {
        index = index + 1;
    }
    let number_end: usize = index;
    proof {
        lemma_digits_end(line@, 2);
    }
    assert(number_end == digits_end(line@, 2));
    if number_end == 2 || number_end >= line.len() || line[number_end] != SPACE {
        return Ok(NumericResponse::Other);
    }
    let atom_start: usize = number_end + 1;
    index = atom_start;
    while index < line.len() && is_letter(line[index])
        invariant
            atom_start <= index <= line.len(),
            letters_end(line@, atom_start as int) == letters_end(line@, index as int),
        decreases line.len() - index,
    {
        index = index + 1;
    }
    assert(index == letters_end(line@, atom_start as int));
    if index >= line.len() || line[index] != SPACE {
        return Ok(NumericResponse::Other);
    }
    let atom = slice_subrange(line, atom_start, index);
    if spells_word(atom, "UIDFETCH") {
        match parse_decimal(slice_subrange(line, 2, number_end), u32::MAX as u64) {
            None => Err(invalid_data("invalid leading UID")),
            Some(number) => if number == 0 {
                Err(invalid_data("UID 0 is invalid"))
            } else {
                Ok(
                    NumericResponse::UidFetch {
                        leading_uid: number as u32,
                        atom_start,
                        atom_end: index,
                    },
                )
            },
        }
    } else if spells_word(atom, "FETCH") {
        Ok(NumericResponse::Fetch)
    } else {
        Ok(NumericResponse::Other)
    }
}

fn find_open_brace(line: &[u8]) -> (result: Option<usize>)
    ensures
        result is Some <==> last_open_brace(line@) is Some,
        result matches Some(open) ==> last_open_brace(line@) == Some(open as int) && open
            < line.len() && line@[open as int] == LEFT_BRACE,
{
    let mut end: usize = line.len();
    assert(line@.take(end as int) =~= line@);
    while end > 0
        invariant
            end <= line.len(),
            last_open_brace(line@) == last_open_brace(line@.take(end as int)),
        decreases end,
    {
        if line[end - 1] == LEFT_BRACE {
            return Some(end - 1);
        }
        assert(line@.take(end as int).drop_last() =~= line@.take(end - 1));
        end = end - 1;
    }
    None
}

/// Reads the literal length that an active line announces.
pub fn parse_literal_len(line: &[u8]) -> (result: Result<usize, Error>)
    requires
        line@.len() > 0 && line@.last() == RIGHT_BRACE,
    ensures
        result == literal_len(line@),
{
    match find_open_brace(line) {
        None => Err(invalid_data("invalid literal marker")),
        Some(open) => {
            if open > 0 && line[open - 1] == TILDE {
                return Err(invalid_data("literal8 is unsupported"));
            }
            let digits = slice_subrange(line, open + 1, line.len() - 1);
            if digits.len() == 0 || !are_digits(digits) {
                return Err(invalid_data("invalid literal marker"));
            }
            match parse_decimal(digits, usize::MAX as u64) {
                None => Err(invalid_data("invalid literal marker")),
                Some(length) => Ok(length as usize),
            }
        },
    }
}

/// Reads the literal length that a pass-through line announces, if any.
pub fn parse_pass_through_literal_len(line: &[u8]) -> (result: Result<Option<usize>, Error>)
    requires
        line@.len() > 0 && line@.last() == RIGHT_BRACE,
    ensures
        result == pass_through_literal_len(line@),
{
    match find_open_brace(line) {
        None => Ok(None),
        Some(open) => {
            let inside = slice_subrange(line, open + 1, line.len() - 1);
            let digits = if inside.len() > 0 && inside[inside.len() - 1] == PLUS {
                slice_subrange(inside, 0, inside.len() - 1)
            } else {
                inside
            };
            assert(digits@ =~= marker_digits(line@, open as int));
            if digits.len() == 0 || !are_digits(digits) {
                return Ok(None);
            }
            match parse_decimal(digits, usize::MAX as u64) {
                None => Err(invalid_data("pass-through literal length overflow")),
                Some(length) => Ok(Some(length as usize)),
            }
        },
    }
}

fn is_token_byte(b: u8) -> (result: bool)
    ensures
        result == token_byte(b),
{
    is_letter(b) || is_digit(b) || b == DASH
}

fn skip_quoted(line: &[u8], from: usize) -> (end: usize)
    requires
        from <= line.len(),
    ensures
        end == quoted_end(line@, from as int),
        from <= end <= line.len(),
{
    let mut index: usize = from;
    while index < line.len()
        invariant
            from <= index <= line.len(),
            quoted_end(line@, from as int) == quoted_end(line@, index as int),
        decreases line.len() - index,
    {
        if line[index] == BACKSLASH && index + 1 < line.len() {
            index = index + 2;
        } else if line[index] == QUOTE {
            return index + 1;
        } else {
            index = index + 1;
        }
    }
    index
}

/// Whether the token after the first `INTERNALDATE` outside quoted strings is `NIL`.
pub fn contains_internaldate_nil(line: &[u8]) -> (result: bool)
    ensures
        result == nil_date(tokens(line@, 0)),
{
    let mut index: usize = 0;
    let mut saw_internal_date: bool = false;
    while index < line.len()
        invariant
            index <= line.len(),
            nil_date(tokens(line@, 0)) == ({
                let rest = tokens(line@, index as int);
                if saw_internal_date {
                    rest.len() > 0 && text::spells(rest[0], "NIL"@)
                } else {
                    nil_date(rest)
                }
            }),
        decreases line.len() - index,
    {
        if line[index] == QUOTE {
            index = skip_quoted(line, index + 1);
            continue ;
        }
        if !is_token_byte(line[index]) {
            index = index + 1;
            continue ;
        }
        let start: usize = index;
        while index < line.len() && is_token_byte(line[index])
            invariant
                start <= index <= line.len(),
                start < line.len(),
                index == start ==> token_byte(line@[index as int]),
                token_end(line@, start as int) == token_end(line@, index as int),
            decreases line.len() - index,
        {
            index = index + 1;
        }
        let token = slice_subrange(line, start, index);
        let ghost rest = tokens(line@, index as int);
        proof {
            assert(tokens(line@, start as int) == seq![token@] + rest);
            assert((seq![token@] + rest).drop_first() =~= rest);
            assert((seq![token@] + rest)[0] == token@);
            if rest.len() > 0 {
                assert((seq![token@] + rest)[1] == rest[0]);
            }
        }
        if saw_internal_date {
            return spells_word(token, "NIL");
        }
        saw_internal_date = spells_word(token, "INTERNALDATE");
    }
    false
}

fn find_field_end(line: &[u8], from: usize) -> (end: usize)
    requires
        from <= line.len(),
    ensures
        end == field_end(line@, from as int),
        from <= end <= line.len(),
{
    let mut index: usize = from;
    while index < line.len() && line[index] != SPACE
        invariant
            from <= index <= line.len(),
            field_end(line@, from as int) == field_end(line@, index as int),
        decreases line.len() - index,
    {
        index = index + 1;
    }
    index
}

/// Whether an untagged pass-through line may carry a literal.
pub fn pass_through_untagged_may_contain_literal(line: &[u8]) -> (result: bool)
    ensures
        result == untagged_may_carry_literal(line@),
{
    if line.len() < 2 || line[0] != STAR || line[1] != SPACE {
        return false;
    }
    let end = find_field_end(line, 2);
    let atom = slice_subrange(line, 2, end);
    atom.len() > 0 && !are_digits(atom) && !spells_word(atom, "OK") && !spells_word(atom, "NO")
        && !spells_word(atom, "BAD") && !spells_word(atom, "PREAUTH") && !spells_word(atom, "BYE")
}

pub fn has_crlf(line: &[u8]) -> (result: bool)
    ensures
        result == ends_in_crlf(line@),
{
    line.len() >= 2 && line[line.len() - 2] == CR && line[line.len() - 1] == LF
}

/// Whether a line is `* ENABLED ... UIDONLY ...`.
pub fn is_enabled_uidonly(line: &[u8]) -> (result: bool)
    ensures
        result == enabled_uidonly(line@),
{
    if !has_crlf(line) {
        return false;
    }
    let body = slice_subrange(line, 0, line.len() - 2);
    let ghost parts = fields(body@, 0);
    assert(body@ =~= line@.take(line@.len() - 2));
    let first_end = find_field_end(body, 0);
    assert(parts[0] == body@.subrange(0, first_end as int));
    if first_end != 1 || body[0] != STAR {
        assert(parts[0] != seq![STAR]) by {
            if first_end == 1 {
                assert(parts[0][0] == body@[0]);
            }
        }
        return false;
    }
    assert(parts[0] =~= seq![STAR]);
    if first_end == body.len() {
        return false;
    }
    let second_end = find_field_end(body, first_end + 1);
    let second = slice_subrange(body, first_end + 1, second_end);
    assert(parts.drop_first() =~= fields(body@, first_end + 1));
    assert(parts[1] == parts.drop_first()[0]);
    assert(parts[1] == second@);
    if !spells_word(second, "ENABLED") {
        return false;
    }
    let mut end: usize = second_end;
    let ghost mut seen: int = 2;
    assert(end < body.len() ==> parts.skip(2) =~= fields(body@, end + 1)) by {
        if end < body.len() {
            assert(parts.skip(2) =~= parts.drop_first().drop_first());
            assert(parts.drop_first().drop_first() =~= fields(body@, end + 1));
        }
    }
    while end < body.len()
        invariant
            end <= body.len(),
            ends_in_crlf(line@),
            parts == fields(line@.take(line@.len() - 2), 0),
            parts[0] == seq![STAR],
            text::spells(parts[1], "ENABLED"@),
            2 <= seen <= parts.len(),
            end < body.len() ==> parts.skip(seen) == fields(body@, end + 1),
            end == body.len() ==> seen == parts.len(),
            forall|i: int| 2 <= i < seen ==> !text::spells(#[trigger] parts[i], "UIDONLY"@),
        ensures
            seen == parts.len(),
            forall|i: int| 2 <= i < seen ==> !text::spells(#[trigger] parts[i], "UIDONLY"@),
        decreases body.len() - end,
    {
        let start: usize = end + 1;
        end = find_field_end(body, start);
        let field = slice_subrange(body, start, end);
        proof {
            assert(parts.skip(seen)[0] == field@);
            assert(parts[seen] == parts.skip(seen)[0]);
            assert(parts.skip(seen + 1) =~= parts.skip(seen).drop_first());
            if end < body.len() {
                assert(fields(body@, start as int).drop_first() =~= fields(body@, end + 1));
            } else {
                assert(fields(body@, start as int).len() == 1);
            }
        }
        if spells_word(field, "UIDONLY") {
            return true;
        }
        proof {
            seen = seen + 1;
        }
    }
    false
}

/// The completion that a line reports for the expected tag, if it has that tag.
pub fn tagged_status(line: &[u8], expected_tag: &[u8]) -> (result: Option<TaggedStatus>)
    ensures
        result == tagged_completion(line@, expected_tag@),
{
    if !has_crlf(line) {
        return None;
    }
    let body = slice_subrange(line, 0, line.len() - 2);
    assert(body@ =~= line@.take(line@.len() - 2));
    if body.len() <= expected_tag.len() {
        return None;
    }
    let mut i: usize = 0;
    while i < expected_tag.len()
        invariant
            i <= expected_tag.len() < body.len(),
            body@ == line@.take(line@.len() - 2),
            line.len() >= 2,
            forall|j: int| 0 <= j < i ==> line@[j] == #[trigger] expected_tag@[j],
        decreases expected_tag.len() - i,
    {
        if body[i] != expected_tag[i] {
            assert(line@.take(expected_tag@.len() as int)[i as int] != expected_tag@[i as int]);
            return None;
        }
        i = i + 1;
    }
    assert(line@.take(expected_tag@.len() as int) =~= expected_tag@);
    if body[expected_tag.len()] != SPACE {
        return None;
    }
    let start: usize = expected_tag.len() + 1;
    let end = find_field_end(body, start);
    let status = slice_subrange(body, start, end);
    if spells_word(status, "OK") {
        Some(TaggedStatus::Done)
    } else if spells_word(status, "NO") || spells_word(status, "BAD") {
        Some(TaggedStatus::NoOrBad)
    } else {
        None
    }
}

} // verus!
