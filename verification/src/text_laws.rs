//! What holds of numerals, words and white space.

use crate::text;
use vstd::prelude::*;

verus! {

/// Decimal digits count as they do on paper: one more digit makes ten times the number and
/// the digit.
pub proof fn law_digits_count_by_tens(digits: Seq<u8>, digit: u8)
    requires
        text::digit(digit),
    ensures
        text::decimal(Seq::<u8>::empty()) == 0,
        text::decimal(digits.push(digit)) == 10 * text::decimal(digits) + (digit - 48),
{
    assert(digits.push(digit).drop_last() =~= digits);
}

/// A numeral reads back as its number, has digits only, and does not start with a zero
/// unless it is zero.
pub proof fn law_numerals_read_back(n: nat)
    ensures
        text::decimal(text::word_bytes(text::numeral(n))) == n,
        text::all_digit_chars(text::numeral(n)),
        text::numeral(n).len() > 0,
        n > 0 ==> text::numeral(n)[0] != '0',
        n <= u32::MAX ==> text::parsed_u32(text::numeral(n)) == Some(n as u32),
        n > u32::MAX ==> text::parsed_u32(text::numeral(n)) is None,
    decreases n,
{
    reveal_with_fuel(text::decimal, 2);
    let shown = text::numeral(n);
    let bytes = text::word_bytes(shown);
    if n < 10 {
        assert(shown =~= seq![(48 + n) as char]);
        assert(bytes.drop_last() =~= Seq::empty());
        assert(bytes.last() == 48 + n);
    } else {
        law_numerals_read_back(n / 10);
        let front = text::numeral(n / 10);
        assert(bytes.drop_last() =~= text::word_bytes(front));
        assert(bytes.last() == 48 + n % 10);
        assert(shown[0] == front[0]);
        assert forall|i: int| 0 <= i < shown.len() implies 48 <= (#[trigger] shown[i]) as int
            <= 57 by {
            if i < front.len() {
                assert(shown[i] == front[i]);
            }
        }
    }
    assert(48 <= shown[0] as int);
}

/// Different numbers have different numerals.
pub proof fn law_numerals_are_told_apart(a: nat, b: nat)
    requires
        text::numeral(a) == text::numeral(b),
    ensures
        a == b,
{
    law_numerals_read_back(a);
    law_numerals_read_back(b);
}

/// A number may be written with a plus before it; a text without digits, or with anything
/// else in it, is no number.
pub proof fn law_only_digits_make_a_number(s: Seq<char>, n: nat, i: int)
    ensures
        n <= u32::MAX ==> text::parsed_u32(seq!['+'] + text::numeral(n)) == Some(n as u32),
        text::parsed_u32(Seq::<char>::empty()) is None,
        text::parsed_u32(seq!['+']) is None,
        0 < i < s.len() && !('0' <= s[i] <= '9') ==> text::parsed_u32(s) is None,
        s.len() > 0 && !('0' <= s[0] <= '9') && s[0] != '+' ==> text::parsed_u32(s) is None,
{
    law_numerals_read_back(n);
    let signed = seq!['+'] + text::numeral(n);
    assert(signed.skip(1) =~= text::numeral(n));
    assert(seq!['+'].skip(1) =~= Seq::<char>::empty());
    if 0 < i < s.len() && !('0' <= s[i] <= '9') {
        if s[0] == '+' {
            assert(s.skip(1)[i - 1] == s[i]);
        }
    }
}

/// Two texts are one word just where they are the same in small letters.
pub proof fn law_words_agree_in_small_letters(a: Seq<char>, b: Seq<char>)
    ensures
        text::same_word(a, b) <==> text::lowercase(a) == text::lowercase(b),
        text::same_word(a, a),
{
    let x = text::lowercase(a);
    let y = text::lowercase(b);
    if text::same_word(a, b) {
        assert(x =~= y);
    }
    if x == y {
        assert(a.len() == x.len() && b.len() == y.len());
        assert forall|i: int| 0 <= i < a.len() implies text::small(#[trigger] a[i] as int)
            == text::small(b[i] as int) by {
            lemma_small_is_character(a[i]);
            lemma_small_is_character(b[i]);
            assert(x[i] == y[i]);
        }
    }
}

proof fn lemma_small_is_character(c: char)
    ensures
        (text::small(c as int) as char) as int == text::small(c as int),
{
}

/// Small letters: the capitals A to Z become a to z, and nothing else changes.
pub proof fn law_only_capitals_become_small(s: Seq<char>, i: int)
    requires
        0 <= i < s.len(),
    ensures
        text::lowercase(s).len() == s.len(),
        'A' <= s[i] <= 'Z' ==> text::lowercase(s)[i] as int == s[i] as int + 32,
        !('A' <= s[i] <= 'Z') ==> text::lowercase(s)[i] == s[i],
        text::lowercase(text::lowercase(s)) == text::lowercase(s),
{
    lemma_small_is_character(s[i]);
    let once = text::lowercase(s);
    assert forall|j: int| 0 <= j < s.len() implies text::lowercase(once)[j] == #[trigger] once[j] by {
        lemma_small_is_character(s[j]);
    }
    assert(text::lowercase(once) =~= once);
}

/// Bytes that spell a word agree with it letter by letter, case aside.
pub proof fn law_spelling_ignores_case_only(bytes: Seq<u8>, word: Seq<char>, i: int)
    requires
        text::spells(bytes, word),
        0 <= i < word.len(),
    ensures
        bytes.len() == word.len(),
        bytes[i] as int == word[i] as int || (text::letter(bytes[i]) && (bytes[i] as int - word[i]
            as int == 32 || word[i] as int - bytes[i] as int == 32)),
{
    assert(text::small(bytes[i] as int) == text::small(word[i] as int));
}

/// Trimming takes white space off both ends and nothing else.
pub proof fn law_trimming_keeps_what_is_inside(before: Seq<char>, s: Seq<char>, after: Seq<char>)
    requires
        forall|i: int| 0 <= i < before.len() ==> text::white(#[trigger] before[i]),
        forall|i: int| 0 <= i < after.len() ==> text::white(#[trigger] after[i]),
        s.len() > 0 ==> !text::white(s[0]) && !text::white(s[s.len() - 1]),
    ensures
        text::trimmed(before + s + after) == s,
{
    let all = before + s + after;
    if s.len() > 0 {
        lemma_white_prefix_of(before, s + after);
        assert(all =~= before + (s + after));
        assert(all.skip(before.len() as int) =~= s + after);
        lemma_white_suffix(s, after);
    } else {
        lemma_all_white(all);
        assert(all.skip(all.len() as int) =~= Seq::empty());
    }
}

proof fn lemma_white_prefix_of(before: Seq<char>, rest: Seq<char>)
    requires
        forall|i: int| 0 <= i < before.len() ==> text::white(#[trigger] before[i]),
        rest.len() > 0,
        !text::white(rest[0]),
    ensures
        text::white_prefix(before + rest) == before.len(),
    decreases before.len(),
{
    let all = before + rest;
    if before.len() > 0 {
        let fewer = before.drop_first();
        assert forall|i: int| 0 <= i < fewer.len() implies text::white(#[trigger] fewer[i]) by {
            assert(fewer[i] == before[i + 1]);
        }
        lemma_white_prefix_of(fewer, rest);
        assert(all.drop_first() =~= fewer + rest);
        assert(all[0] == before[0]);
    } else {
        assert(all =~= rest);
    }
}

proof fn lemma_all_white(s: Seq<char>)
    requires
        forall|i: int| 0 <= i < s.len() ==> text::white(#[trigger] s[i]),
    ensures
        text::white_prefix(s) == s.len(),
    decreases s.len(),
{
    if s.len() > 0 {
        let fewer = s.drop_first();
        assert forall|i: int| 0 <= i < fewer.len() implies text::white(#[trigger] fewer[i]) by {
            assert(fewer[i] == s[i + 1]);
        }
        assert(text::white(s[0]));
        lemma_all_white(fewer);
    }
}

proof fn lemma_white_suffix(s: Seq<char>, after: Seq<char>)
    requires
        forall|i: int| 0 <= i < after.len() ==> text::white(#[trigger] after[i]),
        s.len() > 0,
        !text::white(s[s.len() - 1]),
    ensures
        text::without_trailing(s + after, |c: char| text::white(c)) == s,
    decreases after.len(),
{
    let all = s + after;
    if after.len() > 0 {
        let fewer = after.drop_last();
        assert forall|i: int| 0 <= i < fewer.len() implies text::white(#[trigger] fewer[i]) by {
            assert(fewer[i] == after[i]);
        }
        assert(text::white(after[after.len() - 1]));
        lemma_white_suffix(s, fewer);
        assert(all.drop_last() =~= s + fewer);
        assert(all.last() == after.last());
    } else {
        assert(all =~= s);
    }
}

/// Letters, digits and the other visible characters of ASCII are no white space; the space,
/// the tab and the line ends are.
pub proof fn law_visible_characters_are_not_white(c: char)
    ensures
        33 <= c as int <= 126 ==> !text::white(c),
        c == ' ' || c == '\t' || c == '\n' || c == '\r' ==> text::white(c),
{
}

/// White space is what Unicode counts as such, and nothing else.
pub proof fn law_white_space_is_unicodes(c: char)
    ensures
        text::white(c) <==> (c == '\t' || c == '\n' || c == '\u{b}' || c == '\u{c}' || c == '\r'
            || c == ' ' || c == '\u{85}' || c == '\u{a0}' || c == '\u{1680}' || ('\u{2000}' <= c
            && c <= '\u{200a}') || c == '\u{2028}' || c == '\u{2029}' || c == '\u{202f}' || c
            == '\u{205f}' || c == '\u{3000}'),
{
}

} // verus!
