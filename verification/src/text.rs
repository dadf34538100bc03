//! ASCII text: letters, words without regard to case, and decimal numbers.

use vstd::prelude::*;

verus! {

/// Of std's `String::push`: the character is appended to the text.
pub assume_specification [std::string::String::push] (s: &mut std::string::String, c: char)
    ensures
        final(s)@ == old(s)@.push(c),
;

pub const LF: u8 = 10;

pub const CR: u8 = 13;

pub const SPACE: u8 = 32;

pub const QUOTE: u8 = 34;

pub const STAR: u8 = 42;

pub const PLUS: u8 = 43;

pub const DASH: u8 = 45;

pub const BACKSLASH: u8 = 92;

pub const LEFT_BRACE: u8 = 123;

pub const RIGHT_BRACE: u8 = 125;

pub const TILDE: u8 = 126;

pub open spec fn digit(b: u8) -> bool {
    48 <= b <= 57
}

pub open spec fn letter(b: u8) -> bool {
    65 <= b <= 90 || 97 <= b <= 122
}

/// A character code with capital ASCII letters made small.
pub open spec fn small(code: int) -> int {
    if 65 <= code <= 90 {
        code + 32
    } else {
        code
    }
}

/// Bytes that spell a word, ASCII case aside.
pub open spec fn spells(bytes: Seq<u8>, word: Seq<char>) -> bool {
    &&& bytes.len() == word.len()
    &&& forall|i: int|
        0 <= i < bytes.len() ==> small(#[trigger] bytes[i] as int) == small(word[i] as int)
}

/// Two texts that are one word, ASCII case aside.
pub open spec fn same_word(a: Seq<char>, b: Seq<char>) -> bool {
    &&& a.len() == b.len()
    &&& forall|i: int|
        0 <= i < a.len() ==> small(#[trigger] a[i] as int) == small(b[i] as int)
}

pub open spec fn all_digits(bytes: Seq<u8>) -> bool {
    forall|i: int| 0 <= i < bytes.len() ==> digit(#[trigger] bytes[i])
}

/// The number that decimal digits denote.
pub open spec fn decimal(digits: Seq<u8>) -> nat
    decreases digits.len(),
{
    if digits.len() == 0 {
        0
    } else {
        decimal(digits.drop_last()) * 10 + (digits.last() - 48) as nat
    }
}

/// A word as bytes, one per character.
pub open spec fn word_bytes(word: Seq<char>) -> Seq<u8> {
    Seq::new(word.len(), |i: int| word[i] as u8)
}

pub open spec fn ascii(word: Seq<char>) -> bool {
    vstd::utf8::is_ascii_chars(word)
}

/// The decimal numeral of a number, without leading zeros.
pub open spec fn numeral(n: nat) -> Seq<char>
    decreases n,
{
    if n < 10 {
        seq![(48 + n) as char]
    } else {
        numeral(n / 10).push((48 + n % 10) as char)
    }
}

pub fn is_digit(b: u8) -> (result: bool)
    ensures
        result == digit(b),
{
    48 <= b && b <= 57
}

pub fn is_letter(b: u8) -> (result: bool)
    ensures
        result == letter(b),
{
    (65 <= b && b <= 90) || (97 <= b && b <= 122)
}

fn code_of(c: char) -> (code: u32)
    ensures
        code == c as int,
{
    c as u32
}

fn make_small(code: u32) -> (result: u32)
    ensures
        result == small(code as int),
{
    if 65 <= code && code <= 90 {
        code + 32
    } else {
        code
    }
}

/// The characters of a text, in order.
pub fn characters(text: &str) -> (result: Vec<char>)
    ensures
        result@ == text@,
{
    let mut result: Vec<char> = Vec::new();
    for c in it: text.chars()
        invariant
            result@ == it.seq().take(it.index() as int),
            it.seq() == text@,
    {
        result.push(c);
        assert(result@ == it.seq().take(it.index() as int + 1));
    }
    assert(result@ == text@);
    result
}

/// Whether bytes spell a word, ASCII case aside.
pub fn spells_word(bytes: &[u8], word: &str) -> (result: bool)
    ensures
        result == spells(bytes@, word@),
{
    let expected = characters(word);
    if bytes.len() != expected.len() {
        return false;
    }
    let mut i: usize = 0;
    while i < bytes.len()
        invariant
            bytes.len() == expected.len(),
            expected@ == word@,
            i <= bytes.len(),
            forall|j: int|
                0 <= j < i ==> small(#[trigger] bytes@[j] as int) == small(word@[j] as int),
        decreases bytes.len() - i,
    {
        if make_small(bytes[i] as u32) != make_small(code_of(expected[i])) {
            assert(small(bytes@[i as int] as int) != small(word@[i as int] as int));
            return false;
        }
        i = i + 1;
    }
    true
}

/// Whether two texts are one word, ASCII case aside.
pub fn is_same_word(a: &str, b: &str) -> (result: bool)
    ensures
        result == same_word(a@, b@),
{
    let left = characters(a);
    let right = characters(b);
    if left.len() != right.len() {
        return false;
    }
    let mut i: usize = 0;
    while i < left.len()
        invariant
            left.len() == right.len(),
            left@ == a@,
            right@ == b@,
            i <= left.len(),
            forall|j: int|
                0 <= j < i ==> small(#[trigger] a@[j] as int) == small(b@[j] as int),
        decreases left.len() - i,
    {
        if make_small(code_of(left[i])) != make_small(code_of(right[i])) {
            assert(small(a@[i as int] as int) != small(b@[i as int] as int));
            return false;
        }
        i = i + 1;
    }
    true
}

pub fn are_digits(bytes: &[u8]) -> (result: bool)
    ensures
        result == all_digits(bytes@),
{
    let mut i: usize = 0;
    while i < bytes.len()
        invariant
            i <= bytes.len(),
            forall|j: int| 0 <= j < i ==> digit(#[trigger] bytes@[j]),
        decreases bytes.len() - i,
    {
        if !is_digit(bytes[i]) {
            assert(!digit(bytes@[i as int]));
            return false;
        }
        i = i + 1;
    }
    true
}

proof fn lemma_decimal_grows(digits: Seq<u8>, k: int)
    requires
        all_digits(digits),
        0 <= k <= digits.len(),
    ensures
        decimal(digits.take(k)) <= decimal(digits),
    decreases digits.len() - k,
{
    if k < digits.len() {
        lemma_decimal_grows(digits, k + 1);
        assert(digits.take(k + 1).drop_last() =~= digits.take(k));
        assert(digit(digits[k]));
    } else {
        assert(digits.take(k) =~= digits);
    }
}

/// The number that decimal digits denote, or `None` where it is above `max`.
pub fn parse_decimal(digits: &[u8], max: u64) -> (result: Option<u64>)
    requires
        all_digits(digits@),
    ensures
        result is Some <==> decimal(digits@) <= max,
        result matches Some(n) ==> n == decimal(digits@),
{
    let mut value: u64 = 0;
    let mut i: usize = 0;
    while i < digits.len()
        invariant
            all_digits(digits@),
            i <= digits.len(),
            value == decimal(digits@.take(i as int)),
            value <= max,
        decreases digits.len() - i,
    {
        let d: u64 = (digits[i] - 48) as u64;
        proof {
            assert(digits@.take(i + 1).drop_last() =~= digits@.take(i as int));
            assert(decimal(digits@.take(i + 1)) == value * 10 + d);
            lemma_decimal_grows(digits@, i + 1);
        }
        if d > max || value > (max - d) / 10 {
            return None;
        }
        value = value * 10 + d;
        i = i + 1;
    }
    assert(digits@.take(i as int) =~= digits@);
    Some(value)
}

/// Appends a word to bytes, one byte per character.
pub fn push_word(out: &mut Vec<u8>, word: &str)
    requires
        ascii(word@),
    ensures
        final(out)@ == old(out)@ + word_bytes(word@),
{
    let word = characters(word);
    let mut i: usize = 0;
    while i < word.len()
        invariant
            ascii(word@),
            i <= word.len(),
            out@ == old(out)@ + word_bytes(word@).take(i as int),
        decreases word.len() - i,
    {
        out.push(word[i] as u8);
        i = i + 1;
        assert(word_bytes(word@).take(i as int) =~= word_bytes(word@).take(i - 1).push(
            word@[i - 1] as u8,
        ));
    }
    assert(word_bytes(word@).take(i as int) =~= word_bytes(word@));
}

/// A numeral holds digits only.
pub proof fn lemma_numeral_is_digits(n: nat)
    ensures
        numeral(n).len() > 0,
        forall|i: int| 0 <= i < numeral(n).len() ==> 48 <= (#[trigger] numeral(n)[i]) as int <= 57,
    decreases n,
{
    if n >= 10 {
        lemma_numeral_is_digits(n / 10);
    }
}

/// The decimal digit of a number below ten.
fn digit_char(d: u8) -> (c: char)
    requires
        d < 10,
    ensures
        c == (48 + d) as char,
{
    (48 + d) as char
}

/// Appends the decimal numeral of a number.
pub fn push_numeral(out: &mut String, n: u64)
    ensures
        final(out)@ == old(out)@ + numeral(n as nat),
    decreases n,
{
    let d: u8 = (n % 10) as u8;
    if n >= 10 {
        push_numeral(out, n / 10);
    }
    let ghost before = out@;
    out.push(digit_char(d));
    assert(out@ =~= old(out)@ + numeral(n as nat));
}

/// Appends a text.
pub fn push_text(out: &mut String, text: &str)
    ensures
        final(out)@ == old(out)@ + text@,
{
    let added = characters(text);
    let mut i: usize = 0;
    while i < added.len()
        invariant
            i <= added.len(),
            added@ == text@,
            out@ == old(out)@ + added@.take(i as int),
        decreases added.len() - i,
    {
        out.push(added[i]);
        i = i + 1;
        assert(added@.take(i as int) =~= added@.take(i - 1).push(added@[i - 1]));
    }
    assert(added@.take(i as int) =~= added@);
}

/// The text of some characters.
pub fn text_of(characters: &[char]) -> (text: String)
    ensures
        text@ == characters@,
{
    let mut text = String::new();
    let mut i: usize = 0;
    while i < characters.len()
        invariant
            i <= characters.len(),
            text@ == characters@.take(i as int),
        decreases characters.len() - i,
    {
        text.push(characters[i]);
        i = i + 1;
        assert(characters@.take(i as int) =~= characters@.take(i - 1).push(characters@[i - 1]));
    }
    assert(characters@.take(i as int) =~= characters@);
    text
}

/// A character with the Unicode property `White_Space`.
pub open spec fn white(c: char) -> bool {
    let code = c as int;
    9 <= code <= 13 || code == 32 || code == 133 || code == 160 || code == 5760 || 8192 <= code
        <= 8202 || code == 8232 || code == 8233 || code == 8239 || code == 8287 || code == 12288
}

/// Where a text without its leading white space starts.
pub open spec fn white_prefix(s: Seq<char>) -> int
    decreases s.len(),
{
    if s.len() > 0 && white(s[0]) {
        1 + white_prefix(s.drop_first())
    } else {
        0
    }
}

/// A text without the trailing characters that satisfy `dropped`.
pub open spec fn without_trailing(s: Seq<char>, dropped: spec_fn(char) -> bool) -> Seq<char>
    decreases s.len(),
{
    if s.len() > 0 && dropped(s.last()) {
        without_trailing(s.drop_last(), dropped)
    } else {
        s
    }
}

/// A text without white space at either end.
pub open spec fn trimmed(s: Seq<char>) -> Seq<char> {
    without_trailing(s.skip(white_prefix(s)), |c: char| white(c))
}

/// A text with capital ASCII letters made small.
pub open spec fn lowercase(s: Seq<char>) -> Seq<char> {
    s.map_values(|c: char| small(c as int) as char)
}

pub fn is_white(c: char) -> (result: bool)
    ensures
        result == white(c),
{
    let code = code_of(c);
    (9 <= code && code <= 13) || code == 32 || code == 133 || code == 160 || code == 5760 || (8192
        <= code && code <= 8202) || code == 8232 || code == 8233 || code == 8239 || code == 8287
        || code == 12288
}

proof fn lemma_white_prefix(s: Seq<char>, k: int)
    requires
        0 <= k <= s.len(),
        forall|i: int| 0 <= i < k ==> white(#[trigger] s[i]),
    ensures
        white_prefix(s) == k + white_prefix(s.skip(k)),
    decreases k,
{
    if k > 0 {
        let tail = s.drop_first();
        assert forall|i: int| 0 <= i < k - 1 implies white(#[trigger] tail[i]) by {
            assert(tail[i] == s[i + 1]);
        }
        lemma_white_prefix(tail, k - 1);
        assert(tail.skip(k - 1) =~= s.skip(k));
        assert(white(s[0]));
    } else {
        assert(s.skip(0) =~= s);
    }
}

proof fn lemma_without_trailing(s: Seq<char>, dropped: spec_fn(char) -> bool, k: int)
    requires
        0 <= k <= s.len(),
        forall|i: int| k <= i < s.len() ==> dropped(#[trigger] s[i]),
        k == 0 || !dropped(s[k - 1]),
    ensures
        without_trailing(s, dropped) == s.take(k),
    decreases s.len(),
{
    if k < s.len() {
        assert(dropped(s[s.len() - 1]));
        lemma_without_trailing(s.drop_last(), dropped, k);
        assert(s.drop_last().take(k) =~= s.take(k));
    } else {
        assert(s.take(k) =~= s);
    }
}

/// The characters of a text without white space at either end.
pub fn trim(s: &[char]) -> (result: &[char])
    ensures
        result@ == trimmed(s@),
{
    let mut start: usize = 0;
    while start < s.len() && is_white(s[start])
        invariant
            start <= s@.len(),
            forall|i: int| 0 <= i < start ==> white(#[trigger] s@[i]),
        decreases s.len() - start,
    {
        start = start + 1;
    }
    proof {
        lemma_white_prefix(s@, start as int);
        assert(white_prefix(s@.skip(start as int)) == 0) by {
            if start < s@.len() {
                assert(s@.skip(start as int)[0] == s@[start as int]);
            }
        }
    }
    let mut end: usize = s.len();
    while end > start && is_white(s[end - 1])
        invariant
            start <= end <= s@.len(),
            forall|i: int| end <= i < s@.len() ==> white(#[trigger] s@[i]),
        decreases end,
    {
        end = end - 1;
    }
    proof {
        let tail = s@.skip(start as int);
        let k = end - start;
        assert forall|i: int| k <= i < tail.len() implies white(#[trigger] tail[i]) by {
            assert(tail[i] == s@[start + i]);
        }
        assert(k > 0 ==> tail[k - 1] == s@[end - 1]);
        lemma_without_trailing(tail, |c: char| white(c), k);
        assert(tail.take(k) =~= s@.subrange(start as int, end as int));
    }
    vstd::slice::slice_subrange(s, start, end)
}

/// The characters of a text without trailing dots.
pub fn without_trailing_dots(s: &[char]) -> (result: &[char])
    ensures
        result@ == without_trailing(s@, |c: char| c == '.'),
{
    let mut end: usize = s.len();
    while end > 0 && s[end - 1] == '.'
        invariant
            end <= s@.len(),
            forall|i: int| end <= i < s@.len() ==> (#[trigger] s@[i]) == '.',
        decreases end,
    {
        end = end - 1;
    }
    proof {
        lemma_without_trailing(s@, |c: char| c == '.', end as int);
        assert(s@.take(end as int) =~= s@.subrange(0, end as int));
    }
    vstd::slice::slice_subrange(s, 0, end)
}

fn small_char(c: char) -> (result: char)
    ensures
        result == small(c as int) as char,
{
    let code = code_of(c);
    if 65 <= code && code <= 90 {
        ((code + 32) as u8) as char
    } else {
        c
    }
}

/// A text with capital ASCII letters made small.
pub fn to_lowercase(s: &[char]) -> (result: String)
    ensures
        result@ == lowercase(s@),
{
    let mut result = String::new();
    let mut i: usize = 0;
    while i < s.len()
        invariant
            i <= s@.len(),
            result@ == lowercase(s@.take(i as int)),
        decreases s.len() - i,
    {
        result.push(small_char(s[i]));
        i = i + 1;
        assert(result@ =~= lowercase(s@.take(i as int)));
    }
    assert(s@.take(i as int) =~= s@);
    result
}

/// Digits in the sense of `0` to `9` only.
pub open spec fn all_digit_chars(s: Seq<char>) -> bool {
    forall|i: int| 0 <= i < s.len() ==> 48 <= (#[trigger] s[i]) as int <= 57
}

/// The number that a text denotes in decimal: digits, after one optional `+`,
/// of at most the greatest `u32`.
pub open spec fn parsed_u32(s: Seq<char>) -> Option<u32> {
    let digits = if s.len() > 0 && s[0] == '+' {
        s.skip(1)
    } else {
        s
    };
    if digits.len() == 0 || !all_digit_chars(digits) || decimal(word_bytes(digits)) > u32::MAX {
        None
    } else {
        Some(decimal(word_bytes(digits)) as u32)
    }
}

/// Reads a decimal number.
pub fn parse_u32(s: &[char]) -> (result: Option<u32>)
    ensures
        result == parsed_u32(s@),
{
    let start: usize = if s.len() > 0 && s[0] == '+' {
        1
    } else {
        0
    };
    let ghost digits = if s@.len() > 0 && s@[0] == '+' {
        s@.skip(1)
    } else {
        s@
    };
    assert(digits =~= s@.skip(start as int));
    if s.len() == start {
        return None;
    }
    let mut bytes: Vec<u8> = Vec::new();
    let mut i: usize = start;
    while i < s.len()
        invariant
            start <= i <= s@.len(),
            digits == s@.skip(start as int),
            bytes@ == word_bytes(digits.take(i - start)),
            all_digit_chars(digits.take(i - start)),
            all_digits(bytes@),
            digits == (if s@.len() > 0 && s@[0] == '+' {
                s@.skip(1)
            } else {
                s@
            }),
        decreases s.len() - i,
    {
        let c = s[i];
        assert(c == digits[i - start]);
        if c < '0' || c > '9' {
            assert(!all_digit_chars(digits));
            return None;
        }
        bytes.push(c as u8);
        i = i + 1;
        assert(bytes@ =~= word_bytes(digits.take(i - start)));
    }
    assert(digits.take(i - start) =~= digits);
    match parse_decimal(bytes.as_slice(), u32::MAX as u64) {
        None => None,
        Some(number) => Some(number as u32),
    }
}

} // verus!
