//! Searchable text: words with single spaces between them, and previews.

use crate::text;
use crate::text::{characters, is_white, push_text, text_of};
use vstd::prelude::*;
use vstd::slice::slice_subrange;

verus! {

/// How many characters a text starts with before the first white space.
pub open spec fn word_len(s: Seq<char>) -> int
    decreases s.len(),
{
    if s.len() > 0 && !text::white(s[0]) {
        1 + word_len(s.drop_first())
    } else {
        0
    }
}

/// The words of a text, without the white space between them.
pub open spec fn words(s: Seq<char>) -> Seq<Seq<char>>
    decreases s.len(),
{
    if s.len() == 0 {
        Seq::empty()
    } else if text::white(s[0]) {
        words(s.drop_first())
    } else {
        proof {
            lemma_word_len(s);
        }
        seq![s.take(word_len(s))] + words(s.skip(word_len(s)))
    }
}

pub proof fn lemma_word_len(s: Seq<char>)
    ensures
        0 <= word_len(s) <= s.len(),
        s.len() > 0 && !text::white(s[0]) ==> word_len(s) > 0,
        forall|i: int| 0 <= i < word_len(s) ==> !text::white(#[trigger] s[i]),
        word_len(s) < s.len() ==> text::white(s[word_len(s)]),
    decreases s.len(),
{
    if s.len() > 0 && !text::white(s[0]) {
        let tail = s.drop_first();
        lemma_word_len(tail);
        assert forall|i: int| 0 <= i < word_len(s) implies !text::white(#[trigger] s[i]) by {
            if i > 0 {
                assert(tail[i - 1] == s[i]);
            }
        }
        if word_len(s) < s.len() {
            assert(tail[word_len(tail)] == s[word_len(s)]);
        }
    }
}

/// Words with one space between them.
pub open spec fn spaced(list: Seq<Seq<char>>) -> Seq<char>
    decreases list.len(),
{
    if list.len() == 0 {
        Seq::empty()
    } else if list.len() == 1 {
        list[0]
    } else {
        spaced(list.drop_last()).push(' ') + list.last()
    }
}

/// How many bytes a text takes up.
pub open spec fn byte_len(s: Seq<char>) -> nat {
    vstd::utf8::encode_utf8(s).len()
}

/// How many words, of which `k` are known to, fit into so many bytes.
pub open spec fn fitting(list: Seq<Seq<char>>, k: int, ceiling: usize) -> int
    decreases list.len() - k,
{
    if k < list.len() && byte_len(spaced(list.take(k + 1))) <= ceiling {
        fitting(list, k + 1, ceiling)
    } else {
        k
    }
}

/// The words of a text with one space between them, as many as fit into the ceiling.
pub open spec fn normalized(s: Seq<char>, ceiling: usize) -> Seq<char> {
    spaced(words(s).take(fitting(words(s), 0, ceiling)))
}

/// The text of a preview: at most so many characters, with dots where more follow.
pub open spec fn previewed(s: Seq<char>, limit: int) -> Seq<char> {
    if s.len() <= limit {
        s
    } else {
        s.take(limit) + "..."@
    }
}

pub proof fn lemma_encoding_joins(a: Seq<char>, b: Seq<char>)
    ensures
        vstd::utf8::encode_utf8(a + b) == vstd::utf8::encode_utf8(a) + vstd::utf8::encode_utf8(b),
    decreases a.len(),
{
    if a.len() == 0 {
        assert(a + b =~= b);
        assert(vstd::utf8::encode_utf8(a) + vstd::utf8::encode_utf8(b)
            =~= vstd::utf8::encode_utf8(b));
    } else {
        assert((a + b).drop_first() =~= a.drop_first() + b);
        lemma_encoding_joins(a.drop_first(), b);
        assert(vstd::utf8::encode_utf8(a + b) =~= vstd::utf8::encode_utf8(a)
            + vstd::utf8::encode_utf8(b));
    }
}

proof fn lemma_spaced_bytes(list: Seq<Seq<char>>, k: int)
    requires
        0 <= k < list.len(),
    ensures
        byte_len(spaced(list.take(k + 1))) == byte_len(spaced(list.take(k))) + (if k == 0 {
            0int
        } else {
            1int
        }) + byte_len(list[k]),
        k > 0 ==> spaced(list.take(k + 1)) == spaced(list.take(k)).push(' ') + list[k],
        k == 0 ==> spaced(list.take(k + 1)) == list[k],
{
    let next = list.take(k + 1);
    if k > 0 {
        assert(next.drop_last() =~= list.take(k));
        let before = spaced(list.take(k));
        lemma_encoding_joins(before.push(' '), list[k]);
        assert(before.push(' ') =~= before + seq![' ']);
        lemma_encoding_joins(before, seq![' ']);
        assert(byte_len(seq![' ']) == 1) by {
            reveal_with_fuel(vstd::utf8::encode_utf8, 2);
            assert(seq![' '].drop_first() =~= Seq::<char>::empty());
        }
    } else {
        assert(spaced(list.take(0)) =~= Seq::<char>::empty());
    }
}

fn append_word(output: &mut String, word: &[char], separate: bool)
    ensures
        final(output)@ == (if separate {
            old(output)@.push(' ')
        } else {
            old(output)@
        }) + word@,
{
    if separate {
        output.push(' ');
    }
    let word = text_of(word);
    push_text(output, word.as_str());
}

/// The words of a text with one space between them, as many as fit into the ceiling.
pub fn normalize_whitespace(input: &str, max_output_bytes: Option<usize>) -> (output: String)
    ensures
        output@ == normalized(
            input@,
            match max_output_bytes {
                Some(ceiling) => ceiling,
                None => usize::MAX,
            },
        ),
{
    let ceiling: usize = match max_output_bytes {
        Some(ceiling) => ceiling,
        None => usize::MAX,
    };
    let input = characters(input);
    let ghost all = words(input@);
    let mut output = String::new();
    let mut used: usize = 0;
    let mut empty: bool = true;
    let mut i: usize = 0;
    let ghost mut k: int = 0;
    proof {
        assert(input@.skip(0) =~= input@);
        assert(all.skip(0) =~= all);
        assert(all.take(0) =~= Seq::<Seq<char>>::empty());
        assert(output@ =~= Seq::<char>::empty());
    }
    while i < input.len()
        invariant_except_break
            all.skip(k) == words(input@.skip(i as int)),
        invariant
            i <= input@.len(),
            all == words(input@),
            0 <= k <= all.len(),
            output@ == spaced(all.take(k)),
            used == byte_len(output@),
            empty == (k == 0),
            fitting(all, 0, ceiling) == fitting(all, k, ceiling),
        ensures
            output@ == spaced(all.take(fitting(all, 0, ceiling))),
        decreases input.len() - i,
    {
        let ghost rest = input@.skip(i as int);
        assert(rest[0] == input@[i as int]);
        if is_white(input[i]) {
            assert(rest.drop_first() =~= input@.skip(i + 1));
            i = i + 1;
            continue ;
        }
        let start: usize = i;
        proof {
            lemma_word_len(rest);
        }
        while i < input.len() && !is_white(input[i])
            invariant
                start <= i <= input@.len(),
                rest == input@.skip(start as int),
                i - start <= word_len(rest) <= rest.len(),
                word_len(rest) < rest.len() ==> text::white(rest[word_len(rest)]),
                forall|j: int| 0 <= j < word_len(rest) ==> !text::white(#[trigger] rest[j]),
            decreases input.len() - i,
        {
            assert(rest[i - start] == input@[i as int]);
            i = i + 1;
        }
        let word = slice_subrange(input.as_slice(), start, i);
        proof {
            if i - start < word_len(rest) {
                assert(rest[i - start] == input@[i as int]);
            }
            assert(word@ =~= rest.take(word_len(rest)));
            assert(rest.skip(word_len(rest)) =~= input@.skip(i as int));
            assert(words(rest).len() > 0);
            assert(all.skip(k)[0] == word@);
            assert(k < all.len());
            assert(all[k] == word@);
            assert(all.skip(k).drop_first() =~= words(input@.skip(i as int)));
            assert(all.skip(k + 1) =~= all.skip(k).drop_first());
            lemma_spaced_bytes(all, k);
        }
        let text = text_of(word);
        let bytes: usize = text.as_str().as_bytes().len();
        let separator: usize = if empty {
            0
        } else {
            1
        };
        if used > ceiling || separator > ceiling - used || bytes > ceiling - used - separator {
            break ;
        }
        append_word(&mut output, word, !empty);
        used = used + separator + bytes;
        empty = false;
        proof {
            if k == 0 {
                assert(all.take(0) =~= Seq::<Seq<char>>::empty());
                assert(output@ =~= word@);
            }
            k = k + 1;
        }
    }
    output
}

/// The start of a text, with dots where more follows.
pub fn preview_of(s: &str, limit: usize) -> (preview: String)
    ensures
        preview@ == previewed(s@, limit as int),
{
    let all = characters(s);
    if all.len() <= limit {
        return text_of(all.as_slice());
    }
    let mut preview = text_of(slice_subrange(all.as_slice(), 0, limit));
    push_text(&mut preview, "...");
    assert(preview@ =~= s@.take(limit as int) + "..."@);
    preview
}

proof fn lemma_fitting(list: Seq<Seq<char>>, k: int, ceiling: usize)
    requires
        0 <= k <= list.len(),
        byte_len(spaced(list.take(k))) <= ceiling,
    ensures
        k <= fitting(list, k, ceiling) <= list.len(),
        byte_len(spaced(list.take(fitting(list, k, ceiling)))) <= ceiling,
    decreases list.len() - k,
{
    if k < list.len() && byte_len(spaced(list.take(k + 1))) <= ceiling {
        lemma_fitting(list, k + 1, ceiling);
    }
}

/// Normalised text never takes up more than the ceiling.
pub proof fn law_normalized_text_is_bounded(s: Seq<char>, ceiling: usize)
    ensures
        byte_len(normalized(s, ceiling)) <= ceiling,
{
    assert(spaced(words(s).take(0)) =~= Seq::<char>::empty());
    lemma_fitting(words(s), 0, ceiling);
}

/// Words as a text has them: not empty, and without white space.
pub open spec fn plain(list: Seq<Seq<char>>) -> bool {
    forall|i: int|
        0 <= i < list.len() ==> (#[trigger] list[i]).len() > 0 && forall|j: int|
            0 <= j < list[i].len() ==> !text::white(#[trigger] list[i][j])
}

proof fn lemma_words_are_plain(s: Seq<char>)
    ensures
        plain(words(s)),
    decreases s.len(),
{
    if s.len() > 0 {
        if text::white(s[0]) {
            lemma_words_are_plain(s.drop_first());
        } else {
            lemma_word_len(s);
            let n = word_len(s);
            lemma_words_are_plain(s.skip(n));
            let all = words(s);
            let later = words(s.skip(n));
            assert forall|i: int| 0 <= i < all.len() implies (#[trigger] all[i]).len() > 0
                && forall|j: int| 0 <= j < all[i].len() ==> !text::white(#[trigger] all[i][j]) by {
                if i == 0 {
                    assert(all[0] == s.take(n));
                } else {
                    assert(all[i] == later[i - 1]);
                }
            }
        }
    }
}

proof fn lemma_words_of_word_and_rest(w: Seq<char>, tail: Seq<char>)
    requires
        w.len() > 0,
        forall|j: int| 0 <= j < w.len() ==> !text::white(#[trigger] w[j]),
    ensures
        words(w) == seq![w],
        words(w + seq![' '] + tail) == seq![w] + words(tail),
{
    lemma_word_len_of(w, Seq::empty());
    assert(w + Seq::<char>::empty() =~= w);
    assert(w.take(w.len() as int) =~= w);
    assert(w.skip(w.len() as int) =~= Seq::<char>::empty());
    assert(words(Seq::<char>::empty()) =~= Seq::<Seq<char>>::empty());
    assert(words(w) =~= seq![w]);
    let all = w + seq![' '] + tail;
    let gap = seq![' '] + tail;
    assert(all =~= w + gap);
    assert(text::white(gap[0]));
    lemma_word_len_of(w, gap);
    assert(all.take(w.len() as int) =~= w);
    assert(all.skip(w.len() as int) =~= gap);
    assert(gap.drop_first() =~= tail);
    assert(words(gap) == words(tail));
    assert(all[0] == w[0]);
    assert(words(all) == seq![all.take(word_len(all))] + words(all.skip(word_len(all))));
}

proof fn lemma_word_len_of(w: Seq<char>, after: Seq<char>)
    requires
        forall|j: int| 0 <= j < w.len() ==> !text::white(#[trigger] w[j]),
        after.len() == 0 || text::white(after[0]),
    ensures
        word_len(w + after) == w.len(),
    decreases w.len(),
{
    if w.len() > 0 {
        let tail = w.drop_first();
        assert((w + after).drop_first() =~= tail + after);
        assert((w + after)[0] == w[0]);
        assert forall|j: int| 0 <= j < tail.len() implies !text::white(#[trigger] tail[j]) by {
            assert(tail[j] == w[j + 1]);
        }
        lemma_word_len_of(tail, after);
    } else {
        assert(w + after =~= after);
    }
}

proof fn lemma_spaced_from_front(list: Seq<Seq<char>>)
    requires
        list.len() > 1,
    ensures
        spaced(list) == list[0] + seq![' '] + spaced(list.drop_first()),
    decreases list.len(),
{
    let tail = list.drop_first();
    if list.len() == 2 {
        assert(list.drop_last().len() == 1);
        assert(spaced(list.drop_last()) == list[0]);
        assert(spaced(tail) == list[1]);
        assert(spaced(list) =~= list[0] + seq![' '] + spaced(tail));
    } else {
        lemma_spaced_from_front(list.drop_last());
        assert(list.drop_last().drop_first() =~= tail.drop_last());
        assert(list.drop_last()[0] == list[0]);
        assert(spaced(list) =~= list[0] + seq![' '] + spaced(tail));
    }
}

proof fn lemma_words_of_spaced(list: Seq<Seq<char>>)
    requires
        plain(list),
    ensures
        words(spaced(list)) == list,
    decreases list.len(),
{
    if list.len() == 0 {
        assert(words(spaced(list)) =~= list);
    } else if list.len() == 1 {
        lemma_words_of_word_and_rest(list[0], Seq::empty());
        assert(seq![list[0]] =~= list);
    } else {
        let tail = list.drop_first();
        assert(plain(tail)) by {
            assert forall|i: int| 0 <= i < tail.len() implies (#[trigger] tail[i]).len() > 0
                && forall|j: int| 0 <= j < tail[i].len() ==> !text::white(#[trigger] tail[i][j]) by {
                assert(tail[i] == list[i + 1]);
            }
        }
        lemma_words_of_spaced(tail);
        lemma_spaced_from_front(list);
        lemma_words_of_word_and_rest(list[0], spaced(tail));
        assert(seq![list[0]] + tail =~= list);
    }
}

proof fn lemma_fitting_prefix(list: Seq<Seq<char>>, k: int, n: int, ceiling: usize)
    requires
        0 <= k <= n <= list.len(),
        n == fitting(list, k, ceiling),
    ensures
        fitting(list.take(n), k, ceiling) == n,
    decreases n - k,
{
    if k < n {
        assert(list.take(n).take(k + 1) =~= list.take(k + 1));
        lemma_fitting_prefix(list, k + 1, n, ceiling);
    }
}

/// Normalising a text that is already normalised changes nothing.
pub proof fn law_normalizing_twice_changes_nothing(s: Seq<char>, ceiling: usize)
    ensures
        normalized(normalized(s, ceiling), ceiling) == normalized(s, ceiling),
{
    let all = words(s);
    assert(spaced(all.take(0)) =~= Seq::<char>::empty());
    lemma_fitting(all, 0, ceiling);
    let n = fitting(all, 0, ceiling);
    let kept = all.take(n);
    lemma_words_are_plain(s);
    assert(plain(kept)) by {
        assert forall|i: int| 0 <= i < kept.len() implies (#[trigger] kept[i]).len() > 0
            && forall|j: int| 0 <= j < kept[i].len() ==> !text::white(#[trigger] kept[i][j]) by {
            assert(kept[i] == all[i]);
        }
    }
    lemma_words_of_spaced(kept);
    lemma_fitting_prefix(all, 0, n, ceiling);
    assert(kept.take(n) =~= kept);
}

/// Normalised text has its words in the order of the original, none changed.
pub proof fn law_normalized_words_are_a_prefix(s: Seq<char>, ceiling: usize)
    ensures
        words(normalized(s, ceiling)) == words(s).take(fitting(words(s), 0, ceiling)),
{
    let all = words(s);
    assert(spaced(all.take(0)) =~= Seq::<char>::empty());
    lemma_fitting(all, 0, ceiling);
    let n = fitting(all, 0, ceiling);
    let kept = all.take(n);
    lemma_words_are_plain(s);
    assert(plain(kept)) by {
        assert forall|i: int| 0 <= i < kept.len() implies (#[trigger] kept[i]).len() > 0
            && forall|j: int| 0 <= j < kept[i].len() ==> !text::white(#[trigger] kept[i][j]) by {
            assert(kept[i] == all[i]);
        }
    }
    lemma_words_of_spaced(kept);
}

} // verus!
