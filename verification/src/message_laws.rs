//! What holds of the parts and the envelope of every message.

use crate::blob;
use crate::detach;
use crate::detach::{Candidate, Extracted, Info, Keyed, KeyedPart, PreparedMessage};
use crate::failure;
use crate::text;
use vstd::prelude::*;

verus! {

/// A part whose offsets lie in the message, the first before the second.
pub open spec fn lies_in(part: Keyed, len: nat) -> bool {
    0 <= part.part.start < part.part.end <= len
}

/// The blob of every part that lies in the message holds exactly the bytes that the part
/// spans there, whether the message is kept exactly or not, and is stored under the part's
/// key. A part with no bytes in the message is stored with its decoded contents where the
/// message is kept exactly, and with nothing otherwise.
pub proof fn law_parts_are_stored_as_they_lie(
    body: Seq<u8>,
    parts: Seq<Keyed>,
    exact: bool,
    i: int,
)
    requires
        0 <= i < parts.len(),
    ensures
        detach::stored_parts(body, parts, exact).len() == parts.len(),
        detach::stored_parts(body, parts, exact)[i].0 == parts[i].key,
        lies_in(parts[i], body.len()) ==> detach::stored_parts(body, parts, exact)[i].1
            == body.subrange(parts[i].part.start, parts[i].part.end),
        0 <= parts[i].part.start < body.len() < parts[i].part.end ==> detach::stored_parts(
            body,
            parts,
            exact,
        )[i].1 == body.skip(parts[i].part.start),
        parts[i].part.start >= parts[i].part.end || parts[i].part.start >= body.len()
            ==> detach::stored_parts(body, parts, exact)[i].1 == if exact {
            parts[i].part.contents
        } else {
            Seq::empty()
        },
{
}

/// For a message kept exactly, the key of a blob is made from the hash of the very bytes
/// that are stored under it: where the part lies in the message these are the bytes that it
/// spans there, and where it has none there its decoded contents.
pub proof fn law_exact_blobs_are_keyed_by_their_bytes<
    H: Fn(&[u8]) -> String,
    K: Fn(&str) -> String,
>(
    body: Seq<u8>,
    parts: Seq<KeyedPart>,
    compute_content_hash: H,
    blob_key: K,
    i: int,
)
    requires
        0 <= i < parts.len(),
        detach::keyed_by(
            body,
            parts[i].part@,
            true,
            compute_content_hash,
            blob_key,
            parts[i].key,
        ),
        lies_in(parts[i]@, body.len()) || parts[i].part@.start >= parts[i].part@.end
            || parts[i].part@.start >= body.len(),
    ensures
        ({
            let (key, stored) = detach::stored_parts(body, detach::keyed(parts), true)[i];
            &&& key == parts[i].key@
            &&& lies_in(parts[i]@, body.len()) ==> stored == body.subrange(
                parts[i].part@.start,
                parts[i].part@.end,
            )
            &&& exists|bytes: &[u8], hash: String, shown: &str|
                {
                    &&& bytes@ == stored
                    &&& #[trigger] compute_content_hash.ensures((bytes,), hash)
                    &&& shown@ == hash@
                    &&& #[trigger] blob_key.ensures((shown,), parts[i].key)
                }
        }),
{
    let part = parts[i].part@;
    let (bytes, hash, shown) = choose|bytes: &[u8], hash: String, shown: &str|
        {
            &&& bytes@ == detach::hashed(body, part.start, part.end, part.contents)
            &&& #[trigger] compute_content_hash.ensures((bytes,), hash)
            &&& shown@ == hash@
            &&& #[trigger] blob_key.ensures((shown,), parts[i].key)
        };
    assert(detach::keyed(parts)[i] == parts[i]@);
    assert(bytes@ == detach::stored_parts(body, detach::keyed(parts), true)[i].1);
    assert(compute_content_hash.ensures((bytes,), hash));
    assert(blob_key.ensures((shown,), parts[i].key));
}

/// The blobs of a prepared message: those of its parts in their order, each with the bytes
/// that the part spans in the message, and the message itself, kept exactly under the key
/// for exact messages where there is a budget.
pub proof fn law_prepared_blobs_are_the_parts(
    body: Seq<u8>,
    list: Seq<Keyed>,
    content_hash: Seq<char>,
    exact_raw_key: Seq<char>,
    budget: Option<usize>,
    prepared: PreparedMessage,
    i: int,
)
    requires
        detach::prepared_from(body, list, content_hash, exact_raw_key, budget, Ok(prepared)),
        0 <= i < list.len(),
    ensures
        ({
            let blobs = prepared.detached.attachments@;
            &&& blobs.len() == list.len()
            &&& blobs[i].0@ == list[i].key
            &&& lies_in(list[i], body.len()) ==> blob::contents(blobs[i].1) == body.subrange(
                list[i].part.start,
                list[i].part.end,
            )
            &&& budget is Some ==> blob::contents(prepared.detached.email.1) == body
                && prepared.detached.email.0@ == exact_raw_key
            &&& budget is None ==> prepared.detached.email.0@ == content_hash
        }),
{
    let blobs = prepared.detached.attachments@;
    law_parts_are_stored_as_they_lie(body, list, budget is Some, i);
    assert(detach::blobs_of(blobs).len() == list.len());
    assert(detach::blobs_of(blobs)[i] == (blobs[i].0@, blob::contents(blobs[i].1)));
}

/// What is remembered of a part: its name, the size of its decoded contents, its media
/// type, its content ID and its key. It is inline where its disposition says so, or where
/// it has none but a content ID; no text is known of it yet.
pub proof fn law_parts_are_described_as_they_are(parts: Seq<Keyed>, i: int)
    requires
        0 <= i < parts.len(),
    ensures
        ({
            let info = detach::part_infos(parts)[i];
            let part = parts[i].part;
            &&& detach::part_infos(parts).len() == parts.len()
            &&& info.filename == part.name
            &&& info.size == part.contents.len()
            &&& info.content_id == part.content_id
            &&& info.content_hash == parts[i].key
            &&& info.is_message == part.is_message
            &&& info.inline <==> (part.inline == Some(true) || (part.inline is None
                && part.content_id is Some))
            &&& part.media_type is None ==> info.file_type == "application/octet-stream"@
            &&& part.media_type is Some && part.media_subtype is Some ==> info.file_type
                == part.media_type->0 + "/"@ + part.media_subtype->0
            &&& info.extracted_text is None && info.extracted_page_count is None
                && !info.extracted_is_ocr
        }),
{
}

/// A part that text may be extracted from where there is no budget: one that is eligible,
/// and that no message text shows in its place.
pub open spec fn worth_reading(part: Keyed) -> bool {
    part.eligible && (part.part.content_id is None || part.part.inline == Some(false))
}

/// Without a budget, text is extracted from exactly the eligible attachments that are not
/// shown inline under a content ID, in their order, and from their decoded contents.
pub proof fn law_eligible_attachments_are_read(parts: Seq<Keyed>, used: int)
    ensures
        ({
            let chosen = parts.filter(|part: Keyed| worth_reading(part));
            let list = detach::candidates(parts, None, used);
            &&& list.len() == chosen.len()
            &&& forall|k: int|
                0 <= k < list.len() ==> {
                    &&& (#[trigger] list[k]).content_hash == chosen[k].key
                    &&& list[k].bytes == chosen[k].part.contents
                    &&& list[k].ext == chosen[k].ext
                    &&& list[k].file_type == detach::file_type(chosen[k].part)
                }
        }),
    decreases parts.len(),
{
    let keep = |part: Keyed| worth_reading(part);
    if parts.len() > 0 {
        let next = if detach::extractable(parts[0], None, used) {
            used + parts[0].part.contents.len()
        } else {
            used
        };
        law_eligible_attachments_are_read(parts.drop_first(), next);
        lemma_filter_from_front(parts, keep);
        let rest = detach::candidates(parts.drop_first(), None, next);
        let chosen = parts.drop_first().filter(keep);
        if worth_reading(parts[0]) {
            assert(detach::extractable(parts[0], None, used));
            let list = detach::candidates(parts, None, used);
            assert(list =~= seq![detach::candidate_of(parts[0])] + rest);
            assert forall|k: int| 0 <= k < list.len() implies {
                &&& (#[trigger] list[k]).content_hash == parts.filter(keep)[k].key
                &&& list[k].bytes == parts.filter(keep)[k].part.contents
                &&& list[k].ext == parts.filter(keep)[k].ext
                &&& list[k].file_type == detach::file_type(parts.filter(keep)[k].part)
            } by {
                if k > 0 {
                    assert(list[k] == rest[k - 1]);
                    assert(parts.filter(keep)[k] == chosen[k - 1]);
                }
            }
        }
    } else {
        reveal(Seq::filter);
    }
}

/// Filtering from the front.
pub proof fn lemma_filter_from_front<A>(s: Seq<A>, keep: spec_fn(A) -> bool)
    requires
        s.len() > 0,
    ensures
        s.filter(keep) == if keep(s[0]) {
            seq![s[0]] + s.drop_first().filter(keep)
        } else {
            s.drop_first().filter(keep)
        },
{
    assert(s =~= seq![s[0]] + s.drop_first());
    Seq::filter_distributes_over_add(seq![s[0]], s.drop_first(), keep);
    reveal(Seq::filter);
    let one = seq![s[0]];
    assert(one.drop_last() =~= Seq::empty());
    assert(one.drop_last().filter(keep) =~= Seq::empty());
    if keep(s[0]) {
        assert(one.filter(keep) =~= one);
    } else {
        assert(one.filter(keep) =~= Seq::empty());
        assert(Seq::<A>::empty() + s.drop_first().filter(keep) =~= s.drop_first().filter(keep));
    }
}

/// The bytes of some candidates.
pub open spec fn bytes_of(list: Seq<Candidate>) -> int
    decreases list.len(),
{
    if list.len() == 0 {
        0
    } else {
        list[0].bytes.len() + bytes_of(list.drop_first())
    }
}

/// With a budget, no more bytes are read than it allows.
pub proof fn law_extraction_keeps_its_budget(parts: Seq<Keyed>, budget: usize, used: int)
    requires
        0 <= used <= budget,
    ensures
        used + bytes_of(detach::candidates(parts, Some(budget), used)) <= budget,
    decreases parts.len(),
{
    if parts.len() > 0 {
        if detach::extractable(parts[0], Some(budget), used) {
            let next = used + parts[0].part.contents.len();
            law_extraction_keeps_its_budget(parts.drop_first(), budget, next);
            let rest = detach::candidates(parts.drop_first(), Some(budget), next);
            let list = detach::candidates(parts, Some(budget), used);
            assert(list.drop_first() =~= rest);
        } else {
            law_extraction_keeps_its_budget(parts.drop_first(), budget, used);
        }
    }
}

/// Attachments that together are no longer than the message are never refused.
pub proof fn law_fitting_attachments_are_accepted(
    body: Seq<u8>,
    parts: Seq<Keyed>,
    sum: int,
    exact: bool,
)
    requires
        0 <= sum,
        body.len() <= usize::MAX,
        sum + detach::encoded(body, parts) <= body.len(),
    ensures
        detach::copied(body, parts, sum, exact) == Ok::<int, failure::Failure>(
            sum + detach::encoded(body, parts),
        ),
    decreases parts.len(),
{
    if parts.len() > 0 {
        lemma_encoded_is_positive(body, parts.drop_first());
        if detach::present(body.len(), parts[0]) {
            let next = sum + detach::end(body.len(), parts[0]) - detach::first(
                body.len(),
                parts[0],
            );
            law_fitting_attachments_are_accepted(body, parts.drop_first(), next, exact);
        } else {
            law_fitting_attachments_are_accepted(body, parts.drop_first(), sum, exact);
        }
    }
}

proof fn lemma_encoded_is_positive(body: Seq<u8>, parts: Seq<Keyed>)
    ensures
        detach::encoded(body, parts) >= 0,
    decreases parts.len(),
{
    if parts.len() > 0 {
        lemma_encoded_is_positive(body, parts.drop_first());
    }
}

/// The encoded bytes of one part behind others: those that it spans in the message.
pub proof fn law_encoded_bytes_add_up(body: Seq<u8>, part: Keyed, parts: Seq<Keyed>)
    requires
        lies_in(part, body.len()),
    ensures
        detach::encoded(body, Seq::<Keyed>::empty()) == 0,
        detach::encoded(body, seq![part] + parts) == part.part.end - part.part.start
            + detach::encoded(body, parts),
{
    assert((seq![part] + parts).drop_first() =~= parts);
}

/// A message without attachments is stored as it is, and a part that lies in it is replaced
/// by its placeholder and nothing else changes.
pub proof fn law_one_part_is_replaced(body: Seq<u8>, part: Keyed)
    requires
        lies_in(part, body.len()),
    ensures
        detach::stripped(body, body.len(), Seq::<Keyed>::empty()) == body,
        detach::stripped(body, body.len(), seq![part]) == body.take(part.part.start)
            + vstd::utf8::encode_utf8("<<BICHON_DETACH_HASH:"@ + part.key + ">>"@) + body.skip(
            part.part.end,
        ),
{
    reveal_with_fuel(detach::stripped, 3);
    assert(seq![part].drop_first() =~= Seq::<Keyed>::empty());
}

/// A text that was extracted goes to the first attachment with its content hash and to no
/// other; of several for one hash the last counts. Everything else that is known of an
/// attachment stays as it was.
pub proof fn law_text_goes_to_the_first_of_its_hash(
    infos: Seq<Info>,
    list: Seq<Extracted>,
    i: int,
    k: int,
)
    requires
        0 <= i < infos.len(),
    ensures
        ({
            let next = detach::enriched(infos, list, i);
            let first = forall|j: int|
                0 <= j < i ==> (#[trigger] infos[j]).content_hash != infos[i].content_hash;
            let last = 0 <= k < list.len() && list[k].content_hash == infos[i].content_hash
                && forall|m: int|
                k < m < list.len() ==> (#[trigger] list[m]).content_hash != infos[i].content_hash;
            let none = forall|m: int|
                0 <= m < list.len() ==> (#[trigger] list[m]).content_hash != infos[i].content_hash;
            &&& next.filename == infos[i].filename
            &&& next.size == infos[i].size
            &&& next.inline == infos[i].inline
            &&& next.file_type == infos[i].file_type
            &&& next.content_id == infos[i].content_id
            &&& next.content_hash == infos[i].content_hash
            &&& next.is_message == infos[i].is_message
            &&& first && last ==> {
                &&& next.extracted_text == Some(list[k].text)
                &&& next.extracted_page_count == list[k].page_count
                &&& next.extracted_is_ocr == list[k].is_ocr
            }
            &&& !first || none ==> next == infos[i]
        }),
{
    lemma_latest(list, infos[i].content_hash, k);
}

proof fn lemma_latest(list: Seq<Extracted>, content_hash: Seq<char>, k: int)
    ensures
        0 <= k < list.len() && list[k].content_hash == content_hash && (forall|m: int|
            k < m < list.len() ==> (#[trigger] list[m]).content_hash != content_hash)
            ==> detach::latest(list, content_hash) == Some(list[k]),
        (forall|m: int| 0 <= m < list.len() ==> (#[trigger] list[m]).content_hash != content_hash)
            ==> detach::latest(list, content_hash) is None,
    decreases list.len(),
{
    if list.len() > 0 {
        let fewer = list.drop_last();
        lemma_latest(fewer, content_hash, k);
        let last = list.len() - 1;
        assert(list.last() == list[last]);
        assert forall|m: int| 0 <= m < fewer.len() implies #[trigger] fewer[m] == list[m] by {}
        if list.last().content_hash == content_hash {
            if 0 <= k < last {
                assert(list[last].content_hash == content_hash);
            }
        } else if 0 <= k < list.len() && list[k].content_hash == content_hash && (forall|m: int|
            k < m < list.len() ==> (#[trigger] list[m]).content_hash != content_hash) {
            assert(k < last);
            assert forall|m: int| k < m < fewer.len() implies (#[trigger] fewer[m]).content_hash
                != content_hash by {
                assert(list[m].content_hash != content_hash);
            }
            assert(fewer[k] == list[k]);
        }
        if forall|m: int| 0 <= m < list.len() ==> (#[trigger] list[m]).content_hash != content_hash {
            assert forall|m: int| 0 <= m < fewer.len() implies (#[trigger] fewer[m]).content_hash
                != content_hash by {
                assert(list[m].content_hash != content_hash);
            }
        }
    }
}

/// The bytes of some texts.
pub open spec fn text_bytes(list: Seq<Extracted>) -> int
    decreases list.len(),
{
    if list.len() == 0 {
        0
    } else {
        vstd::utf8::encode_utf8(list[0].text).len() + text_bytes(list.drop_first())
    }
}

/// Texts are accepted while they fit: all of them without a budget or where they fit in
/// together, and never more than the budget.
pub proof fn law_texts_keep_their_budget(list: Seq<Extracted>, budget: Option<usize>, used: int)
    requires
        0 <= used,
    ensures
        budget is None ==> detach::accepted(list, budget, used) == list,
        budget is Some && used + text_bytes(list) <= budget->0 ==> detach::accepted(
            list,
            budget,
            used,
        ) == list,
        budget is Some && used <= budget->0 ==> used + text_bytes(
            detach::accepted(list, budget, used),
        ) <= budget->0,
        text_bytes(list) >= 0,
    decreases list.len(),
{
    if list.len() > 0 {
        let size = vstd::utf8::encode_utf8(list[0].text).len() as int;
        law_texts_keep_their_budget(list.drop_first(), budget, used + size);
        law_texts_keep_their_budget(list.drop_first(), budget, used);
        assert(seq![list[0]] + list.drop_first() =~= list);
        let all = detach::accepted(list, budget, used);
        if budget is None || used + size <= budget->0 {
            let rest = detach::accepted(list.drop_first(), budget, used + size);
            assert(all.drop_first() =~= rest);
        }
    }
}

/// The extension of a name is what follows the last full stop of its file part, which must
/// not come first there.
pub proof fn law_extension_follows_the_last_stop(
    directory: Seq<char>,
    stem: Seq<char>,
    ext: Seq<char>,
)
    requires
        directory.len() == 0 || directory.last() == '/',
        stem.len() > 0,
        !stem.contains('/'),
        !ext.contains('/'),
        !ext.contains('.'),
        stem != seq!['.'] || ext.len() > 0,
    ensures
        detach::extension(directory + stem.push('.') + ext) == Some(ext),
        detach::extension(directory + ext) is None,
        detach::extension(directory + seq!['.'] + ext) is None,
{
    let file = stem.push('.') + ext;
    assert(directory + stem.push('.') + ext =~= directory + file);
    assert(!file.contains('/')) by {
        if file.contains('/') {
            let i = choose|i: int| 0 <= i < file.len() && file[i] == '/';
            if i < stem.len() {
                assert(stem[i] == '/');
            } else if i > stem.len() {
                assert(ext[i - stem.len() - 1] == '/');
            }
        }
    }
    lemma_file_part(directory, file);
    lemma_last_stop(stem, ext);
    assert(file.skip(stem.len() as int + 1) =~= ext);
    if file == seq!['.', '.'] {
        assert(file.len() == 2);
        assert(stem =~= seq!['.']);
    }
    lemma_file_part(directory, ext);
    lemma_no_stop(ext);
    let hidden = seq!['.'] + ext;
    assert(directory + seq!['.'] + ext =~= directory + hidden);
    assert(!hidden.contains('/')) by {
        if hidden.contains('/') {
            let i = choose|i: int| 0 <= i < hidden.len() && hidden[i] == '/';
            assert(ext[i - 1] == '/');
        }
    }
    lemma_file_part(directory, hidden);
    let none = Seq::<char>::empty();
    lemma_last_stop(none, ext);
    assert(none.push('.') + ext =~= hidden);
}

proof fn lemma_file_part(directory: Seq<char>, file: Seq<char>)
    requires
        directory.len() == 0 || directory.last() == '/',
        !file.contains('/'),
    ensures
        detach::file_part(directory + file) == file,
    decreases file.len(),
{
    if file.len() == 0 {
        assert(directory + file =~= directory);
    } else {
        let shorter = file.drop_last();
        assert(file.contains(file[file.len() - 1]));
        assert(!shorter.contains('/')) by {
            if shorter.contains('/') {
                let i = choose|i: int| 0 <= i < shorter.len() && shorter[i] == '/';
                assert(file[i] == '/');
            }
        }
        lemma_file_part(directory, shorter);
        assert((directory + file).drop_last() =~= directory + shorter);
        assert((directory + file).last() == file.last());
        assert(shorter.push(file.last()) =~= file);
    }
}

proof fn lemma_no_stop(name: Seq<char>)
    requires
        !name.contains('.'),
    ensures
        detach::last_stop(name) == -1,
    decreases name.len(),
{
    if name.len() > 0 {
        let shorter = name.drop_last();
        assert(name.contains(name[name.len() - 1]));
        assert(!shorter.contains('.')) by {
            if shorter.contains('.') {
                let i = choose|i: int| 0 <= i < shorter.len() && shorter[i] == '.';
                assert(name[i] == '.');
            }
        }
        lemma_no_stop(shorter);
    }
}

proof fn lemma_last_stop(stem: Seq<char>, ext: Seq<char>)
    requires
        !ext.contains('.'),
    ensures
        detach::last_stop(stem.push('.') + ext) == stem.len(),
    decreases ext.len(),
{
    let file = stem.push('.') + ext;
    if ext.len() == 0 {
        assert(file =~= stem.push('.'));
    } else {
        let shorter = ext.drop_last();
        assert(ext.contains(ext[ext.len() - 1]));
        assert(!shorter.contains('.')) by {
            if shorter.contains('.') {
                let i = choose|i: int| 0 <= i < shorter.len() && shorter[i] == '.';
                assert(ext[i] == '.');
            }
        }
        lemma_last_stop(stem, shorter);
        assert(file.drop_last() =~= stem.push('.') + shorter);
        assert(file.last() == ext.last());
    }
}

/// Parts can be replaced one by one just where each of them still lies inside the message
/// when its turn comes, after those before it in the list were replaced.
pub proof fn law_parts_fit_while_they_are_replaced(
    data: Seq<u8>,
    len: nat,
    parts: Seq<Keyed>,
    i: int,
)
    requires
        forall|j: int| 0 <= j < parts.len() ==> 0 <= (#[trigger] parts[j]).part.start,
    ensures
        detach::cuts_fit(data.len() as int, len, parts) && 0 <= i < parts.len() && detach::present(
            len,
            parts[i],
        ) ==> detach::end(len, parts[i]) <= detach::stripped(data, len, parts.take(i)).len(),
        (forall|j: int|
            0 <= j < parts.len() && detach::present(len, #[trigger] parts[j]) ==> detach::end(
                len,
                parts[j],
            ) <= detach::stripped(data, len, parts.take(j)).len()) ==> detach::cuts_fit(
            data.len() as int,
            len,
            parts,
        ),
    decreases parts.len(),
{
    if parts.len() > 0 {
        let rest = parts.drop_first();
        let here = detach::present(len, parts[0]);
        let next = if here {
            detach::splice(
                data,
                detach::first(len, parts[0]),
                detach::end(len, parts[0]),
                detach::placeholder(parts[0].key),
            )
        } else {
            data
        };
        assert(parts.take(0) =~= Seq::empty());
        assert(detach::stripped(data, len, parts.take(0)) == data);
        assert forall|j: int| 0 < j <= parts.len() implies #[trigger] detach::stripped(
            data,
            len,
            parts.take(j),
        ) == detach::stripped(next, len, rest.take(j - 1)) by {
            assert(parts.take(j).drop_first() =~= rest.take(j - 1));
            assert(parts.take(j)[0] == parts[0]);
        }
        assert forall|j: int| 0 <= j < rest.len() implies 0 <= (#[trigger] rest[j]).part.start by {
            assert(rest[j] == parts[j + 1]);
        }
        law_parts_fit_while_they_are_replaced(next, len, rest, i - 1);
        if 0 < i < parts.len() {
            assert(rest[i - 1] == parts[i]);
        }
        if forall|j: int|
            0 <= j < parts.len() && detach::present(len, #[trigger] parts[j]) ==> detach::end(
                len,
                parts[j],
            ) <= detach::stripped(data, len, parts.take(j)).len() {
            assert(here ==> detach::end(len, parts[0]) <= data.len());
            assert forall|j: int|
                0 <= j < rest.len() && detach::present(len, #[trigger] rest[j]) implies detach::end(
                len,
                rest[j],
            ) <= detach::stripped(next, len, rest.take(j)).len() by {
                assert(rest[j] == parts[j + 1]);
                assert(detach::stripped(data, len, parts.take(j + 1)) == detach::stripped(
                    next,
                    len,
                    rest.take(j),
                ));
            }
        }
        if here && detach::end(len, parts[0]) <= data.len() {
            assert(next.len() == data.len() - (detach::end(len, parts[0]) - detach::first(
                len,
                parts[0],
            )) + detach::placeholder(parts[0].key).len());
        }
    }
}

/// The media type of an attachment without a subtype, and the extension of one by its name.
pub proof fn law_types_and_extensions(part: crate::mime::Part)
    ensures
        part.media_type is Some && part.media_subtype is None ==> detach::file_type(part)
            == part.media_type->0 + "/"@,
        part.name is None ==> detach::small_extension(part.name).len() == 0,
        part.name is Some && detach::extension(part.name->0) is None ==> detach::small_extension(
            part.name,
        ).len() == 0,
        part.name is Some && detach::extension(part.name->0) is Some ==> detach::small_extension(
            part.name,
        ) == text::lowercase(detach::extension(part.name->0)->0),
{
    reveal_strlit("");
    if part.media_type is Some && part.media_subtype is None {
        assert(part.media_type->0 + "/"@ + ""@ =~= part.media_type->0 + "/"@);
    }
}

/// An attachment of a message that is not kept exactly is keyed by the hash of its decoded
/// contents.
pub proof fn law_other_attachments_are_keyed_by_their_contents<
    H: Fn(&[u8]) -> String,
    K: Fn(&str) -> String,
>(
    body: Seq<u8>,
    part: crate::mime::Part,
    compute_content_hash: H,
    blob_key: K,
    key: String,
)
    requires
        detach::keyed_by(body, part, false, compute_content_hash, blob_key, key),
    ensures
        exists|bytes: &[u8]|
            bytes@ == part.contents && #[trigger] compute_content_hash.ensures((bytes,), key),
{
}

/// A budget that is large enough changes nothing: what would be read without one is read.
pub proof fn law_large_budget_reads_everything(parts: Seq<Keyed>, budget: usize, used: int)
    requires
        budget > 0,
        0 <= used,
        used + bytes_of(detach::candidates(parts, None, used)) <= budget,
    ensures
        detach::candidates(parts, Some(budget), used) == detach::candidates(parts, None, used),
        bytes_of(detach::candidates(parts, None, used)) >= 0,
    decreases parts.len(),
{
    if parts.len() > 0 {
        let list = detach::candidates(parts, None, used);
        if detach::extractable(parts[0], None, used) {
            let next = used + parts[0].part.contents.len();
            let rest = detach::candidates(parts.drop_first(), None, next);
            assert(list.drop_first() =~= rest);
            assert(list[0].bytes == parts[0].part.contents);
            lemma_bytes_are_positive(rest);
            law_large_budget_reads_everything(parts.drop_first(), budget, next);
        } else {
            law_large_budget_reads_everything(parts.drop_first(), budget, used);
        }
    }
}

proof fn lemma_bytes_are_positive(list: Seq<Candidate>)
    ensures
        bytes_of(list) >= 0,
    decreases list.len(),
{
    if list.len() > 0 {
        lemma_bytes_are_positive(list.drop_first());
    }
}

/// A text that does not fit into what is left of the budget is left out, and takes nothing
/// of it; one that fits is accepted and counts.
pub proof fn law_each_text_is_judged_by_itself(
    entry: Extracted,
    rest: Seq<Extracted>,
    budget: usize,
    used: int,
)
    ensures
        ({
            let size = vstd::utf8::encode_utf8(entry.text).len();
            let all = detach::accepted(seq![entry] + rest, Some(budget), used);
            &&& used + size > budget ==> all == detach::accepted(rest, Some(budget), used)
            &&& used + size <= budget ==> all == seq![entry] + detach::accepted(
                rest,
                Some(budget),
                used + size,
            )
        }),
{
    assert((seq![entry] + rest).drop_first() =~= rest);
}

/// A message that is not kept exactly is stored with its parts replaced, under its content
/// hash.
pub proof fn law_other_messages_are_stored_stripped(
    body: Seq<u8>,
    list: Seq<Keyed>,
    content_hash: Seq<char>,
    exact_raw_key: Seq<char>,
    prepared: PreparedMessage,
    i: int,
)
    requires
        detach::prepared_from(body, list, content_hash, exact_raw_key, None, Ok(prepared)),
    ensures
        blob::contents(prepared.detached.email.1) == detach::stripped(body, body.len(), list),
        prepared.infos@.len() == list.len(),
        0 <= i < list.len() ==> prepared.infos@[i]@.content_hash == list[i].key
            && prepared.infos@[i]@.size == list[i].part.contents.len(),
        detach::candidates_of(prepared.candidates@) == detach::candidates(list, None, 0),
{
    let infos = prepared.infos@;
    assert(detach::infos_of(infos).len() == list.len());
    if 0 <= i < list.len() {
        assert(detach::infos_of(infos)[i] == infos[i]@);
        assert(detach::part_infos(list)[i] == detach::info_of(list[i]));
    }
}

/// Parts that already come from the last offset to the first stay in their order, those at
/// the same offset too.
pub proof fn law_ordered_parts_stay_in_order(list: Seq<Keyed>)
    requires
        forall|i: int, j: int|
            0 <= i < j < list.len() ==> (#[trigger] list[i]).part.start >= (
            #[trigger] list[j]).part.start,
    ensures
        detach::arranged(list) == list,
    decreases list.len(),
{
    if list.len() > 0 {
        let fewer = list.drop_last();
        assert forall|i: int, j: int| 0 <= i < j < fewer.len() implies (
        #[trigger] fewer[i]).part.start >= (#[trigger] fewer[j]).part.start by {
            assert(fewer[i] == list[i]);
            assert(fewer[j] == list[j]);
        }
        law_ordered_parts_stay_in_order(fewer);
        let start = list.last().part.start;
        assert forall|i: int| 0 <= i < fewer.len() implies (#[trigger] fewer[i]).part.start
            >= start by {
            assert(fewer[i] == list[i]);
        }
        lemma_place_is_last(fewer, start, 0);
        assert(fewer.insert(fewer.len() as int, list.last()) =~= list);
    }
}

proof fn lemma_place_is_last(list: Seq<Keyed>, start: int, from: int)
    requires
        0 <= from <= list.len(),
        forall|i: int| 0 <= i < list.len() ==> (#[trigger] list[i]).part.start >= start,
    ensures
        detach::place(list, start, from) == list.len(),
    decreases list.len() - from,
{
    if from < list.len() {
        assert(list[from].part.start >= start);
        lemma_place_is_last(list, start, from + 1);
    }
}

/// The bytes that an exact attachment is hashed by: those that it spans where it lies in the
/// message, else its decoded contents.
pub proof fn law_sound_ranges_are_hashed(body: Seq<u8>, start: int, end: int, decoded: Seq<u8>)
    ensures
        0 <= start < end <= body.len() ==> detach::hashed(body, start, end, decoded)
            == body.subrange(start, end),
        start >= end || end > body.len() ==> detach::hashed(body, start, end, decoded) == decoded,
{
}

} // verus!
