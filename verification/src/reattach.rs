//! A detached message is put together again from its blobs.

use crate::blob;
use crate::detach;
use crate::detach::{placeholder_bytes, replace_range, Keyed};
use crate::failure;
use crate::failure::{raise, BichonError, ErrorCode};
use crate::text;
use crate::text::{push_numeral, push_text};
use bytes::Bytes;
use vstd::prelude::*;

verus! {

/// The places where a pattern occurs from `from` on, from left to right and without
/// overlap.
pub open spec fn occurrences(data: Seq<u8>, pattern: Seq<u8>, from: int) -> Seq<int>
    decreases data.len() - from,
    when 0 <= from && pattern.len() > 0
{
    if from + pattern.len() > data.len() {
        Seq::empty()
    } else if data.subrange(from, from + pattern.len() as int) == pattern {
        seq![from] + occurrences(data, pattern, from + pattern.len() as int)
    } else {
        occurrences(data, pattern, from + 1)
    }
}

/// A placeholder in a message: where it stands and which attachment it names.
#[derive(Clone, Copy, Debug, PartialEq, Eq, Structural)]
pub struct Spot {
    pub start: usize,
    pub end: usize,
    pub which: usize,
}

/// The placeholders of one attachment.
pub open spec fn spots_at(starts: Seq<int>, len: int, which: int) -> Seq<Spot> {
    starts.map_values(
        |start: int|
            Spot { start: start as usize, end: (start + len) as usize, which: which as usize },
    )
}

/// The placeholders of the attachments with these keys, attachment by attachment; the
/// first of them is number `which`.
pub open spec fn spots(data: Seq<u8>, keys: Seq<Seq<char>>, which: int) -> Seq<Spot>
    decreases keys.len(),
{
    if keys.len() == 0 {
        Seq::empty()
    } else {
        let marker = detach::placeholder(keys[0]);
        spots_at(occurrences(data, marker, 0), marker.len() as int, which) + spots(
            data,
            keys.drop_first(),
            which + 1,
        )
    }
}

/// Where a placeholder goes in a list from the last to the first.
pub open spec fn spot_place(list: Seq<Spot>, start: usize, from: int) -> int
    decreases list.len() - from,
{
    if from < list.len() && list[from].start >= start {
        spot_place(list, start, from + 1)
    } else {
        from
    }
}

/// Placeholders from the last to the first; equal ones keep their order.
pub open spec fn ordered(list: Seq<Spot>) -> Seq<Spot>
    decreases list.len(),
{
    if list.len() == 0 {
        list
    } else {
        let before = ordered(list.drop_last());
        before.insert(spot_place(before, list.last().start, 0), list.last())
    }
}

/// A message with its placeholders replaced by the blobs that there are, from the first
/// of the list on.
pub open spec fn restored(data: Seq<u8>, list: Seq<Spot>, blobs: Seq<Option<Seq<u8>>>) -> Seq<u8>
    decreases list.len(),
{
    if list.len() == 0 {
        data
    } else {
        match blobs[list[0].which as int] {
            Some(bytes) => restored(
                detach::splice(data, list[0].start as int, list[0].end as int, bytes),
                list.drop_first(),
                blobs,
            ),
            None => restored(data, list.drop_first(), blobs),
        }
    }
}

/// Every placeholder still lies inside the message when it is replaced.
pub open spec fn fits(len: int, list: Seq<Spot>, blobs: Seq<Option<Seq<u8>>>) -> bool
    decreases list.len(),
{
    if list.len() == 0 {
        true
    } else {
        &&& list[0].which < blobs.len()
        &&& match blobs[list[0].which as int] {
            Some(bytes) => {
                &&& list[0].start <= list[0].end <= len
                &&& fits(len - (list[0].end - list[0].start) + bytes.len(), list.drop_first(), blobs)
            },
            None => fits(len, list.drop_first(), blobs),
        }
    }
}

pub open spec fn texts_of(keys: Seq<String>) -> Seq<Seq<char>> {
    keys.map_values(|key: String| key@)
}

/// Blobs by their contents.
pub open spec fn found(blobs: Seq<Option<Bytes>>) -> Seq<Option<Seq<u8>>> {
    blobs.map_values(
        |entry: Option<Bytes>|
            match entry {
                Some(bytes) => Some(blob::contents(bytes)),
                None => None,
            },
    )
}

pub proof fn lemma_marker_is_long(key: Seq<char>)
    ensures
        detach::placeholder(key).len() >= 23,
{
    reveal_strlit("<<BICHON_DETACH_HASH:");
    reveal_strlit(">>");
    let head = "<<BICHON_DETACH_HASH:"@;
    crate::words::lemma_encoding_joins(head + key, ">>"@);
    crate::words::lemma_encoding_joins(head, key);
    vstd::utf8::is_ascii_chars_encode_utf8(head);
    vstd::utf8::is_ascii_chars_encode_utf8(">>"@);
}

fn matches_at(data: &[u8], pattern: &[u8], at: usize) -> (result: bool)
    requires
        at + pattern@.len() <= data@.len(),
    ensures
        result == (data@.subrange(at as int, at + pattern@.len()) == pattern@),
{
    let mut i: usize = 0;
    let size: usize = data.len();
    while i < pattern.len()
        invariant
            i <= pattern@.len(),
            at + pattern@.len() <= data@.len() == size,
            forall|j: int| 0 <= j < i ==> data@[at + j] == #[trigger] pattern@[j],
        decreases pattern.len() - i,
    {
        if data[at + i] != pattern[i] {
            assert(data@.subrange(at as int, at + pattern@.len())[i as int] != pattern@[i as int]);
            return false;
        }
        i = i + 1;
    }
    assert(data@.subrange(at as int, at + pattern@.len()) =~= pattern@);
    true
}

fn push_spots(spots_found: &mut Vec<Spot>, data: &[u8], pattern: &[u8], which: usize)
    requires
        pattern@.len() > 0,
    ensures
        final(spots_found)@ == old(spots_found)@ + spots_at(
            occurrences(data@, pattern@, 0),
            pattern@.len() as int,
            which as int,
        ),
{
    let ghost n = pattern@.len() as int;
    let ghost whole = occurrences(data@, pattern@, 0);
    let mut from: usize = 0;
    proof {
        assert(spots_found@ + spots_at(whole, n, which as int) =~= old(spots_found)@ + spots_at(
            whole,
            n,
            which as int,
        ));
    }
    while from <= data.len() && pattern.len() <= data.len() - from
        invariant
            n == pattern@.len() > 0,
            from <= data@.len(),
            old(spots_found)@ + spots_at(whole, n, which as int) == spots_found@ + spots_at(
                occurrences(data@, pattern@, from as int),
                n,
                which as int,
            ),
        decreases data.len() - from,
    {
        let ghost rest = occurrences(data@, pattern@, from as int);
        if matches_at(data, pattern, from) {
            let ghost before = spots_found@;
            let spot = Spot { start: from, end: from + pattern.len(), which };
            spots_found.push(spot);
            from = from + pattern.len();
            proof {
                let later = occurrences(data@, pattern@, from as int);
                assert(spots_at(rest, n, which as int) =~= seq![spot] + spots_at(
                    later,
                    n,
                    which as int,
                ));
                assert(before + (seq![spot] + spots_at(later, n, which as int))
                    =~= before.push(spot) + spots_at(later, n, which as int));
            }
        } else {
            from = from + 1;
        }
    }
    assert(spots_found@ + spots_at(
        occurrences(data@, pattern@, from as int),
        n,
        which as int,
    ) =~= spots_found@);
}

fn order_spots(list: Vec<Spot>) -> (result: Vec<Spot>)
    ensures
        result@ == ordered(list@),
{
    let mut result: Vec<Spot> = Vec::new();
    let mut i: usize = 0;
    assert(list@.take(0) =~= Seq::<Spot>::empty());
    while i < list.len()
        invariant
            i <= list@.len(),
            result@ == ordered(list@.take(i as int)),
        decreases list.len() - i,
    {
        let spot = list[i];
        let ghost before = result@;
        let mut at: usize = 0;
        while at < result.len() && result[at].start >= spot.start
            invariant
                at <= result@.len(),
                before == result@,
                spot_place(before, spot.start, 0) == spot_place(before, spot.start, at as int),
            decreases result.len() - at,
        {
            at = at + 1;
        }
        proof {
            assert(list@.take(i + 1).drop_last() =~= list@.take(i as int));
            assert(list@.take(i + 1).last() == spot);
        }
        result.insert(at, spot);
        assert(result@ =~= before.insert(at as int, spot));
        i = i + 1;
    }
    assert(list@.take(i as int) =~= list@);
    result
}

/// The placeholders of a message, from the last to the first.
pub fn find_placeholders(data: &[u8], keys: &[String]) -> (result: Vec<Spot>)
    ensures
        result@ == ordered(spots(data@, texts_of(keys@), 0)),
{
    let ghost all = texts_of(keys@);
    let mut list: Vec<Spot> = Vec::new();
    let mut i: usize = 0;
    proof {
        assert(all.skip(0) =~= all);
        assert(list@ + spots(data@, all, 0) =~= spots(data@, all, 0));
    }
    while i < keys.len()
        invariant
            i <= keys@.len(),
            all == texts_of(keys@),
            spots(data@, all, 0) == list@ + spots(data@, all.skip(i as int), i as int),
        decreases keys.len() - i,
    {
        let ghost rest = all.skip(i as int);
        let marker = placeholder_bytes(keys[i].as_str());
        let ghost before = list@;
        proof {
            assert(rest[0] == keys@[i as int]@);
            assert(rest.drop_first() =~= all.skip(i + 1));
            lemma_marker_is_long(rest[0]);
        }
        push_spots(&mut list, data, marker.as_slice(), i);
        proof {
            let here = spots_at(
                occurrences(data@, marker@, 0),
                marker@.len() as int,
                i as int,
            );
            assert(before + (here + spots(data@, all.skip(i + 1), i + 1)) =~= (before + here)
                + spots(data@, all.skip(i + 1), i + 1));
        }
        i = i + 1;
    }
    proof {
        assert(all.skip(i as int) =~= Seq::<Seq<char>>::empty());
        assert(list@ + spots(data@, all.skip(i as int), i as int) =~= list@);
    }
    order_spots(list)
}

/// Whether every placeholder still lies inside the message when it is replaced.
pub fn placeholders_fit(len: usize, list: &[Spot], blobs: &[Option<Bytes>]) -> (result: bool)
    ensures
        result == fits(len as int, list@, found(blobs@)),
{
    let ghost bytes = found(blobs@);
    let mut current: u128 = len as u128;
    let mut i: usize = 0;
    assert(list@.skip(0) =~= list@);
    while i < list.len()
        invariant
            i <= list@.len(),
            bytes == found(blobs@),
            current <= (i + 1) * usize::MAX,
            fits(current as int, list@.skip(i as int), bytes) == fits(len as int, list@, bytes),
        decreases list.len() - i,
    {
        let spot = list[i];
        proof {
            assert(list@.skip(i as int)[0] == spot);
            assert(list@.skip(i as int).drop_first() =~= list@.skip(i + 1));
            assert((i + 2) * usize::MAX == (i + 1) * usize::MAX + usize::MAX) by (nonlinear_arith);
            assert((i + 2) * usize::MAX <= 0xffff_ffff_ffff_ffff_ffff_ffff_ffff_ffff)
                by (nonlinear_arith)
                requires
                    i < usize::MAX,
                    usize::MAX <= 0xffff_ffff_ffff_ffff,
            ;
        }
        if spot.which >= blobs.len() {
            return false;
        }
        match &blobs[spot.which] {
            None => {
                assert(bytes[spot.which as int] is None);
            },
            Some(buffer) => {
                let data = blob::to_vec(buffer);
                assert(bytes[spot.which as int] == Some(data@));
                if spot.start > spot.end || spot.end as u128 > current {
                    return false;
                }
                current = current - (spot.end - spot.start) as u128 + data.len() as u128;
            },
        }
        i = i + 1;
    }
    assert(list@.skip(i as int) =~= Seq::<Spot>::empty());
    true
}

/// Replaces placeholders by the blobs that there are; the others stay.
pub fn restore(data: &[u8], list: &[Spot], blobs: &[Option<Bytes>]) -> (result: Bytes)
    requires
        fits(data@.len() as int, list@, found(blobs@)),
    ensures
        blob::contents(result) == restored(data@, list@, found(blobs@)),
{
    let ghost bytes = found(blobs@);
    let mut current: Vec<u8> = Vec::new();
    current.extend_from_slice(data);
    let mut i: usize = 0;
    proof {
        assert(current@ =~= data@);
        assert(list@.skip(0) =~= list@);
    }
    while i < list.len()
        invariant
            i <= list@.len(),
            bytes == found(blobs@),
            fits(current@.len() as int, list@.skip(i as int), bytes),
            restored(data@, list@, bytes) == restored(current@, list@.skip(i as int), bytes),
        decreases list.len() - i,
    {
        let spot = list[i];
        proof {
            assert(list@.skip(i as int)[0] == spot);
            assert(list@.skip(i as int).drop_first() =~= list@.skip(i + 1));
        }
        match &blobs[spot.which] {
            None => {
                assert(bytes[spot.which as int] is None);
            },
            Some(buffer) => {
                let with = blob::to_vec(buffer);
                assert(bytes[spot.which as int] == Some(with@));
                current = replace_range(current.as_slice(), spot.start, spot.end, with.as_slice());
            },
        }
        i = i + 1;
    }
    assert(list@.skip(i as int) =~= Seq::<Spot>::empty());
    blob::owning(current)
}

/// The message of a failed count of attachments.
pub open spec fn count_mismatch(recorded: int, actual: int) -> Seq<char> {
    "Consistency check failed: envelope.attachment_count ("@ + text::numeral(recorded as nat)
        + ") does not match attachments.len ("@ + text::numeral(actual as nat) + ")"@
}

/// What has to be put back into a stored message: nothing where its hash is that of the
/// original or where it has no attachments.
pub open spec fn to_put_back(
    stored: Seq<u8>,
    hash_matches: bool,
    attachment_count: usize,
    keys: Seq<Seq<char>>,
) -> Result<Option<Seq<Spot>>, failure::Failure> {
    if hash_matches || attachment_count == 0 {
        Ok(None)
    } else if attachment_count != keys.len() {
        Err(
            failure::failure(
                ErrorCode::InternalError,
                count_mismatch(attachment_count as int, keys.len() as int),
            ),
        )
    } else {
        Ok(Some(ordered(spots(stored, keys, 0))))
    }
}

/// A plan with its list taken by its view.
pub open spec fn seen_plan(plan: Result<Option<Vec<Spot>>, BichonError>) -> Result<
    Option<Seq<Spot>>,
    failure::Failure,
> {
    match plan {
        Ok(Some(list)) => Ok(Some(list@)),
        Ok(None) => Ok(None),
        Err(e) => Err(e@),
    }
}

/// Finds what has to be put back into a stored message.
pub fn plan_reattachment(
    stored: &Bytes,
    hash_matches: bool,
    attachment_count: usize,
    keys: &[String],
) -> (plan: Result<Option<Vec<Spot>>, BichonError>)
    ensures
        seen_plan(plan) == to_put_back(
            blob::contents(*stored),
            hash_matches,
            attachment_count,
            texts_of(keys@),
        ),
{
    if hash_matches || attachment_count == 0 {
        return Ok(None);
    }
    if attachment_count != keys.len() {
        let mut message = String::new();
        push_text(&mut message, "Consistency check failed: envelope.attachment_count (");
        push_numeral(&mut message, attachment_count as u64);
        push_text(&mut message, ") does not match attachments.len (");
        push_numeral(&mut message, keys.len() as u64);
        push_text(&mut message, ")");
        assert(message@ =~= count_mismatch(attachment_count as int, keys@.len() as int));
        return Err(raise(ErrorCode::InternalError, message.as_str()));
    }
    let data = blob::to_vec(stored);
    Ok(Some(find_placeholders(data.as_slice(), keys)))
}

/// Compares a stored message with the hash of the original, and finds what has to be put
/// back into it.
pub fn plan_for_stored<H: Fn(&[u8]) -> String>(
    stored: &Bytes,
    content_hash: &String,
    attachment_count: usize,
    keys: &[String],
    compute_content_hash: &H,
) -> (plan: Result<Option<Vec<Spot>>, BichonError>)
    requires
        forall|bytes: &[u8]| #[trigger] compute_content_hash.requires((bytes,)),
    ensures
        exists|bytes: &[u8], hash: String|
            {
                &&& bytes@ == blob::contents(*stored)
                &&& #[trigger] compute_content_hash.ensures((bytes,), hash)
                &&& seen_plan(plan) == to_put_back(
                    blob::contents(*stored),
                    hash@ == content_hash@,
                    attachment_count,
                    texts_of(keys@),
                )
            },
{
    let data = blob::to_vec(stored);
    let bytes = data.as_slice();
    let hash = compute_content_hash(bytes);
    assert(compute_content_hash.ensures((bytes,), hash));
    plan_reattachment(stored, hash == *content_hash, attachment_count, keys)
}

/// Puts the attachments of a stored message back, unless a placeholder does not lie
/// inside the message when its turn comes. Placeholders whose blob is missing stay.
pub fn reattach_eml_content(stored: &Bytes, list: &[Spot], blobs: &[Option<Bytes>]) -> (result:
    Option<Bytes>)
    ensures
        match result {
            None => !fits(blob::contents(*stored).len() as int, list@, found(blobs@)),
            Some(whole) => {
                &&& fits(blob::contents(*stored).len() as int, list@, found(blobs@))
                &&& blob::contents(whole) == restored(
                    blob::contents(*stored),
                    list@,
                    found(blobs@),
                )
            },
        },
{
    let data = blob::to_vec(stored);
    if !placeholders_fit(data.len(), list, blobs) {
        return None;
    }
    Some(restore(data.as_slice(), list, blobs))
}

/// The places where detaching put the placeholders of some parts; the first of them is
/// number `which`.
pub open spec fn placed(data: Seq<u8>, len: nat, parts: Seq<Keyed>, which: int) -> Seq<Spot>
    decreases parts.len(),
{
    if parts.len() == 0 {
        Seq::empty()
    } else if detach::present(len, parts[0]) {
        let before = data.take(detach::first(len, parts[0]));
        let start = detach::stripped(before, len, parts.drop_first()).len();
        let marker = detach::placeholder(parts[0].key);
        seq![
            Spot {
                start: start as usize,
                end: (start + marker.len()) as usize,
                which: which as usize,
            },
        ] + placed(before, len, parts.drop_first(), which + 1)
    } else {
        placed(data, len, parts.drop_first(), which + 1)
    }
}

/// Every placeholder is found exactly where it was put.
pub open spec fn unambiguous(
    detached: Seq<u8>,
    data: Seq<u8>,
    len: nat,
    parts: Seq<Keyed>,
) -> bool
    decreases parts.len(),
{
    if parts.len() == 0 {
        true
    } else {
        let found_at = occurrences(detached, detach::placeholder(parts[0].key), 0);
        if detach::present(len, parts[0]) {
            let before = data.take(detach::first(len, parts[0]));
            &&& found_at == seq![detach::stripped(before, len, parts.drop_first()).len() as int]
            &&& unambiguous(detached, before, len, parts.drop_first())
        } else {
            &&& found_at.len() == 0
            &&& unambiguous(detached, data, len, parts.drop_first())
        }
    }
}

pub open spec fn keys_of(parts: Seq<Keyed>) -> Seq<Seq<char>> {
    parts.map_values(|part: Keyed| part.key)
}

/// All parts lie inside the data.
pub open spec fn inside(data_len: nat, len: nat, parts: Seq<Keyed>) -> bool {
    forall|i: int|
        0 <= i < parts.len() && detach::present(len, #[trigger] parts[i]) ==> detach::end(
            len,
            parts[i],
        ) <= data_len
}

proof fn lemma_tail_is_apart(len: nat, parts: Seq<Keyed>)
    requires
        parts.len() > 0,
        detach::apart(len, parts),
    ensures
        detach::apart(len, parts.drop_first()),
        detach::present(len, parts[0]) ==> inside(
            detach::first(len, parts[0]) as nat,
            len,
            parts.drop_first(),
        ),
{
    let tail = parts.drop_first();
    assert forall|i: int, j: int|
        0 <= i < j < tail.len() && detach::present(len, #[trigger] tail[i]) && detach::present(
            len,
            #[trigger] tail[j],
        ) implies detach::end(len, tail[j]) <= detach::first(len, tail[i]) by {
        assert(parts[i + 1] == tail[i] && parts[j + 1] == tail[j]);
    }
    assert forall|i: int|
        0 <= i < tail.len() && detach::present(len, parts[0]) && detach::present(
            len,
            #[trigger] tail[i],
        ) implies detach::end(len, tail[i]) <= detach::first(len, parts[0]) by {
        assert(parts[i + 1] == tail[i]);
        assert(detach::present(len, parts[0]) && detach::present(len, parts[i + 1]));
    }
}

proof fn lemma_stripped_keeps_rest(x: Seq<u8>, y: Seq<u8>, len: nat, parts: Seq<Keyed>)
    requires
        detach::apart(len, parts),
        inside(x.len(), len, parts),
        forall|i: int| 0 <= i < parts.len() ==> 0 <= (#[trigger] parts[i]).part.start,
    ensures
        detach::stripped(x + y, len, parts) == detach::stripped(x, len, parts) + y,
    decreases parts.len(),
{
    if parts.len() > 0 {
        let tail = parts.drop_first();
        lemma_tail_is_apart(len, parts);
        assert forall|i: int| 0 <= i < tail.len() implies 0 <= (#[trigger] tail[i]).part.start by {
            assert(tail[i] == parts[i + 1]);
        }
        if detach::present(len, parts[0]) {
            let s = detach::first(len, parts[0]);
            let e = detach::end(len, parts[0]);
            let marker = detach::placeholder(parts[0].key);
            let cut = detach::splice(x, s, e, marker);
            assert(0 <= parts[0].part.start);
            assert(e <= x.len());
            assert(detach::splice(x + y, s, e, marker) =~= cut + y);
            assert(inside(cut.len(), len, tail)) by {
                assert forall|i: int|
                    0 <= i < tail.len() && detach::present(len, #[trigger] tail[i]) implies
                    detach::end(len, tail[i]) <= cut.len() by {
                    assert(detach::end(len, tail[i]) <= s);
                }
            }
            lemma_stripped_keeps_rest(cut, y, len, tail);
        } else {
            assert(inside(x.len(), len, tail)) by {
                assert forall|i: int|
                    0 <= i < tail.len() && detach::present(len, #[trigger] tail[i]) implies
                    detach::end(len, tail[i]) <= x.len() by {
                    assert(tail[i] == parts[i + 1]);
                }
            }
            lemma_stripped_keeps_rest(x, y, len, tail);
        }
    }
}

/// A message whose first listed part was replaced: what stands before it, the
/// placeholder, and what follows.
proof fn lemma_stripped_splits(data: Seq<u8>, len: nat, parts: Seq<Keyed>)
    requires
        parts.len() > 0,
        detach::present(len, parts[0]),
        detach::apart(len, parts),
        inside(data.len(), len, parts),
        forall|i: int| 0 <= i < parts.len() ==> 0 <= (#[trigger] parts[i]).part.start,
    ensures
        ({
            let s = detach::first(len, parts[0]);
            let e = detach::end(len, parts[0]);
            let marker = detach::placeholder(parts[0].key);
            &&& 0 <= s < e <= data.len()
            &&& detach::stripped(data, len, parts) == detach::stripped(
                data.take(s),
                len,
                parts.drop_first(),
            ) + (marker + data.skip(e))
        }),
{
    let s = detach::first(len, parts[0]);
    let e = detach::end(len, parts[0]);
    let marker = detach::placeholder(parts[0].key);
    let tail = parts.drop_first();
    lemma_tail_is_apart(len, parts);
    assert(0 <= parts[0].part.start);
    assert(e <= data.len());
    assert forall|i: int| 0 <= i < tail.len() implies 0 <= (#[trigger] tail[i]).part.start by {
        assert(tail[i] == parts[i + 1]);
    }
    assert(detach::splice(data, s, e, marker) =~= data.take(s) + (marker + data.skip(e)));
    assert(data.take(s).len() == s);
    lemma_stripped_keeps_rest(data.take(s), marker + data.skip(e), len, tail);
}

proof fn lemma_restored_keeps_rest(
    x: Seq<u8>,
    y: Seq<u8>,
    list: Seq<Spot>,
    blobs: Seq<Option<Seq<u8>>>,
)
    requires
        fits(x.len() as int, list, blobs),
    ensures
        restored(x + y, list, blobs) == restored(x, list, blobs) + y,
        fits((x + y).len() as int, list, blobs),
    decreases list.len(),
{
    if list.len() > 0 {
        match blobs[list[0].which as int] {
            Some(bytes) => {
                let s = list[0].start as int;
                let e = list[0].end as int;
                assert(detach::splice(x + y, s, e, bytes) =~= detach::splice(x, s, e, bytes) + y);
                assert(detach::splice(x, s, e, bytes).len() == x.len() - (e - s) + bytes.len());
                lemma_restored_keeps_rest(
                    detach::splice(x, s, e, bytes),
                    y,
                    list.drop_first(),
                    blobs,
                );
                assert((detach::splice(x, s, e, bytes) + y).len() == (x + y).len() - (e - s)
                    + bytes.len());
            },
            None => {
                lemma_restored_keeps_rest(x, y, list.drop_first(), blobs);
            },
        }
    }
}

/// The blobs hold what the parts held in the data.
pub open spec fn holds_parts(
    data: Seq<u8>,
    len: nat,
    parts: Seq<Keyed>,
    blobs: Seq<Option<Seq<u8>>>,
    which: int,
) -> bool {
    &&& which + parts.len() <= blobs.len()
    &&& which + parts.len() <= usize::MAX
    &&& forall|i: int|
        0 <= i < parts.len() && detach::present(len, #[trigger] parts[i]) ==> blobs[which + i]
            == Some(data.subrange(detach::first(len, parts[i]), detach::end(len, parts[i])))
}

proof fn lemma_restoring_placed(
    data: Seq<u8>,
    len: nat,
    parts: Seq<Keyed>,
    blobs: Seq<Option<Seq<u8>>>,
    which: int,
)
    requires
        0 <= which,
        detach::apart(len, parts),
        inside(data.len(), len, parts),
        forall|i: int| 0 <= i < parts.len() ==> 0 <= (#[trigger] parts[i]).part.start,
        holds_parts(data, len, parts, blobs, which),
        detach::stripped(data, len, parts).len() <= usize::MAX,
    ensures
        fits(
            detach::stripped(data, len, parts).len() as int,
            placed(data, len, parts, which),
            blobs,
        ),
        restored(detach::stripped(data, len, parts), placed(data, len, parts, which), blobs)
            == data,
    decreases parts.len(),
{
    if parts.len() > 0 {
        let tail = parts.drop_first();
        lemma_tail_is_apart(len, parts);
        assert forall|i: int| 0 <= i < tail.len() implies 0 <= (#[trigger] tail[i]).part.start by {
            assert(tail[i] == parts[i + 1]);
        }
        if detach::present(len, parts[0]) {
            lemma_stripped_splits(data, len, parts);
            let s = detach::first(len, parts[0]);
            let e = detach::end(len, parts[0]);
            let marker = detach::placeholder(parts[0].key);
            let before = data.take(s);
            let head = detach::stripped(before, len, tail);
            let whole = detach::stripped(data, len, parts);
            let n = head.len() as int;
            assert(blobs[which + 0] == Some(data.subrange(s, e)));
            assert(holds_parts(before, len, tail, blobs, which + 1)) by {
                assert forall|i: int|
                    0 <= i < tail.len() && detach::present(len, #[trigger] tail[i]) implies blobs[
                which + 1 + i] == Some(
                    before.subrange(detach::first(len, tail[i]), detach::end(len, tail[i])),
                ) by {
                    assert(tail[i] == parts[i + 1]);
                    assert(blobs[which + (i + 1)] == Some(
                        data.subrange(detach::first(len, tail[i]), detach::end(len, tail[i])),
                    ));
                    assert(0 <= tail[i].part.start);
                    assert(detach::end(len, tail[i]) <= s);
                    assert(before.subrange(detach::first(len, tail[i]), detach::end(len, tail[i]))
                        =~= data.subrange(detach::first(len, tail[i]), detach::end(len, tail[i])));
                }
            }
            lemma_restoring_placed(before, len, tail, blobs, which + 1);
            let rest = placed(before, len, tail, which + 1);
            let all = placed(data, len, parts, which);
            assert(all[0].start == n && all[0].end == n + marker.len() && all[0].which == which);
            assert(all.drop_first() =~= rest);
            let once = detach::splice(whole, n, n + marker.len() as int, data.subrange(s, e));
            assert(once =~= head + data.skip(s));
            lemma_restored_keeps_rest(head, data.skip(s), rest, blobs);
            assert(before + data.skip(s) =~= data);
            assert(once.len() == whole.len() - marker.len() + (e - s));
        } else {
            assert(inside(data.len(), len, tail)) by {
                assert forall|i: int|
                    0 <= i < tail.len() && detach::present(len, #[trigger] tail[i]) implies
                    detach::end(len, tail[i]) <= data.len() by {
                    assert(tail[i] == parts[i + 1]);
                }
            }
            assert(holds_parts(data, len, tail, blobs, which + 1)) by {
                assert forall|i: int|
                    0 <= i < tail.len() && detach::present(len, #[trigger] tail[i]) implies blobs[
                which + 1 + i] == Some(
                    data.subrange(detach::first(len, tail[i]), detach::end(len, tail[i])),
                ) by {
                    assert(tail[i] == parts[i + 1]);
                    assert(blobs[which + (i + 1)] == Some(
                        data.subrange(detach::first(len, tail[i]), detach::end(len, tail[i])),
                    ));
                }
            }
            lemma_restoring_placed(data, len, tail, blobs, which + 1);
        }
    }
}

proof fn lemma_placed_is_descending(data: Seq<u8>, len: nat, parts: Seq<Keyed>, which: int)
    requires
        0 <= which,
        detach::apart(len, parts),
        inside(data.len(), len, parts),
        forall|i: int| 0 <= i < parts.len() ==> 0 <= (#[trigger] parts[i]).part.start,
        detach::stripped(data, len, parts).len() <= usize::MAX,
    ensures
        descending(placed(data, len, parts, which)),
        forall|i: int|
            0 <= i < placed(data, len, parts, which).len() ==> (#[trigger] placed(
                data,
                len,
                parts,
                which,
            )[i]).start < detach::stripped(data, len, parts).len(),
    decreases parts.len(),
{
    if parts.len() > 0 {
        let tail = parts.drop_first();
        lemma_tail_is_apart(len, parts);
        assert forall|i: int| 0 <= i < tail.len() implies 0 <= (#[trigger] tail[i]).part.start by {
            assert(tail[i] == parts[i + 1]);
        }
        let all = placed(data, len, parts, which);
        if detach::present(len, parts[0]) {
            lemma_stripped_splits(data, len, parts);
            lemma_marker_is_long(parts[0].key);
            let before = data.take(detach::first(len, parts[0]));
            let rest = placed(before, len, tail, which + 1);
            lemma_placed_is_descending(before, len, tail, which + 1);
            assert(all[0].start == detach::stripped(before, len, tail).len());
            assert forall|i: int| 0 < i < all.len() implies #[trigger] all[i] == rest[i - 1] by {}
        } else {
            assert(inside(data.len(), len, tail)) by {
                assert forall|i: int|
                    0 <= i < tail.len() && detach::present(len, #[trigger] tail[i]) implies
                    detach::end(len, tail[i]) <= data.len() by {
                    assert(tail[i] == parts[i + 1]);
                }
            }
            lemma_placed_is_descending(data, len, tail, which + 1);
        }
    }
}

/// From the last placeholder to the first, no two at the same place.
pub open spec fn descending(list: Seq<Spot>) -> bool {
    forall|i: int, j: int|
        0 <= i < j < list.len() ==> (#[trigger] list[i]).start > (#[trigger] list[j]).start
}

proof fn lemma_place_at_end(list: Seq<Spot>, start: usize, from: int)
    requires
        0 <= from <= list.len(),
        forall|i: int| 0 <= i < list.len() ==> (#[trigger] list[i]).start >= start,
    ensures
        spot_place(list, start, from) == list.len(),
    decreases list.len() - from,
{
    if from < list.len() {
        lemma_place_at_end(list, start, from + 1);
    }
}

proof fn lemma_ordered_keeps_descending(list: Seq<Spot>)
    requires
        descending(list),
    ensures
        ordered(list) == list,
    decreases list.len(),
{
    if list.len() > 0 {
        let before = list.drop_last();
        lemma_ordered_keeps_descending(before);
        lemma_place_at_end(before, list.last().start, 0);
        assert(before.insert(before.len() as int, list.last()) =~= list);
    }
}

proof fn lemma_unambiguous_spots(
    detached: Seq<u8>,
    data: Seq<u8>,
    len: nat,
    parts: Seq<Keyed>,
    which: int,
)
    requires
        unambiguous(detached, data, len, parts),
    ensures
        spots(detached, keys_of(parts), which) == placed(data, len, parts, which),
    decreases parts.len(),
{
    if parts.len() > 0 {
        let tail = parts.drop_first();
        assert(keys_of(parts).drop_first() =~= keys_of(tail));
        assert(keys_of(parts)[0] == parts[0].key);
        let marker = detach::placeholder(parts[0].key);
        let found_at = occurrences(detached, marker, 0);
        let here = spots_at(found_at, marker.len() as int, which);
        if detach::present(len, parts[0]) {
            let before = data.take(detach::first(len, parts[0]));
            lemma_unambiguous_spots(detached, before, len, tail, which + 1);
            let start = detach::stripped(before, len, tail).len();
            assert(here =~= seq![
                Spot {
                    start: start as usize,
                    end: (start + marker.len()) as usize,
                    which: which as usize,
                },
            ]);
        } else {
            lemma_unambiguous_spots(detached, data, len, tail, which + 1);
            assert(here =~= Seq::<Spot>::empty());
            assert(here + placed(data, len, tail, which + 1) =~= placed(
                data,
                len,
                tail,
                which + 1,
            ));
        }
    }
}

/// Putting attachments back undoes detaching them: where the parts of a message lie
/// apart, its blobs hold what the parts held, and every placeholder is found in the
/// stored message exactly where it was put, the message is restored byte for byte.
pub proof fn law_reattaching_undoes_detaching(
    body: Seq<u8>,
    parts: Seq<Keyed>,
    blobs: Seq<Option<Seq<u8>>>,
)
    requires
        detach::apart(body.len(), parts),
        forall|i: int| 0 <= i < parts.len() ==> 0 <= (#[trigger] parts[i]).part.start,
        blobs.len() == parts.len() <= usize::MAX,
        forall|i: int|
            0 <= i < parts.len() && detach::present(body.len(), #[trigger] parts[i]) ==> blobs[i]
                == Some(detach::stored(body, parts[i], false)),
        detach::stripped(body, body.len(), parts).len() <= usize::MAX,
        unambiguous(detach::stripped(body, body.len(), parts), body, body.len(), parts),
    ensures
        ({
            let detached = detach::stripped(body, body.len(), parts);
            let list = ordered(spots(detached, keys_of(parts), 0));
            &&& fits(detached.len() as int, list, blobs)
            &&& restored(detached, list, blobs) == body
        }),
{
    let len = body.len();
    let detached = detach::stripped(body, len, parts);
    assert(holds_parts(body, len, parts, blobs, 0)) by {
        assert forall|i: int|
            0 <= i < parts.len() && detach::present(len, #[trigger] parts[i]) implies blobs[0 + i]
            == Some(body.subrange(detach::first(len, parts[i]), detach::end(len, parts[i]))) by {}
    }
    lemma_unambiguous_spots(detached, body, len, parts, 0);
    lemma_placed_is_descending(body, len, parts, 0);
    lemma_ordered_keeps_descending(placed(body, len, parts, 0));
    lemma_restoring_placed(body, len, parts, blobs, 0);
}

} // verus!
