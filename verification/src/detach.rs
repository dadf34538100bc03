//! Attachments are stored apart from their message; what is left in their place names
//! them.

use crate::blob;
use crate::blob::{AttachmentInfo, DetachedEmail};
use crate::envelope;
use crate::failure;
use crate::failure::{raise, BichonError, ErrorCode};
use crate::mime;
use crate::mime::AttachmentPart;
use crate::text;
use crate::text::{characters, push_text, to_lowercase};
use bytes::Bytes;
use vstd::prelude::*;
use vstd::slice::slice_subrange;

verus! {

/// An attachment with the key that it is stored under, the extension of its name, and
/// whether its text may be extracted.
#[derive(Debug, PartialEq, Eq)]
pub struct KeyedPart {
    pub part: AttachmentPart,
    pub key: String,
    pub ext: String,
    pub eligible: bool,
}

/// The view of a [`KeyedPart`].
#[verifier::ext_equal]
pub ghost struct Keyed {
    pub part: mime::Part,
    pub key: Seq<char>,
    pub ext: Seq<char>,
    pub eligible: bool,
}

impl View for KeyedPart {
    type V = Keyed;

    open spec fn view(&self) -> Keyed {
        Keyed { part: self.part@, key: self.key@, ext: self.ext@, eligible: self.eligible }
    }
}

pub open spec fn keyed(parts: Seq<KeyedPart>) -> Seq<Keyed> {
    parts.map_values(|part: KeyedPart| part@)
}

/// Where a part goes in a list that is ordered from the last offset to the first:
/// behind every part that does not start before it.
pub open spec fn place(list: Seq<Keyed>, start: int, from: int) -> int
    decreases list.len() - from,
{
    if from < list.len() && list[from].part.start >= start {
        place(list, start, from + 1)
    } else {
        from
    }
}

/// Parts from the last offset to the first; equal ones keep their order.
pub open spec fn arranged(list: Seq<Keyed>) -> Seq<Keyed>
    decreases list.len(),
{
    if list.len() == 0 {
        list
    } else {
        let before = arranged(list.drop_last());
        before.insert(place(before, list.last().part.start, 0), list.last())
    }
}

pub open spec fn at_most(n: int, limit: int) -> int {
    if n < limit {
        n
    } else {
        limit
    }
}

/// Where the encoded part starts, within a message of `len` bytes.
pub open spec fn first(len: nat, part: Keyed) -> int {
    at_most(part.part.start, len as int)
}

/// Where the encoded part ends, within a message of `len` bytes.
pub open spec fn end(len: nat, part: Keyed) -> int {
    at_most(part.part.end, len as int)
}

/// The part has bytes in the message.
pub open spec fn present(len: nat, part: Keyed) -> bool {
    first(len, part) < end(len, part)
}

/// What stands in a message in place of a part.
pub open spec fn placeholder(key: Seq<char>) -> Seq<u8> {
    vstd::utf8::encode_utf8("<<BICHON_DETACH_HASH:"@ + key + ">>"@)
}

/// A sequence with the range `start..end` replaced.
pub open spec fn splice(data: Seq<u8>, start: int, end: int, with: Seq<u8>) -> Seq<u8> {
    data.take(start) + with + data.skip(end)
}

/// A message with its parts replaced, from the first of the list on.
pub open spec fn stripped(data: Seq<u8>, len: nat, parts: Seq<Keyed>) -> Seq<u8>
    decreases parts.len(),
{
    if parts.len() == 0 {
        data
    } else if present(len, parts[0]) {
        stripped(
            splice(data, first(len, parts[0]), end(len, parts[0]), placeholder(parts[0].key)),
            len,
            parts.drop_first(),
        )
    } else {
        stripped(data, len, parts.drop_first())
    }
}

/// No part reaches into one that comes before it in the list.
pub open spec fn apart(len: nat, parts: Seq<Keyed>) -> bool {
    forall|i: int, j: int|
        0 <= i < j < parts.len() && present(len, #[trigger] parts[i]) && present(
            len,
            #[trigger] parts[j],
        ) ==> end(len, parts[j]) <= first(len, parts[i])
}

/// Every part still lies inside the message when it is replaced, from the first of the
/// list on.
pub open spec fn cuts_fit(current: int, len: nat, parts: Seq<Keyed>) -> bool
    decreases parts.len(),
{
    if parts.len() == 0 {
        true
    } else if present(len, parts[0]) {
        &&& end(len, parts[0]) <= current
        &&& cuts_fit(
            current - (end(len, parts[0]) - first(len, parts[0])) + placeholder(parts[0].key).len(),
            len,
            parts.drop_first(),
        )
    } else {
        cuts_fit(current, len, parts.drop_first())
    }
}

/// The bytes that a part is stored with: its encoded bytes in the message; without
/// any, its decoded contents where the message is stored as it is.
pub open spec fn stored(body: Seq<u8>, part: Keyed, exact: bool) -> Seq<u8> {
    if present(body.len(), part) {
        body.subrange(first(body.len(), part), end(body.len(), part))
    } else if exact {
        part.part.contents
    } else {
        Seq::empty()
    }
}

/// The bytes copied for the parts from `from` on, after `sum` bytes.
pub open spec fn copied(body: Seq<u8>, parts: Seq<Keyed>, sum: int, exact: bool) -> Result<
    int,
    failure::Failure,
>
    decreases parts.len(),
{
    if parts.len() == 0 {
        Ok(sum)
    } else if !present(body.len(), parts[0]) {
        copied(body, parts.drop_first(), sum, exact)
    } else {
        let next = sum + end(body.len(), parts[0]) - first(body.len(), parts[0]);
        if next > usize::MAX {
            Err(
                failure::failure(
                    ErrorCode::PayloadTooLarge,
                    "attachment working-set size overflow"@,
                ),
            )
        } else if exact && next > body.len() {
            Err(
                failure::failure(
                    ErrorCode::PayloadTooLarge,
                    "overlapping MIME attachment ranges exceed the UIDONLY memory ceiling"@,
                ),
            )
        } else {
            copied(body, parts.drop_first(), next, exact)
        }
    }
}

/// An attachment is inline where its disposition says so, or, without one, where it
/// has a content ID.
pub open spec fn inline(part: mime::Part) -> bool {
    match part.inline {
        Some(inline) => inline,
        None => part.content_id is Some,
    }
}

/// The media type of an attachment as `type/subtype`.
pub open spec fn file_type(part: mime::Part) -> Seq<char> {
    match part.media_type {
        Some(media_type) => media_type + "/"@ + match part.media_subtype {
            Some(subtype) => subtype,
            None => ""@,
        },
        None => "application/octet-stream"@,
    }
}

/// The view of an [`AttachmentInfo`].
#[verifier::ext_equal]
pub ghost struct Info {
    pub filename: Option<Seq<char>>,
    pub size: int,
    pub inline: bool,
    pub file_type: Seq<char>,
    pub content_id: Option<Seq<char>>,
    pub content_hash: Seq<char>,
    pub is_message: bool,
    pub extracted_text: Option<Seq<char>>,
    pub extracted_page_count: Option<u32>,
    pub extracted_is_ocr: bool,
}

impl View for AttachmentInfo {
    type V = Info;

    open spec fn view(&self) -> Info {
        Info {
            filename: mime::seen(self.filename),
            size: self.size as int,
            inline: self.inline,
            file_type: self.file_type@,
            content_id: mime::seen(self.content_id),
            content_hash: self.content_hash@,
            is_message: self.is_message,
            extracted_text: mime::seen(self.extracted_text),
            extracted_page_count: self.extracted_page_count,
            extracted_is_ocr: self.extracted_is_ocr,
        }
    }
}

/// What is remembered of a part before any text was extracted.
pub open spec fn info_of(part: Keyed) -> Info {
    Info {
        filename: part.part.name,
        size: part.part.contents.len() as int,
        inline: inline(part.part),
        file_type: file_type(part.part),
        content_id: part.part.content_id,
        content_hash: part.key,
        is_message: part.part.is_message,
        extracted_text: None,
        extracted_page_count: None,
        extracted_is_ocr: false,
    }
}

/// An attachment whose text is to be extracted.
#[derive(Debug, PartialEq, Eq)]
pub struct TextCandidate {
    pub content_hash: String,
    pub file_type: String,
    pub ext: String,
    pub bytes: Vec<u8>,
}

/// The view of a [`TextCandidate`].
#[verifier::ext_equal]
pub ghost struct Candidate {
    pub content_hash: Seq<char>,
    pub file_type: Seq<char>,
    pub ext: Seq<char>,
    pub bytes: Seq<u8>,
}

impl View for TextCandidate {
    type V = Candidate;

    open spec fn view(&self) -> Candidate {
        Candidate {
            content_hash: self.content_hash@,
            file_type: self.file_type@,
            ext: self.ext@,
            bytes: self.bytes@,
        }
    }
}

pub open spec fn candidate_of(part: Keyed) -> Candidate {
    Candidate {
        content_hash: part.key,
        file_type: file_type(part.part),
        ext: part.ext,
        bytes: part.part.contents,
    }
}

/// The text of a part may be extracted: a regular attachment that is eligible and
/// still within the budget.
pub open spec fn extractable(part: Keyed, budget: Option<usize>, used: int) -> bool {
    &&& !inline(part.part) || part.part.content_id is None
    &&& part.eligible
    &&& match budget {
        None => true,
        Some(budget) => budget > 0 && used + part.part.contents.len() <= budget,
    }
}

/// The parts whose text is to be extracted, in order, after `used` bytes.
pub open spec fn candidates(parts: Seq<Keyed>, budget: Option<usize>, used: int) -> Seq<Candidate>
    decreases parts.len(),
{
    if parts.len() == 0 {
        Seq::empty()
    } else if extractable(parts[0], budget, used) {
        seq![candidate_of(parts[0])] + candidates(
            parts.drop_first(),
            budget,
            used + parts[0].part.contents.len(),
        )
    } else {
        candidates(parts.drop_first(), budget, used)
    }
}

/// A message that is ready for the blob store, with what is remembered of its
/// attachments and those whose text is to be extracted.
#[derive(Debug, PartialEq, Eq)]
pub struct PreparedMessage {
    pub infos: Vec<AttachmentInfo>,
    pub detached: DetachedEmail,
    pub candidates: Vec<TextCandidate>,
}

pub open spec fn infos_of(infos: Seq<AttachmentInfo>) -> Seq<Info> {
    infos.map_values(|info: AttachmentInfo| info@)
}

pub open spec fn candidates_of(list: Seq<TextCandidate>) -> Seq<Candidate> {
    list.map_values(|candidate: TextCandidate| candidate@)
}

/// Blobs as keys and bytes.
pub open spec fn blobs_of(list: Seq<(String, Bytes)>) -> Seq<(Seq<char>, Seq<u8>)> {
    list.map_values(|entry: (String, Bytes)| (entry.0@, blob::contents(entry.1)))
}

/// The blobs of some parts.
pub open spec fn stored_parts(body: Seq<u8>, parts: Seq<Keyed>, exact: bool) -> Seq<
    (Seq<char>, Seq<u8>),
> {
    parts.map_values(|part: Keyed| (part.key, stored(body, part, exact)))
}

pub open spec fn part_infos(parts: Seq<Keyed>) -> Seq<Info> {
    parts.map_values(|part: Keyed| info_of(part))
}

fn arrange(parts: Vec<KeyedPart>) -> (result: Vec<KeyedPart>)
    ensures
        keyed(result@) == arranged(keyed(parts@)),
{
    let mut result: Vec<KeyedPart> = Vec::new();
    let ghost all = parts@;
    proof {
        assert(keyed(result@) =~= Seq::<Keyed>::empty());
        assert(keyed(all.take(0)) =~= Seq::<Keyed>::empty());
    }
    for part in it: parts
        invariant
            it.seq() == all,
            keyed(result@) == arranged(keyed(all.take(it.index() as int))),
    {
        let ghost n = it.index() as int;
        let ghost before = keyed(result@);
        let start: usize = part.part.start;
        let mut at: usize = 0;
        while at < result.len() && result[at].part.start >= start
            invariant
                at <= result@.len(),
                before == keyed(result@),
                place(before, start as int, 0) == place(before, start as int, at as int),
            decreases result.len() - at,
        {
            assert(before[at as int].part.start == result@[at as int].part.start);
            at = at + 1;
        }
        proof {
            if at < result@.len() {
                assert(before[at as int].part.start == result@[at as int].part.start);
            }
            assert(at == place(before, start as int, 0));
            assert(keyed(all.take(n + 1)).drop_last() =~= keyed(all.take(n)));
            assert(keyed(all.take(n + 1)).last() == part@);
        }
        result.insert(at, part);
        assert(keyed(result@) =~= before.insert(at as int, part@));
    }
    assert(all.take(all.len() as int) =~= all);
    result
}

fn smaller(a: usize, b: usize) -> (result: usize)
    ensures
        result == at_most(a as int, b as int),
{
    if a < b {
        a
    } else {
        b
    }
}

pub fn placeholder_bytes(key: &str) -> (bytes: Vec<u8>)
    ensures
        bytes@ == placeholder(key@),
{
    let mut marker = String::new();
    push_text(&mut marker, "<<BICHON_DETACH_HASH:");
    push_text(&mut marker, key);
    push_text(&mut marker, ">>");
    assert(marker@ =~= "<<BICHON_DETACH_HASH:"@ + key@ + ">>"@);
    let mut bytes: Vec<u8> = Vec::new();
    bytes.extend_from_slice(marker.as_str().as_bytes());
    assert(bytes@ =~= placeholder(key@));
    bytes
}

/// A copy of some bytes with the range `start..end` replaced.
pub fn replace_range(data: &[u8], start: usize, end: usize, with: &[u8]) -> (result: Vec<u8>)
    requires
        start <= end <= data@.len(),
    ensures
        result@ == splice(data@, start as int, end as int, with@),
{
    let mut result: Vec<u8> = Vec::new();
    result.extend_from_slice(slice_subrange(data, 0, start));
    result.extend_from_slice(with);
    result.extend_from_slice(slice_subrange(data, end, data.len()));
    assert(result@ =~= splice(data@, start as int, end as int, with@));
    result
}

fn file_type_text(part: &AttachmentPart) -> (result: String)
    ensures
        result@ == file_type(part@),
{
    match &part.media_type {
        None => "application/octet-stream".to_owned(),
        Some(media_type) => {
            let mut result = media_type.as_str().to_owned();
            push_text(&mut result, "/");
            match &part.media_subtype {
                Some(subtype) => {
                    push_text(&mut result, subtype.as_str());
                },
                None => {
                    push_text(&mut result, "");
                },
            }
            result
        },
    }
}

fn is_inline(part: &AttachmentPart) -> (result: bool)
    ensures
        result == inline(part@),
{
    match part.inline {
        Some(inline) => inline,
        None => part.content_id.is_some(),
    }
}

pub(crate) fn copy_text(text: &Option<String>) -> (copy: Option<String>)
    ensures
        mime::seen(copy) == mime::seen(*text),
{
    match text {
        Some(text) => Some(text.as_str().to_owned()),
        None => None,
    }
}

fn describe(part: &KeyedPart) -> (info: AttachmentInfo)
    ensures
        info@ == info_of(part@),
{
    let info = AttachmentInfo {
        filename: copy_text(&part.part.name),
        size: part.part.contents.len(),
        inline: is_inline(&part.part),
        file_type: file_type_text(&part.part),
        content_id: copy_text(&part.part.content_id),
        content_hash: part.key.as_str().to_owned(),
        is_message: part.part.is_message,
        extracted_text: None,
        extracted_page_count: None,
        extracted_is_ocr: false,
    };
    assert(info@ =~= info_of(part@));
    info
}

fn copy_bytes(bytes: &[u8]) -> (copy: Vec<u8>)
    ensures
        copy@ == bytes@,
{
    let mut copy: Vec<u8> = Vec::new();
    copy.extend_from_slice(bytes);
    assert(copy@ =~= bytes@);
    copy
}

/// What replacing a part needs to know of it.
#[derive(Clone, Copy)]
struct Cut {
    start: usize,
    end: usize,
    marker_len: usize,
}

spec fn cut_of(part: Keyed) -> Cut {
    Cut {
        start: part.part.start as usize,
        end: part.part.end as usize,
        marker_len: placeholder(part.key).len() as usize,
    }
}

/// The cuts of a message's parts, from the last offset to the first.
fn arrange_cuts(parts: &[KeyedPart]) -> (cuts: Vec<Cut>)
    ensures
        cuts@ == arranged(keyed(parts@)).map_values(|part: Keyed| cut_of(part)),
        forall|i: int|
            0 <= i < arranged(keyed(parts@)).len() ==> plain_part(
                #[trigger] arranged(keyed(parts@))[i],
            ),
{
    let ghost list = keyed(parts@);
    let mut cuts: Vec<Cut> = Vec::new();
    let mut i: usize = 0;
    assert(list.take(0) =~= Seq::<Keyed>::empty());
    while i < parts.len()
        invariant
            i <= parts@.len(),
            list == keyed(parts@),
            cuts@ == arranged(list.take(i as int)).map_values(|part: Keyed| cut_of(part)),
            forall|j: int|
                0 <= j < arranged(list.take(i as int)).len() ==> plain_part(
                    #[trigger] arranged(list.take(i as int))[j],
                ),
        decreases parts.len() - i,
    {
        let ghost before = arranged(list.take(i as int));
        let marker = placeholder_bytes(parts[i].key.as_str());
        let cut = Cut {
            start: parts[i].part.start,
            end: parts[i].part.end,
            marker_len: marker.len(),
        };
        let mut at: usize = 0;
        while at < cuts.len() && cuts[at].start >= cut.start
            invariant
                at <= cuts@.len(),
                cuts@ == before.map_values(|part: Keyed| cut_of(part)),
                forall|j: int| 0 <= j < before.len() ==> plain_part(#[trigger] before[j]),
                place(before, cut.start as int, 0) == place(before, cut.start as int, at as int),
            decreases cuts.len() - at,
        {
            assert(plain_part(before[at as int]));
            assert(cuts@[at as int] == cut_of(before[at as int]));
            at = at + 1;
        }
        proof {
            let part = parts@[i as int]@;
            if at < cuts@.len() {
                assert(plain_part(before[at as int]));
                assert(cuts@[at as int] == cut_of(before[at as int]));
            }
            assert(at == place(before, cut.start as int, 0));
            assert(list.take(i + 1).drop_last() =~= list.take(i as int));
            assert(list.take(i + 1).last() == part);
            assert(plain_part(part));
            assert(cut == cut_of(part));
            let after = before.insert(at as int, part);
            assert(arranged(list.take(i + 1)) == after);
            assert forall|j: int| 0 <= j < after.len() implies plain_part(#[trigger] after[j]) by {
                if j < at {
                    assert(after[j] == before[j]);
                } else if j > at {
                    assert(after[j] == before[j - 1]);
                }
            }
            assert(cuts@.insert(at as int, cut) =~= after.map_values(|part: Keyed| cut_of(part)));
        }
        cuts.insert(at, cut);
        i = i + 1;
    }
    assert(list.take(i as int) =~= list);
    cuts
}

/// The offsets of a part, and the length of what stands for it, are machine integers.
spec fn plain_part(part: Keyed) -> bool {
    &&& 0 <= part.part.start <= usize::MAX
    &&& 0 <= part.part.end <= usize::MAX
    &&& placeholder(part.key).len() <= usize::MAX
}

/// Whether the parts of a message can be replaced one by one, from the last offset to
/// the first: every part still lies inside the message when its turn comes.
pub fn parts_fit(body_len: usize, parts: &[KeyedPart]) -> (result: bool)
    ensures
        result == cuts_fit(body_len as int, body_len as nat, arranged(keyed(parts@))),
{
    let ghost list = arranged(keyed(parts@));
    let ghost len = body_len as nat;
    let cuts = arrange_cuts(parts);
    let mut current: u128 = body_len as u128;
    let mut i: usize = 0;
    assert(list.skip(0) =~= list);
    while i < cuts.len()
        invariant
            i <= cuts@.len(),
            list == arranged(keyed(parts@)),
            len == body_len,
            cuts@ == list.map_values(|part: Keyed| cut_of(part)),
            forall|j: int| 0 <= j < list.len() ==> plain_part(#[trigger] list[j]),
            current <= (i + 1) * usize::MAX,
            cuts_fit(current as int, len, list.skip(i as int)) == cuts_fit(
                body_len as int,
                len,
                list,
            ),
        decreases cuts.len() - i,
    {
        let cut = cuts[i];
        proof {
            assert(plain_part(list[i as int]));
            assert(cut == cut_of(list[i as int]));
            assert(list.skip(i as int)[0] == list[i as int]);
            assert(list.skip(i as int).drop_first() =~= list.skip(i + 1));
            assert((i + 2) * usize::MAX == (i + 1) * usize::MAX + usize::MAX) by (nonlinear_arith);
            assert((i + 2) * usize::MAX <= 0xffff_ffff_ffff_ffff_ffff_ffff_ffff_ffff)
                by (nonlinear_arith)
                requires
                    i < usize::MAX,
                    usize::MAX <= 0xffff_ffff_ffff_ffff,
            ;
        }
        let start: usize = smaller(cut.start, body_len);
        let stop: usize = smaller(cut.end, body_len);
        if start < stop {
            if stop as u128 > current {
                return false;
            }
            current = current - (stop - start) as u128 + cut.marker_len as u128;
        }
        i = i + 1;
    }
    assert(list.skip(i as int) =~= Seq::<Keyed>::empty());
    true
}

/// Parts that lie apart can always be replaced one by one.
pub proof fn law_separate_parts_fit(current: int, len: nat, parts: Seq<Keyed>)
    requires
        apart(len, parts),
        forall|i: int|
            0 <= i < parts.len() && present(len, #[trigger] parts[i]) ==> end(len, parts[i])
                <= current,
    ensures
        cuts_fit(current, len, parts),
    decreases parts.len(),
{
    if parts.len() > 0 {
        let tail = parts.drop_first();
        assert(apart(len, tail)) by {
            assert forall|i: int, j: int|
                0 <= i < j < tail.len() && present(len, #[trigger] tail[i]) && present(
                    len,
                    #[trigger] tail[j],
                ) implies end(len, tail[j]) <= first(len, tail[i]) by {
                assert(parts[i + 1] == tail[i] && parts[j + 1] == tail[j]);
            }
        }
        let next = if present(len, parts[0]) {
            current - (end(len, parts[0]) - first(len, parts[0])) + placeholder(parts[0].key).len()
        } else {
            current
        };
        assert forall|i: int| 0 <= i < tail.len() && present(len, #[trigger] tail[i]) implies end(
            len,
            tail[i],
        ) <= next by {
            assert(parts[i + 1] == tail[i]);
            if present(len, parts[0]) {
                assert(present(len, parts[i + 1]));
                assert(end(len, parts[i + 1]) <= first(len, parts[0]));
                assert(present(len, parts[0]) && end(len, parts[0]) <= current);
            }
        }
        law_separate_parts_fit(next, len, tail);
    }
}

/// The encoded bytes that are copied out of a message.
pub open spec fn encoded(body: Seq<u8>, parts: Seq<Keyed>) -> int
    decreases parts.len(),
{
    if parts.len() == 0 {
        0
    } else if present(body.len(), parts[0]) {
        end(body.len(), parts[0]) - first(body.len(), parts[0]) + encoded(body, parts.drop_first())
    } else {
        encoded(body, parts.drop_first())
    }
}

/// The attachments of a message that is kept exactly never copy more of it than there
/// is.
pub proof fn law_exact_copies_fit_the_message(body: Seq<u8>, parts: Seq<Keyed>, sum: int)
    requires
        0 <= sum <= body.len(),
        copied(body, parts, sum, true) is Ok,
    ensures
        copied(body, parts, sum, true) == Ok::<int, failure::Failure>(sum + encoded(body, parts)),
        sum + encoded(body, parts) <= body.len(),
    decreases parts.len(),
{
    if parts.len() > 0 {
        if present(body.len(), parts[0]) {
            law_exact_copies_fit_the_message(
                body,
                parts.drop_first(),
                sum + end(body.len(), parts[0]) - first(body.len(), parts[0]),
            );
        } else {
            law_exact_copies_fit_the_message(body, parts.drop_first(), sum);
        }
    }
}

/// Without an extraction budget above zero, nothing is extracted.
pub proof fn law_no_budget_extracts_nothing(parts: Seq<Keyed>, used: int)
    ensures
        candidates(parts, Some(0), used) == Seq::<Candidate>::empty(),
    decreases parts.len(),
{
    if parts.len() > 0 {
        law_no_budget_extracts_nothing(parts.drop_first(), used);
    }
}

/// From the last offset to the first.
pub open spec fn descends(list: Seq<Keyed>) -> bool {
    forall|i: int, j: int|
        0 <= i < j < list.len() ==> (#[trigger] list[i]).part.start >= (#[trigger] list[j]).part.start
}

proof fn lemma_place_separates(list: Seq<Keyed>, start: int, from: int)
    requires
        0 <= from <= list.len(),
        descends(list),
        forall|i: int| 0 <= i < from ==> (#[trigger] list[i]).part.start >= start,
    ensures
        ({
            let at = place(list, start, from);
            &&& from <= at <= list.len()
            &&& forall|i: int| 0 <= i < at ==> (#[trigger] list[i]).part.start >= start
            &&& forall|i: int| at <= i < list.len() ==> (#[trigger] list[i]).part.start < start
        }),
    decreases list.len() - from,
{
    if from < list.len() && list[from].part.start >= start {
        lemma_place_separates(list, start, from + 1);
    }
}

/// Arranging loses and adds no part, and orders them from the last offset to the first.
pub proof fn law_arranging_orders_the_parts(list: Seq<Keyed>)
    ensures
        arranged(list).to_multiset() == list.to_multiset(),
        arranged(list).len() == list.len(),
        descends(arranged(list)),
    decreases list.len(),
{
    broadcast use vstd::seq_lib::group_to_multiset_ensures;

    if list.len() > 0 {
        let before = arranged(list.drop_last());
        let part = list.last();
        law_arranging_orders_the_parts(list.drop_last());
        lemma_place_separates(before, part.part.start, 0);
        let at = place(before, part.part.start, 0);
        let after = before.insert(at, part);
        assert(list =~= list.drop_last().push(part));
        vstd::seq_lib::to_multiset_insert(before, at, part);
        assert forall|i: int, j: int| 0 <= i < j < after.len() implies (
        #[trigger] after[i]).part.start >= (#[trigger] after[j]).part.start by {
            let a = if i < at {
                i
            } else {
                i - 1
            };
            let b = if j < at {
                j
            } else {
                j - 1
            };
            if i != at {
                assert(after[i] == before[a]);
            }
            if j != at {
                assert(after[j] == before[b]);
            }
        }
    }
}

fn check_copied(body: &[u8], parts: &[KeyedPart], exact: bool) -> (result: Result<(), BichonError>)
    ensures
        match result {
            Ok(()) => copied(body@, keyed(parts@), 0, exact) is Ok,
            Err(e) => copied(body@, keyed(parts@), 0, exact) == Err::<int, failure::Failure>(e@),
        },
{
    let ghost list = keyed(parts@);
    let mut sum: usize = 0;
    let mut i: usize = 0;
    assert(list.skip(0) =~= list);
    while i < parts.len()
        invariant
            i <= parts@.len(),
            list == keyed(parts@),
            copied(body@, list, 0, exact) == copied(
                body@,
                list.skip(i as int),
                sum as int,
                exact,
            ),
        decreases parts.len() - i,
    {
        proof {
            assert(list.skip(i as int)[0] == parts@[i as int]@);
            assert(list.skip(i as int).drop_first() =~= list.skip(i + 1));
        }
        let start: usize = smaller(parts[i].part.start, body.len());
        let stop: usize = smaller(parts[i].part.end, body.len());
        if start < stop {
            sum = match sum.checked_add(stop - start) {
                None => {
                    return Err(
                        raise(
                            ErrorCode::PayloadTooLarge,
                            "attachment working-set size overflow",
                        ),
                    );
                },
                Some(next) => next,
            };
            if exact && sum > body.len() {
                return Err(
                    raise(
                        ErrorCode::PayloadTooLarge,
                        "overlapping MIME attachment ranges exceed the UIDONLY memory ceiling",
                    ),
                );
            }
        }
        i = i + 1;
    }
    assert(list.skip(i as int) =~= Seq::<Keyed>::empty());
    Ok(())
}

fn strip(body: &[u8], parts: &[KeyedPart]) -> (result: Vec<u8>)
    requires
        cuts_fit(body@.len() as int, body@.len(), keyed(parts@)),
    ensures
        result@ == stripped(body@, body@.len(), keyed(parts@)),
{
    let ghost list = keyed(parts@);
    let ghost len = body@.len();
    let mut data = copy_bytes(body);
    let mut i: usize = 0;
    assert(list.skip(0) =~= list);
    while i < parts.len()
        invariant
            i <= parts@.len(),
            list == keyed(parts@),
            len == body@.len(),
            cuts_fit(data@.len() as int, len, list.skip(i as int)),
            stripped(body@, len, list) == stripped(data@, len, list.skip(i as int)),
        decreases parts.len() - i,
    {
        proof {
            assert(list[i as int] == parts@[i as int]@);
            assert(list.skip(i as int)[0] == list[i as int]);
            assert(list.skip(i as int).drop_first() =~= list.skip(i + 1));
        }
        let start: usize = smaller(parts[i].part.start, body.len());
        let stop: usize = smaller(parts[i].part.end, body.len());
        if start < stop {
            let marker = placeholder_bytes(parts[i].key.as_str());
            assert(present(len, list[i as int]));
            data = replace_range(data.as_slice(), start, stop, marker.as_slice());
        }
        i = i + 1;
    }
    assert(list.skip(i as int) =~= Seq::<Keyed>::empty());
    data
}

fn store_parts(body: &[u8], parts: &[KeyedPart], exact: bool) -> (blobs: Vec<(String, Bytes)>)
    ensures
        blobs_of(blobs@) == stored_parts(body@, keyed(parts@), exact),
{
    let ghost list = keyed(parts@);
    let mut blobs: Vec<(String, Bytes)> = Vec::new();
    let mut i: usize = 0;
    while i < parts.len()
        invariant
            i <= parts@.len(),
            list == keyed(parts@),
            blobs_of(blobs@) == stored_parts(body@, list.take(i as int), exact),
        decreases parts.len() - i,
    {
        assert(list[i as int] == parts@[i as int]@);
        let start: usize = smaller(parts[i].part.start, body.len());
        let stop: usize = smaller(parts[i].part.end, body.len());
        let bytes = if start < stop {
            blob::copy_of(slice_subrange(body, start, stop))
        } else if exact {
            blob::copy_of(parts[i].part.contents.as_slice())
        } else {
            blob::empty()
        };
        assert(blob::contents(bytes) == stored(body@, list[i as int], exact));
        let ghost before = blobs_of(blobs@);
        let entry = (parts[i].key.as_str().to_owned(), bytes);
        blobs.push(entry);
        proof {
            assert(blobs_of(blobs@) =~= before.push((entry.0@, blob::contents(entry.1))));
            assert(stored_parts(body@, list.take(i + 1), exact) =~= stored_parts(
                body@,
                list.take(i as int),
                exact,
            ).push((list[i as int].key, stored(body@, list[i as int], exact))));
        }
        i = i + 1;
    }
    assert(list.take(i as int) =~= list);
    blobs
}

fn describe_parts(parts: &[KeyedPart]) -> (infos: Vec<AttachmentInfo>)
    ensures
        infos_of(infos@) == part_infos(keyed(parts@)),
{
    let ghost list = keyed(parts@);
    let mut infos: Vec<AttachmentInfo> = Vec::new();
    let mut i: usize = 0;
    while i < parts.len()
        invariant
            i <= parts@.len(),
            list == keyed(parts@),
            infos_of(infos@) == part_infos(list.take(i as int)),
        decreases parts.len() - i,
    {
        assert(list[i as int] == parts@[i as int]@);
        let ghost before = infos_of(infos@);
        let info = describe(&parts[i]);
        infos.push(info);
        proof {
            assert(infos_of(infos@) =~= before.push(info@));
            assert(part_infos(list.take(i + 1)) =~= part_infos(list.take(i as int)).push(
                info_of(list[i as int]),
            ));
        }
        i = i + 1;
    }
    assert(list.take(i as int) =~= list);
    infos
}

fn is_extractable(part: &KeyedPart, budget: Option<usize>, used: usize) -> (result: bool)
    ensures
        result == extractable(part@, budget, used as int),
{
    if is_inline(&part.part) && part.part.content_id.is_some() {
        return false;
    }
    if !part.eligible {
        return false;
    }
    match budget {
        None => true,
        Some(budget) => budget > 0 && part.part.contents.len() <= budget && used <= budget
            - part.part.contents.len(),
    }
}

fn choose_candidates(parts: &[KeyedPart], budget: Option<usize>) -> (result: Vec<TextCandidate>)
    ensures
        candidates_of(result@) == candidates(keyed(parts@), budget, 0),
{
    let ghost list = keyed(parts@);
    let mut result: Vec<TextCandidate> = Vec::new();
    let mut used: usize = 0;
    let mut i: usize = 0;
    let ghost mut sum: int = 0;
    proof {
        assert(list.skip(0) =~= list);
        assert(candidates_of(result@) + candidates(list, budget, 0) =~= candidates(
            list,
            budget,
            0,
        ));
    }
    while i < parts.len()
        invariant
            i <= parts@.len(),
            list == keyed(parts@),
            budget is Some ==> used == sum,
            candidates(list, budget, 0) == candidates_of(result@) + candidates(
                list.skip(i as int),
                budget,
                sum,
            ),
        decreases parts.len() - i,
    {
        let ghost rest = list.skip(i as int);
        proof {
            assert(rest[0] == parts@[i as int]@);
            assert(rest.drop_first() =~= list.skip(i + 1));
            assert(budget is None ==> extractable(rest[0], budget, sum) == extractable(
                rest[0],
                budget,
                used as int,
            ));
        }
        if is_extractable(&parts[i], budget, used) {
            let ghost before = candidates_of(result@);
            let candidate = TextCandidate {
                content_hash: parts[i].key.as_str().to_owned(),
                file_type: file_type_text(&parts[i].part),
                ext: parts[i].ext.as_str().to_owned(),
                bytes: copy_bytes(parts[i].part.contents.as_slice()),
            };
            assert(candidate@ =~= candidate_of(rest[0]));
            result.push(candidate);
            if budget.is_some() {
                used = used + parts[i].part.contents.len();
            }
            proof {
                sum = sum + rest[0].part.contents.len();
                assert(candidates_of(result@) =~= before.push(candidate@));
                assert(before + (seq![candidate@] + candidates(list.skip(i + 1), budget, sum))
                    =~= before.push(candidate@) + candidates(list.skip(i + 1), budget, sum));
            }
        }
        i = i + 1;
    }
    proof {
        assert(list.skip(i as int) =~= Seq::<Keyed>::empty());
        assert(candidates_of(result@) + candidates(list.skip(i as int), budget, sum)
            =~= candidates_of(result@));
    }
    result
}

/// A message is taken apart, or refused because its parts are too large.
pub open spec fn prepared_from(
    body: Seq<u8>,
    list: Seq<Keyed>,
    content_hash: Seq<char>,
    exact_raw_key: Seq<char>,
    budget: Option<usize>,
    result: Result<PreparedMessage, BichonError>,
) -> bool {
    let exact = budget is Some;
    match result {
        Err(e) => copied(body, list, 0, exact) == Err::<int, failure::Failure>(e@),
        Ok(prepared) => {
            let email = prepared.detached.email;
            &&& copied(body, list, 0, exact) is Ok
            &&& infos_of(prepared.infos@) == part_infos(list)
            &&& candidates_of(prepared.candidates@) == candidates(list, budget, 0)
            &&& blobs_of(prepared.detached.attachments@) == stored_parts(body, list, exact)
            &&& exact ==> email.0@ == exact_raw_key && blob::contents(email.1) == body
            &&& !exact ==> email.0@ == content_hash && blob::contents(email.1) == stripped(
                body,
                body.len(),
                list,
            )
        },
    }
}

/// Takes the attachments of a message apart. With an extraction budget the message is
/// kept exactly as it is, under `exact_raw_key`; without one, its attachments are
/// replaced by placeholders and it is kept under its content hash.
pub fn prepare_detached_attachments(
    original_body: &[u8],
    parts: Vec<KeyedPart>,
    eml_content_hash: &str,
    exact_raw_key: &str,
    extraction_budget: Option<usize>,
) -> (result: Result<PreparedMessage, BichonError>)
    requires
        extraction_budget is None ==> cuts_fit(
            original_body@.len() as int,
            original_body@.len(),
            arranged(keyed(parts@)),
        ),
    ensures
        prepared_from(
            original_body@,
            arranged(keyed(parts@)),
            eml_content_hash@,
            exact_raw_key@,
            extraction_budget,
            result,
        ),
{
    let exact = extraction_budget.is_some();
    let parts = arrange(parts);
    match check_copied(original_body, parts.as_slice(), exact) {
        Err(e) => {
            return Err(e);
        },
        Ok(()) => {},
    }
    let attachments = store_parts(original_body, parts.as_slice(), exact);
    let infos = describe_parts(parts.as_slice());
    let candidates = choose_candidates(parts.as_slice(), extraction_budget);
    let email = if exact {
        (exact_raw_key.to_owned(), blob::copy_of(original_body))
    } else {
        (
            eml_content_hash.to_owned(),
            blob::owning(strip(original_body, parts.as_slice())),
        )
    };
    Ok(PreparedMessage { infos, detached: DetachedEmail { email, attachments }, candidates })
}

/// The bytes whose hash an exact attachment is keyed by: its encoded bytes where its
/// offsets are sound, else its decoded contents.
pub open spec fn hashed(body: Seq<u8>, start: int, end: int, decoded: Seq<u8>) -> Seq<u8> {
    if start < end && end <= body.len() {
        body.subrange(start, end)
    } else {
        decoded
    }
}

/// The storage key of an attachment that is kept exactly: made by `blob_key` from the
/// content hash of its encoded bytes.
pub fn uidonly_attachment_storage_hash<H: Fn(&[u8]) -> String, K: Fn(&str) -> String>(
    original_body: &[u8],
    raw_start: usize,
    raw_end: usize,
    decoded: &[u8],
    compute_content_hash: &H,
    blob_key: &K,
) -> (key: String)
    requires
        forall|bytes: &[u8]| #[trigger] compute_content_hash.requires((bytes,)),
        forall|hash: &str| #[trigger] blob_key.requires((hash,)),
    ensures
        exists|bytes: &[u8], hash: String, text: &str|
            {
                &&& bytes@ == hashed(original_body@, raw_start as int, raw_end as int, decoded@)
                &&& #[trigger] compute_content_hash.ensures((bytes,), hash)
                &&& text@ == hash@
                &&& #[trigger] blob_key.ensures((text,), key)
            },
{
    let bytes = if raw_start < raw_end && raw_end <= original_body.len() {
        slice_subrange(original_body, raw_start, raw_end)
    } else {
        decoded
    };
    let hash = compute_content_hash(bytes);
    let text = hash.as_str();
    let key = blob_key(text);
    assert(compute_content_hash.ensures((bytes,), hash) && text@ == hash@ && blob_key.ensures(
        (text,),
        key,
    ));
    key
}

/// The key of an attachment: for an exact message made from its encoded bytes, else the
/// content hash of its decoded contents.
pub open spec fn keyed_by<H: Fn(&[u8]) -> String, K: Fn(&str) -> String>(
    body: Seq<u8>,
    part: mime::Part,
    exact: bool,
    compute_content_hash: H,
    blob_key: K,
    key: String,
) -> bool {
    if exact {
        exists|bytes: &[u8], hash: String, text: &str|
            {
                &&& bytes@ == hashed(body, part.start, part.end, part.contents)
                &&& #[trigger] compute_content_hash.ensures((bytes,), hash)
                &&& text@ == hash@
                &&& #[trigger] blob_key.ensures((text,), key)
            }
    } else {
        exists|bytes: &[u8]|
            bytes@ == part.contents && #[trigger] compute_content_hash.ensures((bytes,), key)
    }
}

/// The part of a name behind its last slash.
pub open spec fn file_part(name: Seq<char>) -> Seq<char>
    decreases name.len(),
{
    if name.len() == 0 || name.last() == '/' {
        Seq::empty()
    } else {
        file_part(name.drop_last()).push(name.last())
    }
}

/// A name that every system takes apart alike: slashes are all that separates its parts, it
/// does not start with two of them, and a file is named behind the last one.
pub open spec fn portable_name(name: Seq<char>) -> bool {
    &&& !name.contains('\\') && !name.contains(':')
    &&& !(name.len() >= 2 && name[0] == '/' && name[1] == '/')
    &&& name.contains('/') ==> file_part(name).len() > 0 && file_part(name) != seq!['.']
}

/// Where the last full stop of a name stands, or -1.
pub open spec fn last_stop(name: Seq<char>) -> int
    decreases name.len(),
{
    if name.len() == 0 {
        -1
    } else if name.last() == '.' {
        name.len() - 1
    } else {
        last_stop(name.drop_last())
    }
}

/// The extension of a name: what follows the last full stop of its file part, unless that
/// starts there or names the directory above.
pub open spec fn extension(name: Seq<char>) -> Option<Seq<char>> {
    let file = file_part(name);
    if last_stop(file) <= 0 || file == seq!['.', '.'] {
        None
    } else {
        Some(file.skip(last_stop(file) + 1))
    }
}

/// `std::path::Path::extension` of a name: the part of the file name after its last full
/// stop; none where there is no file name, no full stop in it, or only one at its start.
/// A slash separates the parts of a path on every system. What a backslash, a colon or two
/// slashes at the start mean depends on the system, and behind a slash at the end or a
/// single full stop the file name is an earlier part, so nothing is said of such names.
#[verifier::external_body]
fn path_extension(name: &str) -> (ext: Option<String>)
    ensures
        portable_name(name@) ==> mime::seen(ext) == extension(name@),
{
    std::path::Path::new(name).extension().and_then(|e| e.to_str()).map(String::from)
}

/// The extension of an attachment's name in small letters, empty where there is none.
pub open spec fn small_extension(name: Option<Seq<char>>) -> Seq<char> {
    match name {
        Some(name) => match extension(name) {
            Some(ext) => text::lowercase(ext),
            None => Seq::empty(),
        },
        None => Seq::empty(),
    }
}

/// A name is missing, or every system takes it apart alike.
pub open spec fn portably_named(name: Option<Seq<char>>) -> bool {
    name matches Some(name) ==> portable_name(name)
}

/// Reads the extension of an attachment's name.
pub fn part_extension(name: &Option<String>) -> (ext: String)
    ensures
        portably_named(mime::seen(*name)) ==> ext@ == small_extension(mime::seen(*name)),
{
    match name {
        None => String::new(),
        Some(name) => match path_extension(name.as_str()) {
            None => String::new(),
            Some(ext) => {
                let letters = characters(ext.as_str());
                to_lowercase(letters.as_slice())
            },
        },
    }
}

/// A part has the extension of its name, and the eligibility that it was found to have in a
/// message from this sender.
pub open spec fn traits_found<T: Fn(&AttachmentPart, &str, Option<&str>) -> bool>(
    part: AttachmentPart,
    sender: Option<Seq<char>>,
    may_extract: T,
    ext: Seq<char>,
    eligible: bool,
) -> bool {
    &&& portably_named(part@.name) ==> ext == small_extension(part@.name)
    &&& exists|shown: &str, from: Option<&str>|
        {
            &&& shown@ == ext
            &&& envelope::seen_ref(from) == sender
            &&& #[trigger] may_extract.ensures((&part, shown, from), eligible)
        }
}

/// Gives the attachments of a message their keys.
pub fn key_parts<
    T: Fn(&AttachmentPart, &str, Option<&str>) -> bool,
    H: Fn(&[u8]) -> String,
    K: Fn(&str) -> String,
>(
    original_body: &[u8],
    parts: Vec<AttachmentPart>,
    sender: Option<&str>,
    exact: bool,
    may_extract: &T,
    compute_content_hash: &H,
    blob_key: &K,
) -> (result: Vec<KeyedPart>)
    requires
        forall|part: &AttachmentPart, ext: &str, sender: Option<&str>| #[trigger]
            may_extract.requires((part, ext, sender)),
        forall|bytes: &[u8]| #[trigger] compute_content_hash.requires((bytes,)),
        forall|hash: &str| #[trigger] blob_key.requires((hash,)),
    ensures
        parts_keyed(
            original_body@,
            parts@,
            envelope::seen_ref(sender),
            exact,
            *may_extract,
            *compute_content_hash,
            *blob_key,
            result@,
        ),
{
    let ghost all = parts@;
    let mut result: Vec<KeyedPart> = Vec::new();
    for part in it: parts
        invariant
            it.seq() == all,
            forall|part: &AttachmentPart, ext: &str, sender: Option<&str>| #[trigger]
                may_extract.requires((part, ext, sender)),
            forall|bytes: &[u8]| #[trigger] compute_content_hash.requires((bytes,)),
            forall|hash: &str| #[trigger] blob_key.requires((hash,)),
            result@.len() == it.index(),
            forall|i: int|
                0 <= i < it.index() ==> part_keyed(
                    original_body@,
                    all[i],
                    envelope::seen_ref(sender),
                    exact,
                    *may_extract,
                    *compute_content_hash,
                    *blob_key,
                    #[trigger] result@[i],
                ),
    {
        let ext = part_extension(&part.name);
        let shown = ext.as_str();
        let eligible = may_extract(&part, shown, sender);
        let key = if exact {
            uidonly_attachment_storage_hash(
                original_body,
                part.start,
                part.end,
                part.contents.as_slice(),
                compute_content_hash,
                blob_key,
            )
        } else {
            let bytes = part.contents.as_slice();
            let key = compute_content_hash(bytes);
            assert(compute_content_hash.ensures((bytes,), key));
            key
        };
        assert(may_extract.ensures((&part, shown, sender), eligible));
        result.push(KeyedPart { part, key, ext, eligible });
    }
    result
}

/// A part has its key, extension and eligibility.
pub open spec fn part_keyed<
    T: Fn(&AttachmentPart, &str, Option<&str>) -> bool,
    H: Fn(&[u8]) -> String,
    K: Fn(&str) -> String,
>(
    body: Seq<u8>,
    part: AttachmentPart,
    sender: Option<Seq<char>>,
    exact: bool,
    may_extract: T,
    compute_content_hash: H,
    blob_key: K,
    result: KeyedPart,
) -> bool {
    &&& result.part == part
    &&& traits_found(part, sender, may_extract, result.ext@, result.eligible)
    &&& keyed_by(body, part@, exact, compute_content_hash, blob_key, result.key)
}

/// All parts have their keys, extensions and eligibility.
pub open spec fn parts_keyed<
    T: Fn(&AttachmentPart, &str, Option<&str>) -> bool,
    H: Fn(&[u8]) -> String,
    K: Fn(&str) -> String,
>(
    body: Seq<u8>,
    parts: Seq<AttachmentPart>,
    sender: Option<Seq<char>>,
    exact: bool,
    may_extract: T,
    compute_content_hash: H,
    blob_key: K,
    result: Seq<KeyedPart>,
) -> bool {
    &&& result.len() == parts.len()
    &&& forall|i: int|
        0 <= i < parts.len() ==> part_keyed(
            body,
            parts[i],
            sender,
            exact,
            may_extract,
            compute_content_hash,
            blob_key,
            #[trigger] result[i],
        )
}

/// Text that was extracted from the attachments with one content hash.
#[derive(Debug, PartialEq, Eq)]
pub struct ExtractedText {
    pub content_hash: String,
    pub text: String,
    pub page_count: Option<u32>,
    pub is_ocr: bool,
}

/// The view of an [`ExtractedText`].
#[verifier::ext_equal]
pub ghost struct Extracted {
    pub content_hash: Seq<char>,
    pub text: Seq<char>,
    pub page_count: Option<u32>,
    pub is_ocr: bool,
}

impl View for ExtractedText {
    type V = Extracted;

    open spec fn view(&self) -> Extracted {
        Extracted {
            content_hash: self.content_hash@,
            text: self.text@,
            page_count: self.page_count,
            is_ocr: self.is_ocr,
        }
    }
}

pub open spec fn extracted_of(list: Seq<ExtractedText>) -> Seq<Extracted> {
    list.map_values(|entry: ExtractedText| entry@)
}

/// The texts that fit into the budget, in order, after `used` bytes.
pub open spec fn accepted(list: Seq<Extracted>, budget: Option<usize>, used: int) -> Seq<Extracted>
    decreases list.len(),
{
    if list.len() == 0 {
        Seq::empty()
    } else {
        let size = vstd::utf8::encode_utf8(list[0].text).len();
        if budget is None || used + size <= budget->0 {
            seq![list[0]] + accepted(list.drop_first(), budget, used + size)
        } else {
            accepted(list.drop_first(), budget, used)
        }
    }
}

/// The last text for a content hash.
pub open spec fn latest(list: Seq<Extracted>, content_hash: Seq<char>) -> Option<Extracted>
    decreases list.len(),
{
    if list.len() == 0 {
        None
    } else if list.last().content_hash == content_hash {
        Some(list.last())
    } else {
        latest(list.drop_last(), content_hash)
    }
}

/// An earlier attachment has the content hash of the one at `i`.
pub open spec fn repeated(infos: Seq<Info>, i: int) -> bool {
    exists|j: int| 0 <= j < i && (#[trigger] infos[j]).content_hash == infos[i].content_hash
}

/// What is remembered of the attachment at `i` once texts were extracted: the first
/// attachment of a content hash gets its text.
pub open spec fn enriched(infos: Seq<Info>, list: Seq<Extracted>, i: int) -> Info {
    match latest(list, infos[i].content_hash) {
        Some(entry) => if repeated(infos, i) {
            infos[i]
        } else {
            Info {
                extracted_text: Some(entry.text),
                extracted_page_count: entry.page_count,
                extracted_is_ocr: entry.is_ocr,
                ..infos[i]
            }
        },
        None => infos[i],
    }
}

fn accept_extracted(list: Vec<ExtractedText>, budget: Option<usize>) -> (result: Vec<ExtractedText>)
    ensures
        extracted_of(result@) == accepted(extracted_of(list@), budget, 0),
{
    let ghost all = list@;
    let ghost views = extracted_of(all);
    let mut result: Vec<ExtractedText> = Vec::new();
    let mut used: usize = 0;
    let ghost mut sum: int = 0;
    proof {
        assert(views.skip(0) =~= views);
        assert(extracted_of(result@) + accepted(views, budget, 0) =~= accepted(views, budget, 0));
    }
    for entry in it: list
        invariant
            it.seq() == all,
            views == extracted_of(all),
            budget is Some ==> used == sum && used <= budget->0,
            accepted(views, budget, 0) == extracted_of(result@) + accepted(
                views.skip(it.index() as int),
                budget,
                sum,
            ),
    {
        let ghost n = it.index() as int;
        let ghost rest = views.skip(n);
        proof {
            assert(rest[0] == entry@);
            assert(rest.drop_first() =~= views.skip(n + 1));
        }
        let size: usize = entry.text.as_str().as_bytes().len();
        let fits = match budget {
            None => true,
            Some(budget) => size <= budget - used,
        };
        if fits {
            let ghost before = extracted_of(result@);
            let ghost view = entry@;
            if budget.is_some() {
                used = used + size;
            }
            result.push(entry);
            proof {
                sum = sum + size;
                assert(extracted_of(result@) =~= before.push(view));
                assert(before + (seq![view] + accepted(views.skip(n + 1), budget, sum))
                    =~= before.push(view) + accepted(views.skip(n + 1), budget, sum));
            }
        }
    }
    proof {
        assert(views.skip(all.len() as int) =~= Seq::<Extracted>::empty());
        assert(extracted_of(result@) + accepted(views.skip(all.len() as int), budget, sum)
            =~= extracted_of(result@));
    }
    result
}

fn find_latest(list: &[ExtractedText], content_hash: &String) -> (result: Option<usize>)
    ensures
        result is Some <==> latest(extracted_of(list@), content_hash@) is Some,
        result matches Some(at) ==> at < list@.len() && latest(extracted_of(list@), content_hash@)
            == Some(list@[at as int]@),
{
    let ghost views = extracted_of(list@);
    let mut end: usize = list.len();
    assert(views.take(end as int) =~= views);
    while end > 0
        invariant
            end <= list@.len(),
            views == extracted_of(list@),
            latest(views, content_hash@) == latest(views.take(end as int), content_hash@),
        decreases end,
    {
        assert(views.take(end as int).last() == list@[end - 1]@);
        assert(views.take(end as int).drop_last() =~= views.take(end - 1));
        if list[end - 1].content_hash == *content_hash {
            return Some(end - 1);
        }
        end = end - 1;
    }
    None
}

/// Adds extracted texts to what is remembered of attachments, within the budget.
pub fn merge_extracted(
    infos: Vec<AttachmentInfo>,
    extracted: Vec<ExtractedText>,
    budget: Option<usize>,
) -> (result: Vec<AttachmentInfo>)
    ensures
        result@.len() == infos@.len(),
        forall|i: int|
            0 <= i < infos@.len() ==> (#[trigger] result@[i])@ == enriched(
                infos_of(infos@),
                accepted(extracted_of(extracted@), budget, 0),
                i,
            ),
{
    let list = accept_extracted(extracted, budget);
    let ghost texts = extracted_of(list@);
    let ghost all = infos@;
    let ghost views = infos_of(all);
    let mut result: Vec<AttachmentInfo> = Vec::new();
    for info in it: infos
        invariant
            it.seq() == all,
            views == infos_of(all),
            texts == extracted_of(list@),
            result@.len() == it.index(),
            forall|i: int|
                0 <= i < it.index() ==> (#[trigger] result@[i])@ == enriched(views, texts, i)
                    && result@[i]@.content_hash == views[i].content_hash,
    {
        let ghost n = it.index() as int;
        assert(views[n] == info@);
        let mut info = info;
        let mut first: bool = true;
        let mut j: usize = 0;
        while j < result.len()
            invariant
                j <= result@.len() == n,
                n < views.len(),
                info@ == views[n],
                forall|i: int|
                    0 <= i < n ==> (#[trigger] result@[i])@.content_hash == views[i].content_hash,
                first == (forall|i: int|
                    0 <= i < j ==> (#[trigger] views[i]).content_hash != views[n].content_hash),
            decreases result.len() - j,
        {
            assert(result@[j as int]@.content_hash == views[j as int].content_hash);
            if result[j].content_hash == info.content_hash {
                assert(views[j as int].content_hash == views[n].content_hash);
                first = false;
            }
            j = j + 1;
        }
        assert(first == !repeated(views, n));
        if first {
            match find_latest(list.as_slice(), &info.content_hash) {
                None => {},
                Some(at) => {
                    info.extracted_text = Some(list[at].text.as_str().to_owned());
                    info.extracted_page_count = list[at].page_count;
                    info.extracted_is_ocr = list[at].is_ocr;
                },
            }
        }
        assert(info@ =~= enriched(views, texts, n));
        result.push(info);
    }
    result
}

} // verus!
