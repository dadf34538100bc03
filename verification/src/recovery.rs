//! Undoing a projection, and recovering a message whose blob is missing.

use crate::detach;
use crate::detach::{
    key_parts, parts_fit, prepare_detached_attachments, uidonly_attachment_storage_hash, KeyedPart,
    PreparedMessage,
};
use crate::envelope;
use crate::envelope::{first_sender, text_ref};
use crate::failure;
use crate::failure::{raise, BichonError, ErrorCode};
use crate::mime;
use crate::mime::{read_addresses, read_parts, AttachmentPart};
use crate::text;
use crate::text::{push_numeral, push_text};
use vstd::prelude::*;

verus! {

/// A key is among some keys.
pub open spec fn among(keys: Seq<String>, key: Seq<char>) -> bool {
    exists|i: int| 0 <= i < keys.len() && (#[trigger] keys[i])@ == key
}

/// No key occurs twice.
pub open spec fn distinct(keys: Seq<String>) -> bool {
    forall|i: int, j: int|
        0 <= i < j < keys.len() ==> (#[trigger] keys[i])@ != (#[trigger] keys[j])@
}

/// A key was found to be one of this archive's.
pub open spec fn told<F: Fn(&str) -> bool>(is_key: F, key: Seq<char>, answer: bool) -> bool {
    exists|s: &str| s@ == key && #[trigger] is_key.ensures((s,), answer)
}

fn contains_key(keys: &Vec<String>, key: &String) -> (result: bool)
    ensures
        result == among(keys@, key@),
{
    let mut i: usize = 0;
    while i < keys.len()
        invariant
            i <= keys@.len(),
            forall|j: int| 0 <= j < i ==> (#[trigger] keys@[j])@ != key@,
        decreases keys.len() - i,
    {
        if keys[i] == *key {
            assert(keys@[i as int]@ == key@);
            return true;
        }
        i = i + 1;
    }
    false
}

/// Adds those of some keys that are this archive's to a set of keys.
pub fn collect_keys<F: Fn(&str) -> bool>(
    keys: Vec<String>,
    candidates: &[String],
    is_key: &F,
) -> (result: Vec<String>)
    requires
        distinct(keys@),
        forall|s: &str| #[trigger] is_key.requires((s,)),
    ensures
        distinct(result@),
        forall|key: Seq<char>|
            #[trigger] among(result@, key) ==> among(keys@, key) || (among(candidates@, key)
                && told(*is_key, key, true)),
        forall|key: Seq<char>| among(keys@, key) ==> #[trigger] among(result@, key),
        forall|key: Seq<char>|
            among(candidates@, key) && !#[trigger] among(result@, key) ==> told(
                *is_key,
                key,
                false,
            ),
{
    let ghost own = keys@;
    let mut result = keys;
    let mut i: usize = 0;
    while i < candidates.len()
        invariant
            i <= candidates@.len(),
            distinct(result@),
            forall|s: &str| #[trigger] is_key.requires((s,)),
            forall|key: Seq<char>|
                #[trigger] among(result@, key) ==> among(own, key) || (among(candidates@, key)
                    && told(*is_key, key, true)),
            forall|key: Seq<char>| among(own, key) ==> #[trigger] among(result@, key),
            forall|j: int|
                0 <= j < i && !among(result@, (#[trigger] candidates@[j])@) ==> told(
                    *is_key,
                    candidates@[j]@,
                    false,
                ),
        decreases candidates.len() - i,
    {
        let candidate = &candidates[i];
        let s = candidate.as_str();
        let answer = is_key(s);
        let ghost before = result@;
        proof {
            assert(is_key.ensures((s,), answer));
            assert(told(*is_key, candidate@, answer));
            assert(among(candidates@, candidate@)) by {
                assert(candidates@[i as int]@ == candidate@);
            }
        }
        if answer && !contains_key(&result, candidate) {
            result.push(candidate.as_str().to_owned());
            proof {
                let n = before.len() as int;
                assert(result@[n]@ == candidate@);
                assert forall|key: Seq<char>| #[trigger] among(result@, key) implies among(own, key)
                    || (among(candidates@, key) && told(*is_key, key, true)) by {
                    let k = choose|k: int| 0 <= k < result@.len() && (#[trigger] result@[k])@ == key;
                    if k < n {
                        assert(before[k]@ == key);
                        assert(among(before, key));
                    }
                }
                assert forall|key: Seq<char>| among(before, key) implies #[trigger] among(
                    result@,
                    key,
                ) by {
                    let k = choose|k: int| 0 <= k < before.len() && (#[trigger] before[k])@ == key;
                    assert(result@[k]@ == key);
                }
                assert(among(result@, candidate@));
                assert forall|a: int, b: int| 0 <= a < b < result@.len() implies (
                #[trigger] result@[a])@ != (#[trigger] result@[b])@ by {
                    if b == n {
                        assert(before[a] == result@[a]);
                        assert(!among(before, candidate@));
                    } else {
                        assert(before[a] == result@[a] && before[b] == result@[b]);
                    }
                }
            }
        }
        i = i + 1;
    }
    proof {
        assert forall|key: Seq<char>|
            among(candidates@, key) && !#[trigger] among(result@, key) implies told(
            *is_key,
            key,
            false,
        ) by {
            let j = choose|j: int| 0 <= j < candidates@.len() && (#[trigger] candidates@[j])@ == key;
            assert(candidates@[j]@ == key);
        }
    }
    result
}

/// Texts with something between them.
pub open spec fn joined(list: Seq<Seq<char>>, between: Seq<char>) -> Seq<char>
    decreases list.len(),
{
    if list.len() == 0 {
        Seq::empty()
    } else if list.len() == 1 {
        list[0]
    } else {
        joined(list.drop_last(), between) + between + list.last()
    }
}

/// What a rollback comes to, with what went wrong on the way.
pub open spec fn rolled_back(errors: Seq<Seq<char>>) -> Result<(), failure::Failure> {
    if errors.len() == 0 {
        Ok(())
    } else {
        Err(
            failure::failure(
                ErrorCode::InternalError,
                "UIDONLY canonical rollback failed: "@ + joined(errors, "; "@),
            ),
        )
    }
}

fn join(list: &[String], between: &str) -> (result: String)
    ensures
        result@ == joined(mime::seen_all(list@), between@),
{
    let ghost all = mime::seen_all(list@);
    let mut result = String::new();
    let mut i: usize = 0;
    assert(result@ =~= joined(all.take(0), between@));
    while i < list.len()
        invariant
            i <= list@.len(),
            all == mime::seen_all(list@),
            result@ == joined(all.take(i as int), between@),
        decreases list.len() - i,
    {
        proof {
            assert(all.take(i + 1).drop_last() =~= all.take(i as int));
            assert(all.take(i + 1).last() == list@[i as int]@);
        }
        let ghost before = result@;
        if i > 0 {
            push_text(&mut result, between);
        }
        push_text(&mut result, list[i].as_str());
        proof {
            if i == 0 {
                assert(result@ =~= list@[0]@);
                assert(all.take(1)[0] == list@[0]@);
            } else {
                assert(result@ =~= before + between@ + list@[i as int]@);
            }
        }
        i = i + 1;
    }
    assert(all.take(i as int) =~= all);
    result
}

/// Says what a rollback came to: the attachments' part of it, then the envelope's. Both
/// are always tried.
pub fn rollback_outcome(
    attachments: Result<(), String>,
    envelope: Result<(), String>,
) -> (result: Result<(), BichonError>)
    ensures
        failure::judged(result) == rolled_back(errors_of(attachments) + errors_of(envelope)),
{
    let mut errors: Vec<String> = Vec::new();
    match attachments {
        Ok(()) => {},
        Err(e) => {
            errors.push(e);
        },
    }
    match envelope {
        Ok(()) => {},
        Err(e) => {
            errors.push(e);
        },
    }
    assert(mime::seen_all(errors@) =~= errors_of(attachments) + errors_of(envelope));
    if errors.len() == 0 {
        return Ok(());
    }
    let mut message = "UIDONLY canonical rollback failed: ".to_owned();
    let list = join(errors.as_slice(), "; ");
    push_text(&mut message, list.as_str());
    Err(raise(ErrorCode::InternalError, message.as_str()))
}

/// The error of a step, if it failed.
pub open spec fn errors_of(outcome: Result<(), String>) -> Seq<Seq<char>> {
    match outcome {
        Ok(_) => Seq::empty(),
        Err(e) => seq![e@],
    }
}

/// The keys of the attachments of a raw message, as they are kept exactly; none where
/// it is no message.
pub fn attachment_keys<H: Fn(&[u8]) -> String, K: Fn(&str) -> String>(
    raw: &[u8],
    compute_content_hash: &H,
    blob_key: &K,
) -> (keys: Vec<String>)
    requires
        forall|bytes: &[u8]| #[trigger] compute_content_hash.requires((bytes,)),
        forall|hash: &str| #[trigger] blob_key.requires((hash,)),
    ensures
        match mime::parsed_parts(raw@) {
            None => keys@.len() == 0,
            Some(parts) => {
                &&& keys@.len() == parts.len()
                &&& forall|i: int|
                    0 <= i < parts.len() ==> detach::keyed_by(
                        raw@,
                        parts[i],
                        true,
                        *compute_content_hash,
                        *blob_key,
                        #[trigger] keys@[i],
                    )
            },
        },
{
    match read_parts(raw) {
        None => Vec::new(),
        Some(parts) => keys_of_parts(raw, parts.as_slice(), compute_content_hash, blob_key),
    }
}

/// The keys of some attachments of a raw message.
pub fn keys_of_parts<H: Fn(&[u8]) -> String, K: Fn(&str) -> String>(
    raw: &[u8],
    parts: &[AttachmentPart],
    compute_content_hash: &H,
    blob_key: &K,
) -> (keys: Vec<String>)
    requires
        forall|bytes: &[u8]| #[trigger] compute_content_hash.requires((bytes,)),
        forall|hash: &str| #[trigger] blob_key.requires((hash,)),
    ensures
        keys@.len() == parts@.len(),
        forall|i: int|
            0 <= i < parts@.len() ==> detach::keyed_by(
                raw@,
                parts@[i]@,
                true,
                *compute_content_hash,
                *blob_key,
                #[trigger] keys@[i],
            ),
{
    let mut keys: Vec<String> = Vec::new();
    let mut i: usize = 0;
    while i < parts.len()
        invariant
            i <= parts@.len(),
            forall|bytes: &[u8]| #[trigger] compute_content_hash.requires((bytes,)),
            forall|hash: &str| #[trigger] blob_key.requires((hash,)),
            keys@.len() == i,
            forall|j: int|
                0 <= j < i ==> detach::keyed_by(
                    raw@,
                    parts@[j]@,
                    true,
                    *compute_content_hash,
                    *blob_key,
                    #[trigger] keys@[j],
                ),
        decreases parts.len() - i,
    {
        let part = &parts[i];
        keys.push(
            uidonly_attachment_storage_hash(
                raw,
                part.start,
                part.end,
                part.contents.as_slice(),
                compute_content_hash,
                blob_key,
            ),
        );
        i = i + 1;
    }
    keys
}

/// What a message recovered from the server comes to.
#[derive(Debug, PartialEq, Eq)]
pub enum Recovery {
    /// Its attachments overlap so that they cannot be replaced.
    Overlapping,
    /// It was taken apart, and goes back into the blob store.
    Restored(PreparedMessage),
}

/// The failure of a message that is not the archived one.
pub open spec fn mismatch(expected: Seq<char>, fetched: Seq<char>) -> failure::Failure {
    failure::failure(
        ErrorCode::ImapUnexpectedResult,
        "Fetched message does not match archived content: expected content_hash="@ + expected
            + " got="@ + fetched,
    )
}

/// What a message that was fetched again comes to.
pub open spec fn recovered<T: Fn(&AttachmentPart, &str, Option<&str>) -> bool, H: Fn(&[u8]) -> String>(
    raw: Seq<u8>,
    expected: Seq<char>,
    fetched: Seq<char>,
    may_extract: T,
    compute_content_hash: H,
    result: Result<Recovery, BichonError>,
) -> bool {
    if expected != fetched {
        failure::judged(result) == Err::<Recovery, failure::Failure>(mismatch(expected, fetched))
    } else if mime::parsed_texts(raw) is None {
        failure::judged(result) == Err::<Recovery, failure::Failure>(
            failure::failure(
                ErrorCode::InternalError,
                "Failed to parse fetched email content"@,
            ),
        )
    } else {
        exists|parts: Seq<AttachmentPart>, keyed: Seq<KeyedPart>|
            {
                let list = detach::arranged(detach::keyed(keyed));
                &&& mime::parsed_parts(raw) == Some(mime::parts_of(parts))
                &&& #[trigger] hashed_parts(raw, parts, may_extract, compute_content_hash, keyed)
                &&& match result {
                    Ok(Recovery::Overlapping) => !detach::cuts_fit(
                        raw.len() as int,
                        raw.len(),
                        list,
                    ),
                    Ok(Recovery::Restored(prepared)) => detach::cuts_fit(
                        raw.len() as int,
                        raw.len(),
                        list,
                    ) && detach::prepared_from(raw, list, fetched, fetched, None, Ok(prepared)),
                    Err(e) => detach::prepared_from(raw, list, fetched, fetched, None, Err(e)),
                }
            }
    }
}

/// The parts have the hashes of their contents as keys.
pub open spec fn hashed_parts<T: Fn(&AttachmentPart, &str, Option<&str>) -> bool, H: Fn(&[u8]) -> String>(
    raw: Seq<u8>,
    parts: Seq<AttachmentPart>,
    may_extract: T,
    compute_content_hash: H,
    keyed: Seq<KeyedPart>,
) -> bool {
    &&& keyed.len() == parts.len()
    &&& forall|i: int|
        0 <= i < parts.len() ==> {
            &&& (#[trigger] keyed[i]).part == parts[i]
            &&& detach::traits_found(
                parts[i],
                envelope::sender(mime::parsed_addresses(raw).unwrap().from),
                may_extract,
                keyed[i].ext@,
                keyed[i].eligible,
            )
            &&& exists|bytes: &[u8]|
                bytes@ == parts[i]@.contents && #[trigger] compute_content_hash.ensures(
                    (bytes,),
                    keyed[i].key,
                )
        }
}

fn copy_key(hash: &str) -> (key: String)
    ensures
        key@ == hash@,
{
    hash.to_owned()
}

/// Takes a message that was fetched again apart, if it is the archived one.
pub fn recover_message_blob<T: Fn(&AttachmentPart, &str, Option<&str>) -> bool, H: Fn(&[u8]) -> String>(
    raw_body: &[u8],
    content_hash: &String,
    fetched_hash: &String,
    may_extract: &T,
    compute_content_hash: &H,
) -> (result: Result<Recovery, BichonError>)
    requires
        forall|part: &AttachmentPart, ext: &str, sender: Option<&str>| #[trigger]
            may_extract.requires((part, ext, sender)),
        forall|bytes: &[u8]| #[trigger] compute_content_hash.requires((bytes,)),
    ensures
        recovered(
            raw_body@,
            content_hash@,
            fetched_hash@,
            *may_extract,
            *compute_content_hash,
            result,
        ),
{
    if *fetched_hash != *content_hash {
        let mut message = String::new();
        push_text(
            &mut message,
            "Fetched message does not match archived content: expected content_hash=",
        );
        push_text(&mut message, content_hash.as_str());
        push_text(&mut message, " got=");
        push_text(&mut message, fetched_hash.as_str());
        assert(message@ =~= mismatch(content_hash@, fetched_hash@).message);
        return Err(raise(ErrorCode::ImapUnexpectedResult, message.as_str()));
    }
    let (parts, addresses) = match (read_parts(raw_body), read_addresses(raw_body)) {
        (Some(parts), Some(addresses)) => (parts, addresses),
        _ => {
            return Err(
                raise(ErrorCode::InternalError, "Failed to parse fetched email content"),
            );
        },
    };
    let sender = first_sender(&addresses);
    let shown = text_ref(&sender);
    let ghost found = parts@;
    let keyed = key_parts(
        raw_body,
        parts,
        shown,
        false,
        may_extract,
        compute_content_hash,
        &copy_key,
    );
    assert(hashed_parts(raw_body@, found, *may_extract, *compute_content_hash, keyed@)) by {
        assert forall|i: int| 0 <= i < found.len() implies {
            &&& (#[trigger] keyed@[i]).part == found[i]
            &&& detach::traits_found(
                found[i],
                envelope::sender(mime::parsed_addresses(raw_body@).unwrap().from),
                *may_extract,
                keyed@[i].ext@,
                keyed@[i].eligible,
            )
            &&& exists|bytes: &[u8]|
                bytes@ == found[i]@.contents && #[trigger] compute_content_hash.ensures(
                    (bytes,),
                    keyed@[i].key,
                )
        } by {
            assert(detach::part_keyed(
                raw_body@,
                found[i],
                envelope::seen_ref(shown),
                false,
                *may_extract,
                *compute_content_hash,
                copy_key,
                keyed@[i],
            ));
        }
    }
    if !parts_fit(raw_body.len(), keyed.as_slice()) {
        return Ok(Recovery::Overlapping);
    }
    match prepare_detached_attachments(
        raw_body,
        keyed,
        fetched_hash.as_str(),
        fetched_hash.as_str(),
        None,
    ) {
        Err(e) => Err(e),
        Ok(prepared) => Ok(Recovery::Restored(prepared)),
    }
}

/// Identifies a message that was fetched again by its content hash, and takes it apart if it
/// is the archived one.
pub fn recover_fetched<
    T: Fn(&AttachmentPart, &str, Option<&str>) -> bool,
    H: Fn(&[u8]) -> String,
>(
    raw_body: &[u8],
    content_hash: &String,
    may_extract: &T,
    compute_content_hash: &H,
) -> (result: Result<Recovery, BichonError>)
    requires
        forall|part: &AttachmentPart, ext: &str, sender: Option<&str>| #[trigger]
            may_extract.requires((part, ext, sender)),
        forall|bytes: &[u8]| #[trigger] compute_content_hash.requires((bytes,)),
    ensures
        exists|bytes: &[u8], hash: String|
            {
                &&& bytes@ == raw_body@
                &&& #[trigger] compute_content_hash.ensures((bytes,), hash)
                &&& recovered(
                    raw_body@,
                    content_hash@,
                    hash@,
                    *may_extract,
                    *compute_content_hash,
                    result,
                )
            },
{
    let hash = compute_content_hash(raw_body);
    assert(compute_content_hash.ensures((raw_body,), hash));
    recover_message_blob(raw_body, content_hash, &hash, may_extract, compute_content_hash)
}

/// What cannot be found.
pub enum Missing<'a> {
    Envelope { account_id: u64, envelope_id: &'a str },
    Content { account_id: u64, envelope_id: &'a str, content_hash: &'a str },
    Mailbox { account_id: u64, mailbox_id: u64 },
}

/// The failure of something that cannot be found.
pub open spec fn not_found(missing: Missing<'_>) -> failure::Failure {
    failure::failure(
        ErrorCode::ResourceNotFound,
        match missing {
            Missing::Envelope { account_id, envelope_id } => "Envelope not found: account_id="@
                + text::numeral(account_id as nat) + " envelope_id="@ + envelope_id@,
            Missing::Content { account_id, envelope_id, content_hash } =>
                "Original email content not found: account_id="@ + text::numeral(
                account_id as nat,
            ) + " envelope_id="@ + envelope_id@ + " content_hash="@ + content_hash@,
            Missing::Mailbox { account_id, mailbox_id } => "Mailbox not found: account_id="@
                + text::numeral(account_id as nat) + " mailbox_id="@ + text::numeral(
                mailbox_id as nat,
            ),
        },
    )
}

/// The error of something that cannot be found.
pub fn missing_error(missing: Missing<'_>) -> (error: BichonError)
    ensures
        error@ == not_found(missing),
{
    let mut message = String::new();
    match missing {
        Missing::Envelope { account_id, envelope_id } => {
            push_text(&mut message, "Envelope not found: account_id=");
            push_numeral(&mut message, account_id);
            push_text(&mut message, " envelope_id=");
            push_text(&mut message, envelope_id);
        },
        Missing::Content { account_id, envelope_id, content_hash } => {
            push_text(&mut message, "Original email content not found: account_id=");
            push_numeral(&mut message, account_id);
            push_text(&mut message, " envelope_id=");
            push_text(&mut message, envelope_id);
            push_text(&mut message, " content_hash=");
            push_text(&mut message, content_hash);
        },
        Missing::Mailbox { account_id, mailbox_id } => {
            push_text(&mut message, "Mailbox not found: account_id=");
            push_numeral(&mut message, account_id);
            push_text(&mut message, " mailbox_id=");
            push_numeral(&mut message, mailbox_id);
        },
    }
    assert(message@ =~= not_found(missing).message);
    raise(ErrorCode::ResourceNotFound, message.as_str())
}

/// What a reader is given once a message with a missing blob was fetched again: the message,
/// or, whatever went wrong, that its content is not found.
pub fn healed<B>(
    outcome: Result<B, BichonError>,
    account_id: u64,
    envelope_id: &str,
    content_hash: &str,
) -> (result: Result<B, BichonError>)
    ensures
        failure::judged(result) == match outcome {
            Ok(body) => Ok(body),
            Err(_) => Err(
                not_found((Missing::Content { account_id, envelope_id, content_hash })),
            ),
        },
{
    match outcome {
        Ok(body) => Ok(body),
        Err(_) => Err(missing_error(Missing::Content { account_id, envelope_id, content_hash })),
    }
}

} // verus!
