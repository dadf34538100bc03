//! A message is projected into the archive: its blobs, its envelope and the records of
//! its attachments.

use crate::blob;
use crate::blob::{AttachmentInfo, DetachedEmail};
use crate::detach;
use crate::detach::{
    key_parts, parts_fit, prepare_detached_attachments, Info, KeyedPart, PreparedMessage,
};
use crate::envelope;
use crate::envelope::{
    assemble, choose_subject, choose_text, compute_thread_id, count_regular, envelope_id,
    first_sender, record_attachments, rule_question, text_ref, validate_tags, Arrival, AttachmentRecord, Envelope,
    FileClass, Indexed, Names, RuleQuestion, Said, DURABLE_TEXT_BYTES, PREVIEW_LIMIT,
};
use crate::commit::{Commit, Plan, Step};
use crate::failure;
use crate::failure::{raise, BichonError, ErrorCode};
use crate::mime;
use crate::mime::{
    read_addresses, read_ids, read_parts, read_raw_headers, read_texts, Addresses, AttachmentPart,
    Headers, Ids, MessageAddresses, MessageIds, MessageTexts, RawHeaders, Texts,
};
use crate::text;
use crate::text::{push_numeral, push_text};
use crate::words;
use crate::words::{normalize_whitespace, preview_of};
use vstd::prelude::*;

verus! {

/// The tags of a message: those that its metadata lists, if they are good.
pub open spec fn chosen_tags<M: Fn(&str) -> Option<Vec<String>>>(
    headers: Headers,
    parse_metadata: M,
    tags: Option<Seq<Seq<char>>>,
) -> bool {
    match headers.metadata {
        None => tags is None,
        Some(metadata) => exists|header: &str, out: Option<Vec<String>>|
            {
                &&& header@ == metadata
                &&& #[trigger] parse_metadata.ensures((header,), out)
                &&& tags == envelope::kept_tags(mime::seen_list(out))
            },
    }
}

/// Chooses the tags of a message.
pub fn choose_tags<M: Fn(&str) -> Option<Vec<String>>>(
    headers: &RawHeaders,
    parse_metadata: &M,
) -> (tags: Option<Vec<String>>)
    requires
        forall|header: &str| #[trigger] parse_metadata.requires((header,)),
    ensures
        chosen_tags(headers@, *parse_metadata, mime::seen_list(tags)),
{
    match &headers.metadata {
        None => None,
        Some(metadata) => {
            let header = metadata.as_str();
            let out = parse_metadata(header);
            assert(parse_metadata.ensures((header,), out));
            validate_tags(out)
        },
    }
}

/// A message as it goes into the index: its envelope, its searchable text and the
/// records of its attachments.
#[derive(Debug, PartialEq, Eq)]
pub struct Composed {
    pub envelope: Envelope,
    pub body_text: String,
    pub records: Vec<AttachmentRecord>,
}

/// How many bytes of text are searchable.
pub open spec fn text_ceiling(durable: bool) -> usize {
    if durable {
        DURABLE_TEXT_BYTES
    } else {
        usize::MAX
    }
}

/// The ID of a message, or the one made for it.
pub open spec fn message_id_or(ids: Ids, made: Seq<char>) -> Seq<char> {
    match ids.message_id {
        Some(id) => id,
        None => made,
    }
}

/// The thread of a message is the hash of what the thread is known by.
pub open spec fn threaded<H: Fn(&str) -> String>(
    ids: Ids,
    message_id: Seq<char>,
    hex_hash: H,
    thread_id: Seq<char>,
) -> bool {
    exists|root: &str, out: String|
        {
            &&& root@ == envelope::thread_root(ids.in_reply_to, ids.references, message_id)
            &&& #[trigger] hex_hash.ensures((root,), out)
            &&& out@ == thread_id
        }
}

/// The searchable text comes from the text of the message.
pub open spec fn searchable<E: Fn(&str) -> String>(
    texts: Texts,
    extract_text: E,
    durable: bool,
    body_text: Seq<char>,
) -> bool {
    exists|chosen: Seq<char>|
        #[trigger] envelope::chosen_text(texts, extract_text, chosen) && body_text
            == words::normalized(chosen, text_ceiling(durable))
}

/// The regular attachments are recorded, each under an ID of its own.
pub open spec fn all_recorded<C: Fn(&AttachmentInfo) -> FileClass>(
    infos: Seq<Info>,
    classify: C,
    envelope: Indexed,
    records: Seq<AttachmentRecord>,
) -> bool {
    &&& records.len() == envelope::regular(infos).len()
    &&& forall|i: int|
        0 <= i < records.len() ==> envelope::recorded_as(
            envelope::regular(infos)[i],
            classify,
            envelope,
            (#[trigger] records[i])@,
        )
}

/// What the archive is told of a message besides its bytes.
#[derive(Debug, PartialEq, Eq)]
pub struct Given {
    pub arrival: Arrival,
    pub durable: bool,
    pub envelope_id: String,
    pub made_message_id: String,
    pub content_hash: String,
}

/// The envelope of a message.
pub open spec fn composed(
    ids: Ids,
    addresses: Addresses,
    infos: Seq<Info>,
    given: Given,
    result: Indexed,
) -> Indexed {
    let date = envelope::milliseconds(ids.timestamp);
    Indexed {
        id: given.envelope_id@,
        message_id: message_id_or(ids, given.made_message_id@),
        account_id: given.arrival.account_id,
        mailbox_id: given.arrival.mailbox_id,
        uid: given.arrival.uid,
        subject: result.subject,
        preview: result.preview,
        from: envelope::sender_or_unknown(addresses.from),
        to: envelope::header_addresses(addresses.to),
        cc: envelope::header_addresses(addresses.cc),
        bcc: envelope::header_addresses(addresses.bcc),
        date: date as i64,
        internal_date: envelope::received(given.arrival.internal_date, date) as i64,
        ingest_at: given.arrival.now,
        size: given.arrival.size,
        thread_id: result.thread_id,
        attachment_count: infos.len() as int,
        regular_attachment_count: envelope::regular(infos).len() as int,
        tags: result.tags,
        content_hash: given.content_hash@,
        account_email: None,
        account_name: None,
        mailbox_name: None,
    }
}

/// Composes what goes into the index for a message that was parsed.
pub fn compose_message<
    E: Fn(&str) -> String,
    N: Fn(Option<&str>) -> String,
    M: Fn(&str) -> Option<Vec<String>>,
    H: Fn(&str) -> String,
    C: Fn(&AttachmentInfo) -> FileClass,
>(
    texts: &MessageTexts,
    headers: &RawHeaders,
    ids: MessageIds,
    addresses: &MessageAddresses,
    infos: &[AttachmentInfo],
    given: Given,
    extract_text: &E,
    normalize_subject: &N,
    parse_metadata: &M,
    hex_hash: &H,
    classify: &C,
) -> (result: Composed)
    requires
        envelope::datable(ids.timestamp),
        forall|html: &str| #[trigger] extract_text.requires((html,)),
        forall|raw: Option<&str>| #[trigger] normalize_subject.requires((raw,)),
        forall|header: &str| #[trigger] parse_metadata.requires((header,)),
        forall|text: &str| #[trigger] hex_hash.requires((text,)),
        forall|info: &AttachmentInfo| #[trigger] classify.requires((info,)),
    ensures
        searchable(texts@, *extract_text, given.durable, result.body_text@),
        result.envelope@.preview == words::previewed(result.body_text@, PREVIEW_LIMIT as int),
        envelope::chosen_subject(
            texts@,
            headers@,
            *normalize_subject,
            result.envelope@.subject,
        ),
        chosen_tags(headers@, *parse_metadata, result.envelope@.tags),
        threaded(
            ids@,
            message_id_or(ids@, given.made_message_id@),
            *hex_hash,
            result.envelope@.thread_id,
        ),
        result.envelope@ == composed(
            ids@,
            addresses@,
            detach::infos_of(infos@),
            given,
            result.envelope@,
        ),
        all_recorded(
            detach::infos_of(infos@),
            *classify,
            result.envelope@,
            result.records@,
        ),
{
    let chosen = choose_text(texts, extract_text);
    assert(envelope::chosen_text(texts@, *extract_text, chosen@));
    let ceiling = if given.durable {
        Some(DURABLE_TEXT_BYTES)
    } else {
        None
    };
    let body_text = normalize_whitespace(chosen.as_str(), ceiling);
    let preview = preview_of(body_text.as_str(), PREVIEW_LIMIT);
    let message_id = match ids.message_id {
        Some(id) => id,
        None => given.made_message_id,
    };
    let thread_id = compute_thread_id(
        ids.in_reply_to,
        ids.references,
        message_id.as_str(),
        hex_hash,
    );
    let names = Names {
        envelope_id: given.envelope_id,
        message_id,
        thread_id,
        content_hash: given.content_hash,
    };
    let said = Said {
        subject: choose_subject(texts, headers, normalize_subject),
        preview,
        tags: choose_tags(headers, parse_metadata),
        attachment_count: infos.len(),
        regular_attachment_count: count_regular(infos),
    };
    let result = assemble(given.arrival, names, said, ids.timestamp, addresses);
    let records = record_attachments(infos, classify, &result);
    Composed { envelope: result, body_text, records }
}

/// What became of a message before it goes into the index.
#[derive(Debug, PartialEq, Eq)]
pub enum Extraction {
    /// It is known already, or the archive rules leave it out.
    Skipped,
    /// It is no message; it is kept all the same.
    Unparseable,
    /// Its attachments overlap so that they cannot be replaced.
    Overlapping,
    /// It was parsed and taken apart.
    Ready(ReadyMessage),
}

/// A message that was parsed and taken apart.
#[derive(Debug, PartialEq, Eq)]
pub struct ReadyMessage {
    pub texts: MessageTexts,
    pub headers: RawHeaders,
    pub ids: MessageIds,
    pub addresses: MessageAddresses,
    pub prepared: PreparedMessage,
}

/// What archive rules are asked about a message.
pub open spec fn asked(
    body: Seq<u8>,
    size: u32,
    spam_headers: Seq<String>,
    question: RuleQuestion,
) -> bool {
    &&& mime::seen(question.sender) == envelope::sender(mime::parsed_addresses(body).unwrap().from)
    &&& mime::seen(question.subject) == mime::parsed_texts(body).unwrap().subject
    &&& question.size == size
    &&& question.is_spam == envelope::marked(body, spam_headers)
}

/// The archive rules, if there are any, gave this answer about a message; without rules
/// it is archived.
pub open spec fn answered<A: Fn(&RuleQuestion) -> bool>(
    body: Seq<u8>,
    size: u32,
    spam_headers: Option<Vec<String>>,
    should_archive: A,
    answer: bool,
) -> bool {
    match spam_headers {
        None => answer,
        Some(headers) => exists|question: &RuleQuestion|
            asked(body, size, headers@, *question) && #[trigger] should_archive.ensures(
                (question,),
                answer,
            ),
    }
}

/// The parts of a message have their keys.
pub open spec fn found_and_keyed<
    T: Fn(&AttachmentPart, &str, Option<&str>) -> bool,
    H: Fn(&[u8]) -> String,
    K: Fn(&str) -> String,
>(
    body: Seq<u8>,
    exact: bool,
    may_extract: T,
    compute_content_hash: H,
    blob_key: K,
    keyed: Seq<KeyedPart>,
) -> bool {
    exists|parts: Seq<AttachmentPart>|
        {
            &&& mime::parsed_parts(body) == Some(mime::parts_of(parts))
            &&& #[trigger] detach::parts_keyed(
                body,
                parts,
                envelope::sender(mime::parsed_addresses(body).unwrap().from),
                exact,
                may_extract,
                compute_content_hash,
                blob_key,
                keyed,
            )
        }
}

/// How a message is stored.
#[derive(Debug, PartialEq, Eq)]
pub struct Storage {
    pub durable: bool,
    pub content_hash: String,
    pub exact_raw_key: String,
}

/// Text is extracted from no attachment of a durable message.
pub open spec fn extraction_budget(durable: bool) -> Option<usize> {
    if durable {
        Some(0)
    } else {
        None
    }
}

/// How many bytes of attachments text may be extracted from.
pub fn budget_of_extraction(durable: bool) -> (budget: Option<usize>)
    ensures
        budget == extraction_budget(durable),
{
    if durable {
        Some(0)
    } else {
        None
    }
}

/// What becomes of a parsed message with these parts.
pub open spec fn taken_apart(
    body: Seq<u8>,
    storage: Storage,
    keyed: Seq<KeyedPart>,
    result: Result<Extraction, BichonError>,
) -> bool {
    let list = detach::arranged(detach::keyed(keyed));
    match result {
        Ok(Extraction::Skipped) => false,
        Ok(Extraction::Unparseable) => false,
        Ok(Extraction::Overlapping) => !storage.durable && !detach::cuts_fit(
            body.len() as int,
            body.len(),
            list,
        ),
        Ok(Extraction::Ready(ready)) => {
            &&& storage.durable || detach::cuts_fit(body.len() as int, body.len(), list)
            &&& Some(ready.texts@) == mime::parsed_texts(body)
            &&& ready.headers@ == mime::headers_of(body)
            &&& Some(ready.ids@) == mime::parsed_ids(body)
            &&& Some(ready.addresses@) == mime::parsed_addresses(body)
            &&& envelope::datable(ready.ids.timestamp)
            &&& detach::prepared_from(
                body,
                list,
                storage.content_hash@,
                storage.exact_raw_key@,
                extraction_budget(storage.durable),
                Ok(ready.prepared),
            )
        },
        Err(e) => {
            &&& storage.durable || detach::cuts_fit(body.len() as int, body.len(), list)
            &&& detach::prepared_from(
                body,
                list,
                storage.content_hash@,
                storage.exact_raw_key@,
                extraction_budget(storage.durable),
                Err(e),
            )
        },
    }
}

/// What becomes of a message: one that is known, or that the rules leave out, is
/// skipped; one that does not parse is refused, or kept where it is durable; any other
/// is taken apart.
pub open spec fn extracted<
    A: Fn(&RuleQuestion) -> bool,
    T: Fn(&AttachmentPart, &str, Option<&str>) -> bool,
    H: Fn(&[u8]) -> String,
    K: Fn(&str) -> String,
>(
    body: Seq<u8>,
    size: u32,
    known: bool,
    spam_headers: Option<Vec<String>>,
    storage: Storage,
    should_archive: A,
    may_extract: T,
    compute_content_hash: H,
    blob_key: K,
    result: Result<Extraction, BichonError>,
) -> bool {
    if known {
        result == Ok::<Extraction, BichonError>(Extraction::Skipped)
    } else if mime::parsed_texts(body) is None {
        if storage.durable {
            result == Ok::<Extraction, BichonError>(Extraction::Unparseable)
        } else {
            failure::judged(result) == Err::<Extraction, failure::Failure>(
                failure::failure(
                    ErrorCode::InternalError,
                    "Email header parse result is not available"@,
                ),
            )
        }
    } else if result == Ok::<Extraction, BichonError>(Extraction::Skipped) {
        answered(body, size, spam_headers, should_archive, false)
    } else {
        &&& answered(body, size, spam_headers, should_archive, true)
        &&& exists|keyed: Seq<KeyedPart>|
            #[trigger] found_and_keyed(
                body,
                storage.durable,
                may_extract,
                compute_content_hash,
                blob_key,
                keyed,
            ) && taken_apart(body, storage, keyed, result)
    }
}

/// Parses a message that is not known yet, asks the archive rules about it and takes it
/// apart.
pub fn extract_identified<
    A: Fn(&RuleQuestion) -> bool,
    T: Fn(&AttachmentPart, &str, Option<&str>) -> bool,
    H: Fn(&[u8]) -> String,
    K: Fn(&str) -> String,
>(
    body: &[u8],
    size: u32,
    known: bool,
    spam_headers: Option<Vec<String>>,
    storage: &Storage,
    should_archive: &A,
    may_extract: &T,
    compute_content_hash: &H,
    blob_key: &K,
) -> (result: Result<Extraction, BichonError>)
    requires
        known || mime::addressable(body@),
        forall|question: &RuleQuestion| #[trigger] should_archive.requires((question,)),
        forall|part: &AttachmentPart, ext: &str, sender: Option<&str>| #[trigger]
            may_extract.requires((part, ext, sender)),
        forall|bytes: &[u8]| #[trigger] compute_content_hash.requires((bytes,)),
        forall|hash: &str| #[trigger] blob_key.requires((hash,)),
    ensures
        extracted(
            body@,
            size,
            known,
            spam_headers,
            *storage,
            *should_archive,
            *may_extract,
            *compute_content_hash,
            *blob_key,
            result,
        ),
{
    if known {
        return Ok(Extraction::Skipped);
    }
    let (texts, ids, addresses, parts) = match (
        read_texts(body),
        read_ids(body),
        read_addresses(body),
        read_parts(body),
    ) {
        (Some(texts), Some(ids), Some(addresses), Some(parts)) => (texts, ids, addresses, parts),
        _ => {
            if storage.durable {
                return Ok(Extraction::Unparseable);
            }
            return Err(
                raise(
                    ErrorCode::InternalError,
                    "Email header parse result is not available",
                ),
            );
        },
    };
    match &spam_headers {
        None => {},
        Some(headers) => {
            match rule_question(body, size, headers.as_slice()) {
                None => {},
                Some(question) => {
                    let archived = should_archive(&question);
                    assert(asked(body@, size, headers@, question));
                    assert(should_archive.ensures((&question,), archived));
                    if !archived {
                        return Ok(Extraction::Skipped);
                    }
                },
            }
        },
    }
    let headers = read_raw_headers(body);
    let durable = storage.durable;
    let ghost found = parts@;
    let sender = first_sender(&addresses);
    let shown = text_ref(&sender);
    let keyed = key_parts(
        body,
        parts,
        shown,
        durable,
        may_extract,
        compute_content_hash,
        blob_key,
    );
    proof {
        assert(detach::parts_keyed(
            body@,
            found,
            envelope::seen_ref(shown),
            durable,
            *may_extract,
            *compute_content_hash,
            *blob_key,
            keyed@,
        ));
        assert(found_and_keyed(
            body@,
            durable,
            *may_extract,
            *compute_content_hash,
            *blob_key,
            keyed@,
        ));
    }
    if !durable && !parts_fit(body.len(), keyed.as_slice()) {
        return Ok(Extraction::Overlapping);
    }
    let prepared = prepare_detached_attachments(
        body,
        keyed,
        storage.content_hash.as_str(),
        storage.exact_raw_key.as_str(),
        budget_of_extraction(durable),
    );
    match prepared {
        Err(e) => Err(e),
        Ok(prepared) => Ok(Extraction::Ready(ReadyMessage { texts, headers, ids, addresses, prepared })),
    }
}

/// A message is identified by its content hash, stored as it is under the key made of it,
/// and known where the archive says so and its UID does not matter.
pub open spec fn identified<
    H: Fn(&[u8]) -> String,
    C: Fn(&str) -> bool,
    X: Fn(&str) -> String,
>(
    body: Seq<u8>,
    durable: bool,
    preserve_uid_identity: bool,
    compute_content_hash: H,
    is_known: C,
    exact_raw_key: X,
    storage: Storage,
    known: bool,
) -> bool {
    &&& storage.durable == durable
    &&& exists|bytes: &[u8]|
        bytes@ == body && #[trigger] compute_content_hash.ensures((bytes,), storage.content_hash)
    &&& exists|hash: &str|
        hash@ == storage.content_hash@ && #[trigger] exact_raw_key.ensures(
            (hash,),
            storage.exact_raw_key,
        )
    &&& if preserve_uid_identity {
        !known
    } else {
        exists|hash: &str|
            hash@ == storage.content_hash@ && #[trigger] is_known.ensures((hash,), known)
    }
}

/// A message with how it is stored.
#[derive(Debug, PartialEq, Eq)]
pub struct Extracted {
    pub storage: Storage,
    pub extraction: Extraction,
}

/// What becomes of a message once it is identified.
pub open spec fn core_extracted<
    A: Fn(&RuleQuestion) -> bool,
    T: Fn(&AttachmentPart, &str, Option<&str>) -> bool,
    H: Fn(&[u8]) -> String,
    K: Fn(&str) -> String,
    C: Fn(&str) -> bool,
    X: Fn(&str) -> String,
>(
    body: Seq<u8>,
    size: u32,
    durable: bool,
    preserve_uid_identity: bool,
    spam_headers: Option<Vec<String>>,
    should_archive: A,
    may_extract: T,
    compute_content_hash: H,
    blob_key: K,
    is_known: C,
    exact_raw_key: X,
    storage: Storage,
    result: Result<Extraction, BichonError>,
) -> bool {
    exists|known: bool|
        #[trigger] identified(
            body,
            durable,
            preserve_uid_identity,
            compute_content_hash,
            is_known,
            exact_raw_key,
            storage,
            known,
        ) && extracted(
            body,
            size,
            known,
            spam_headers,
            storage,
            should_archive,
            may_extract,
            compute_content_hash,
            blob_key,
            result,
        )
}

/// A message is known by its content, whatever it is, and its UID does not matter.
pub open spec fn surely_known<H: Fn(&[u8]) -> String, C: Fn(&str) -> bool>(
    body: Seq<u8>,
    preserve_uid_identity: bool,
    compute_content_hash: H,
    is_known: C,
) -> bool {
    !preserve_uid_identity && forall|bytes: &[u8], hash: String, shown: &str, answer: bool|
        bytes@ == body && #[trigger] compute_content_hash.ensures((bytes,), hash) && shown@ == hash@
            && #[trigger] is_known.ensures((shown,), answer) ==> answer
}

/// Identifies a message by its content hash, passes it over if it is known and its UID does
/// not matter, and else parses it, asks the archive rules about it and takes it apart.
pub fn extract_envelope_core<
    A: Fn(&RuleQuestion) -> bool,
    T: Fn(&AttachmentPart, &str, Option<&str>) -> bool,
    H: Fn(&[u8]) -> String,
    K: Fn(&str) -> String,
    C: Fn(&str) -> bool,
    X: Fn(&str) -> String,
>(
    body: &[u8],
    size: u32,
    durable: bool,
    preserve_uid_identity: bool,
    spam_headers: Option<Vec<String>>,
    should_archive: &A,
    may_extract: &T,
    compute_content_hash: &H,
    blob_key: &K,
    is_known: &C,
    exact_raw_key: &X,
) -> (result: Result<Extracted, BichonError>)
    requires
        mime::addressable(body@) || surely_known(
            body@,
            preserve_uid_identity,
            *compute_content_hash,
            *is_known,
        ),
        forall|question: &RuleQuestion| #[trigger] should_archive.requires((question,)),
        forall|part: &AttachmentPart, ext: &str, sender: Option<&str>| #[trigger]
            may_extract.requires((part, ext, sender)),
        forall|bytes: &[u8]| #[trigger] compute_content_hash.requires((bytes,)),
        forall|hash: &str| #[trigger] blob_key.requires((hash,)),
        forall|hash: &str| #[trigger] is_known.requires((hash,)),
        forall|hash: &str| #[trigger] exact_raw_key.requires((hash,)),
    ensures
        match result {
            Ok(done) => core_extracted(
                body@,
                size,
                durable,
                preserve_uid_identity,
                spam_headers,
                *should_archive,
                *may_extract,
                *compute_content_hash,
                *blob_key,
                *is_known,
                *exact_raw_key,
                done.storage,
                Ok(done.extraction),
            ),
            Err(e) => exists|storage: Storage| #[trigger]
                core_extracted(
                    body@,
                    size,
                    durable,
                    preserve_uid_identity,
                    spam_headers,
                    *should_archive,
                    *may_extract,
                    *compute_content_hash,
                    *blob_key,
                    *is_known,
                    *exact_raw_key,
                    storage,
                    Err(e),
                ),
        },
{
    let content_hash = compute_content_hash(body);
    let hash = content_hash.as_str();
    let answer = if preserve_uid_identity {
        false
    } else {
        is_known(hash)
    };
    let key = exact_raw_key(hash);
    let ghost shown = hash;
    let storage = Storage { durable, content_hash, exact_raw_key: key };
    assert(compute_content_hash.ensures((body,), storage.content_hash));
    assert(shown@ == storage.content_hash@);
    assert(exact_raw_key.ensures((shown,), storage.exact_raw_key));
    assert(preserve_uid_identity || is_known.ensures((shown,), answer));
    assert(identified(
        body@,
        durable,
        preserve_uid_identity,
        *compute_content_hash,
        *is_known,
        *exact_raw_key,
        storage,
        answer,
    ));
    let ghost rules = spam_headers;
    let extraction = extract_identified(
        body,
        size,
        answer,
        spam_headers,
        &storage,
        should_archive,
        may_extract,
        compute_content_hash,
        blob_key,
    );
    assert(core_extracted(
        body@,
        size,
        durable,
        preserve_uid_identity,
        rules,
        *should_archive,
        *may_extract,
        *compute_content_hash,
        *blob_key,
        *is_known,
        *exact_raw_key,
        storage,
        extraction,
    ));
    match extraction {
        Err(e) => Err(e),
        Ok(extraction) => Ok(Extracted { storage, extraction }),
    }
}

/// How a message is committed, if it is at all: one that was skipped is not.
pub open spec fn commit_plan(extraction: Extraction, durable: bool) -> Option<Plan> {
    match extraction {
        Extraction::Skipped => None,
        Extraction::Overlapping => None,
        Extraction::Unparseable => Some(Plan::Unparseable),
        Extraction::Ready(_) => if durable {
            Some(Plan::Durable)
        } else {
            Some(Plan::Queued)
        },
    }
}

impl Extracted {
    /// How the message is committed, if it is at all.
    pub fn plan(&self) -> (plan: Option<Plan>)
        ensures
            plan == commit_plan(self.extraction, self.storage.durable),
    {
        match &self.extraction {
            Extraction::Skipped => None,
            Extraction::Overlapping => None,
            Extraction::Unparseable => Some(Plan::Unparseable),
            Extraction::Ready(_) => if self.storage.durable {
                Some(Plan::Durable)
            } else {
                Some(Plan::Queued)
            },
        }
    }
}

impl Given {
    /// What the archive is told of a message that it stores: its envelope has the ID that
    /// was fixed, else a fresh one.
    pub fn of(
        storage: &Storage,
        arrival: Arrival,
        fixed_envelope_id: Option<String>,
        made_message_id: String,
    ) -> (given: Given)
        ensures
            given.arrival == arrival,
            given.durable == storage.durable,
            match fixed_envelope_id {
                Some(fixed) => given.envelope_id == fixed,
                None => envelope::uuid_text(given.envelope_id@),
            },
            given.made_message_id == made_message_id,
            given.content_hash@ == storage.content_hash@,
    {
        Given {
            arrival,
            durable: storage.durable,
            envelope_id: envelope_id(fixed_envelope_id),
            made_message_id,
            content_hash: storage.content_hash.as_str().to_owned(),
        }
    }
}

/// A message that the archive now holds.
#[derive(Debug, PartialEq, Eq)]
pub struct CanonicalProjection {
    pub envelope_id: String,
    pub content_hash: String,
    pub created: bool,
}

/// Reports a message that the archive now holds, once its commit has finished.
pub fn canonical_projection(commit: &Commit, envelope: &Envelope) -> (projection: Option<
    CanonicalProjection,
>)
    ensures
        projection is Some <==> commit@.step == Step::Finished,
        projection matches Some(projection) ==> {
            &&& projection.envelope_id@ == envelope@.id
            &&& projection.content_hash@ == envelope@.content_hash
            &&& projection.created
        },
{
    if commit.step() != Step::Finished {
        return None;
    }
    Some(
        CanonicalProjection {
            envelope_id: envelope.id.as_str().to_owned(),
            content_hash: envelope.content_hash.as_str().to_owned(),
            created: true,
        },
    )
}

/// The envelope of a message inside another one: its whole text is its preview, and
/// nothing is known of where it is stored.
pub open spec fn nested(
    ids: Ids,
    addresses: Addresses,
    account_id: u64,
    made_message_id: Seq<char>,
    result: Indexed,
) -> Indexed {
    Indexed {
        id: Seq::empty(),
        message_id: message_id_or(ids, made_message_id),
        account_id,
        mailbox_id: 0,
        uid: 0,
        subject: result.subject,
        preview: result.preview,
        from: envelope::sender_or_unknown(addresses.from),
        to: envelope::header_addresses(addresses.to),
        cc: envelope::header_addresses(addresses.cc),
        bcc: envelope::header_addresses(addresses.bcc),
        date: envelope::milliseconds(ids.timestamp) as i64,
        internal_date: 0,
        ingest_at: 0,
        size: 0,
        thread_id: result.thread_id,
        attachment_count: 0,
        regular_attachment_count: 0,
        tags: None,
        content_hash: Seq::empty(),
        account_email: None,
        account_name: None,
        mailbox_name: None,
    }
}

/// Composes the envelope of a message inside another one from what was parsed.
pub fn nested_envelope<
    E: Fn(&str) -> String,
    N: Fn(Option<&str>) -> String,
    H: Fn(&str) -> String,
>(
    texts: &MessageTexts,
    headers: &RawHeaders,
    ids: MessageIds,
    addresses: &MessageAddresses,
    account_id: u64,
    made_message_id: String,
    extract_text: &E,
    normalize_subject: &N,
    hex_hash: &H,
) -> (result: Envelope)
    requires
        envelope::datable(ids.timestamp),
        forall|html: &str| #[trigger] extract_text.requires((html,)),
        forall|raw: Option<&str>| #[trigger] normalize_subject.requires((raw,)),
        forall|text: &str| #[trigger] hex_hash.requires((text,)),
    ensures
        envelope::chosen_text(texts@, *extract_text, result@.preview),
        envelope::chosen_subject(texts@, headers@, *normalize_subject, result@.subject),
        threaded(
            ids@,
            message_id_or(ids@, made_message_id@),
            *hex_hash,
            result@.thread_id,
        ),
        result@ == nested(ids@, addresses@, account_id, made_message_id@, result@),
{
    let preview = choose_text(texts, extract_text);
    let message_id = match ids.message_id {
        Some(id) => id,
        None => made_message_id,
    };
    let thread_id = compute_thread_id(
        ids.in_reply_to,
        ids.references,
        message_id.as_str(),
        hex_hash,
    );
    let arrival = Arrival {
        account_id,
        mailbox_id: 0,
        uid: 0,
        size: 0,
        internal_date: 0,
        now: 0,
    };
    let names = Names {
        envelope_id: String::new(),
        message_id,
        thread_id,
        content_hash: String::new(),
    };
    let said = Said {
        subject: choose_subject(texts, headers, normalize_subject),
        preview,
        tags: None,
        attachment_count: 0,
        regular_attachment_count: 0,
    };
    let mut result = assemble(arrival, names, said, ids.timestamp, addresses);
    result.internal_date = 0;
    assert(result@ =~= nested(ids@, addresses@, account_id, made_message_id@, result@));
    result
}

/// The envelope of a raw message inside another one, if it is a message.
pub fn extract_envelope_from_nested_message<
    E: Fn(&str) -> String,
    N: Fn(Option<&str>) -> String,
    H: Fn(&str) -> String,
>(
    message: &[u8],
    account_id: u64,
    made_message_id: String,
    extract_text: &E,
    normalize_subject: &N,
    hex_hash: &H,
) -> (result: Option<Envelope>)
    requires
        mime::addressable(message@),
        forall|html: &str| #[trigger] extract_text.requires((html,)),
        forall|raw: Option<&str>| #[trigger] normalize_subject.requires((raw,)),
        forall|text: &str| #[trigger] hex_hash.requires((text,)),
    ensures
        result is Some <==> mime::parsed_texts(message@) is Some,
        result matches Some(result) ==> {
            let texts = mime::parsed_texts(message@).unwrap();
            let ids = mime::parsed_ids(message@).unwrap();
            let addresses = mime::parsed_addresses(message@).unwrap();
            &&& envelope::chosen_text(texts, *extract_text, result@.preview)
            &&& envelope::chosen_subject(
                texts,
                mime::headers_of(message@),
                *normalize_subject,
                result@.subject,
            )
            &&& threaded(
                ids,
                message_id_or(ids, made_message_id@),
                *hex_hash,
                result@.thread_id,
            )
            &&& result@ == nested(ids, addresses, account_id, made_message_id@, result@)
        },
{
    match (read_texts(message), read_ids(message), read_addresses(message)) {
        (Some(texts), Some(ids), Some(addresses)) => Some(
            nested_envelope(
                &texts,
                &read_raw_headers(message),
                ids,
                &addresses,
                account_id,
                made_message_id,
                extract_text,
                normalize_subject,
                hex_hash,
            ),
        ),
        _ => None,
    }
}

/// What the thread of bytes that are no message is known by.
pub open spec fn unparseable_root(arrival: Arrival) -> Seq<char> {
    "uidonly-unparseable-"@ + text::numeral(arrival.account_id as nat) + "-"@ + text::numeral(
        arrival.mailbox_id as nat,
    ) + "-"@ + text::numeral(arrival.uid as nat)
}

/// The envelope of bytes that are no message.
pub open spec fn unparseable(given: Given, result: Indexed) -> Indexed {
    Indexed {
        id: given.envelope_id@,
        message_id: given.made_message_id@,
        account_id: given.arrival.account_id,
        mailbox_id: given.arrival.mailbox_id,
        uid: given.arrival.uid,
        subject: Seq::empty(),
        preview: Seq::empty(),
        from: "unknown"@,
        to: Seq::empty(),
        cc: Seq::empty(),
        bcc: Seq::empty(),
        date: 0,
        internal_date: given.arrival.internal_date,
        ingest_at: given.arrival.now,
        size: given.arrival.size,
        thread_id: result.thread_id,
        attachment_count: 0,
        regular_attachment_count: 0,
        tags: None,
        content_hash: given.content_hash@,
        account_email: None,
        account_name: None,
        mailbox_name: None,
    }
}

/// The thread of bytes that are no message is a hash of where they stand.
pub open spec fn placed_thread<H: Fn(&str) -> String>(
    arrival: Arrival,
    hex_hash: H,
    thread_id: Seq<char>,
) -> bool {
    exists|root: &str, out: String|
        {
            &&& root@ == unparseable_root(arrival)
            &&& #[trigger] hex_hash.ensures((root,), out)
            &&& out@ == thread_id
        }
}

/// Composes what is kept of bytes that are no message: an envelope that says only where
/// they stand, and the bytes themselves.
pub fn project_unparseable_uidonly<H: Fn(&str) -> String>(
    body: &[u8],
    given: Given,
    exact_raw_key: String,
    hex_hash: &H,
) -> (result: (Envelope, DetachedEmail))
    requires
        forall|text: &str| #[trigger] hex_hash.requires((text,)),
    ensures
        placed_thread(given.arrival, *hex_hash, result.0@.thread_id),
        result.0@ == unparseable(given, result.0@),
        result.1.email.0 == exact_raw_key,
        blob::contents(result.1.email.1) == body@,
        result.1.attachments@.len() == 0,
{
    let arrival = given.arrival;
    let mut root = String::new();
    push_text(&mut root, "uidonly-unparseable-");
    push_numeral(&mut root, arrival.account_id);
    push_text(&mut root, "-");
    push_numeral(&mut root, arrival.mailbox_id);
    push_text(&mut root, "-");
    push_numeral(&mut root, arrival.uid as u64);
    assert(root@ =~= unparseable_root(arrival));
    let root = root.as_str();
    let thread_id = hex_hash(root);
    assert(hex_hash.ensures((root,), thread_id));
    let result = Envelope {
        id: given.envelope_id,
        message_id: given.made_message_id,
        account_id: arrival.account_id,
        mailbox_id: arrival.mailbox_id,
        uid: arrival.uid,
        subject: String::new(),
        preview: String::new(),
        from: "unknown".to_owned(),
        to: Vec::new(),
        cc: Vec::new(),
        bcc: Vec::new(),
        date: 0,
        internal_date: arrival.internal_date,
        ingest_at: arrival.now,
        size: arrival.size,
        thread_id,
        attachment_count: 0,
        regular_attachment_count: 0,
        tags: None,
        content_hash: given.content_hash,
        account_email: None,
        account_name: None,
        mailbox_name: None,
    };
    assert(result@ =~= unparseable(given, result@));
    (
        result,
        DetachedEmail { email: (exact_raw_key, blob::copy_of(body)), attachments: Vec::new() },
    )
}

/// A message as a plain fetch brought it.
#[derive(Debug, PartialEq, Eq)]
pub struct Fetched {
    pub body: Vec<u8>,
    pub uid: u32,
    pub size: u32,
    pub internal_date: i64,
}

/// Reads a fetch response; one without a body is passed over. A missing size is that of
/// the body, reduced to 32 bits.
pub fn fetched_message(
    body: Option<Vec<u8>>,
    uid: Option<u32>,
    size: Option<u32>,
    internal_date: Option<i64>,
) -> (result: Option<Fetched>)
    ensures
        result == match body {
            None => None,
            Some(body) => Some(
                Fetched {
                    body,
                    uid: match uid {
                        Some(uid) => uid,
                        None => 0,
                    },
                    size: match size {
                        Some(size) => size,
                        None => body@.len() as u32,
                    },
                    internal_date: match internal_date {
                        Some(date) => date,
                        None => 0,
                    },
                },
            ),
        },
{
    match body {
        None => None,
        Some(body) => {
            let size: u32 = match size {
                Some(size) => size,
                None => #[verifier::truncate]
                (body.len() as u32),
            };
            Some(
                Fetched {
                    body,
                    uid: match uid {
                        Some(uid) => uid,
                        None => 0,
                    },
                    size,
                    internal_date: match internal_date {
                        Some(date) => date,
                        None => 0,
                    },
                },
            )
        },
    }
}

} // verus!
