use std::collections::HashMap;

use bichon_uidonly::blob::AttachmentInfo;
use bichon_uidonly::commit::{Commit, Plan, Step};
use bichon_uidonly::detach::{
    key_parts, merge_extracted, part_extension, parts_fit, prepare_detached_attachments,
    ExtractedText, KeyedPart,
};
use bichon_uidonly::envelope::{
    compute_thread_id, envelope_id, generate_message_id, imported, is_marked_as_spam,
    record_attachments,
    rule_question, validate_tags, Arrival, FileClass, RuleQuestion,
};
use bichon_uidonly::failure::{raise, BichonError, ErrorCode};
use bichon_uidonly::mime::{
    attachment_parts, extract_references, read_raw_headers, AttachmentPart, MessageAddresses,
    MessageIds, MessageTexts, RawHeaders,
};
use bichon_uidonly::projection::{
    budget_of_extraction, canonical_projection, compose_message, extract_envelope_core,
    extract_envelope_from_nested_message, fetched_message, project_unparseable_uidonly, Extracted,
    Extraction, Given, Storage,
};
use bichon_uidonly::reattach::{plan_for_stored, plan_reattachment, reattach_eml_content};
use bichon_uidonly::recovery::{
    attachment_keys, collect_keys, healed, missing_error, recover_fetched, recover_message_blob,
    rollback_outcome,
    Missing, Recovery,
};
use bichon_uidonly::words::normalize_whitespace;
use bytes::Bytes;

const BLOB_PREFIX: &str = "uidonly-attachment-";

fn compute_content_hash(bytes: &[u8]) -> String {
    let mut hash: u64 = 0xcbf2_9ce4_8422_2325;
    for byte in bytes {
        hash = (hash ^ u64::from(*byte)).wrapping_mul(0x0000_0100_0000_01b3);
    }
    format!("{hash:016x}-{}", bytes.len())
}

fn blob_key(hash: &str) -> String {
    format!("{BLOB_PREFIX}{hash}")
}

fn exact_raw_key(hash: &str) -> String {
    format!("uidonly-exact-{hash}")
}

fn is_uidonly_key(key: &str) -> bool {
    key.starts_with(BLOB_PREFIX)
}

fn never(_part: &AttachmentPart, _ext: &str, _sender: Option<&str>) -> bool {
    false
}

fn keyed(body: &[u8], parts: Vec<AttachmentPart>, exact: bool) -> Vec<KeyedPart> {
    key_parts(
        body,
        parts,
        None,
        exact,
        &never,
        &compute_content_hash,
        &blob_key,
    )
}

fn two_parts() -> Vec<u8> {
    [
        "From: Sender <sender@example.com>\r\n",
        "To: recipient@example.com, Friends: a@example.com, b@example.com;\r\n",
        "Subject: Test\r\n",
        "Message-ID: <one@example.com>\r\n",
        "In-Reply-To: <zero@example.com>\r\n",
        "References: <root@example.com> <zero@example.com>\r\n",
        "Date: Thu, 1 Jan 1970 00:01:00 +0000\r\n",
        "X-Spam-Flag:  YES \r\n",
        "MIME-Version: 1.0\r\n",
        "Content-Type: multipart/mixed; boundary=\"bnd\"\r\n",
        "\r\n",
        "--bnd\r\n",
        "Content-Type: text/plain\r\n",
        "\r\n",
        "Hello   there,\r\nworld\r\n",
        "--bnd\r\n",
        "Content-Type: application/octet-stream\r\n",
        "Content-Disposition: attachment; filename=\"one.bin\"\r\n",
        "\r\n",
        "AAAAABBBBB\r\n",
        "--bnd\r\n",
        "Content-Type: image/png\r\n",
        "Content-Disposition: inline; filename=\"two.png\"\r\n",
        "Content-ID: <two>\r\n",
        "\r\n",
        "CCCCCDDDDD\r\n",
        "--bnd--\r\n",
    ]
    .join("")
    .into_bytes()
}

#[test]
fn detach_attachments_bounds_check() {
    let raw = [
        "From: sender@example.com\r\n",
        "To: recipient@example.com\r\n",
        "Subject: Test\r\n",
        "MIME-Version: 1.0\r\n",
        "Content-Type: multipart/mixed; boundary=\"bnd\"\r\n",
        "\r\n",
        "--bnd\r\n",
        "Content-Type: text/plain\r\n",
        "\r\n",
        "Hello\r\n",
        "--bnd\r\n",
        "Content-Type: application/octet-stream\r\n",
        "Content-Disposition: attachment; filename=\"test.bin\"\r\n",
        "\r\n",
        "AAAAABBBBBCCCCCDDDDDEEEEEAAAAABBBBBCCCCCDDDDDEEEEE\r\n",
        "--bnd--\r\n",
    ]
    .join("")
    .into_bytes();

    let parts = attachment_parts(&raw).expect("parse valid MIME message");
    assert_eq!(parts.len(), 1);

    // The raw body is cut so that the attachment's end lies past the end of the body.
    let truncated = &raw[..raw.len() - 20];
    assert!(truncated.len() < raw.len());

    let parts = keyed(truncated, parts, false);
    assert!(parts_fit(truncated.len(), &parts));
    let prepared = prepare_detached_attachments(
        truncated,
        parts,
        "test_content_hash",
        "test_exact_key",
        None,
    )
    .unwrap();
    assert_eq!(prepared.infos.len(), 1);
}

#[test]
fn uidonly_attachment_keys_preserve_distinct_wire_encodings() {
    fn fixture(encoding: &str, payload: &str) -> Vec<u8> {
        format!(
            "From: sender@example.invalid\r\n\
             To: archive@example.invalid\r\n\
             MIME-Version: 1.0\r\n\
             Content-Type: multipart/mixed; boundary=b\r\n\
             \r\n\
             --b\r\n\
             Content-Type: text/plain\r\n\
             \r\n\
             body\r\n\
             --b\r\n\
             Content-Type: application/octet-stream\r\n\
             Content-Disposition: attachment; filename=a.bin\r\n\
             Content-Transfer-Encoding: {encoding}\r\n\
             \r\n\
             {payload}\r\n\
             --b--\r\n"
        )
        .into_bytes()
    }

    let base64 = fixture("base64", "YWJj");
    let quoted_printable = fixture("quoted-printable", "abc");
    let base64_parts = attachment_parts(&base64).unwrap();
    let quoted_parts = attachment_parts(&quoted_printable).unwrap();
    assert_eq!(base64_parts[0].contents, quoted_parts[0].contents);

    let prepare = |body: &[u8], parts: Vec<AttachmentPart>| {
        let hash = compute_content_hash(body);
        prepare_detached_attachments(
            body,
            keyed(body, parts, true),
            &hash,
            &exact_raw_key(&hash),
            Some(0),
        )
        .unwrap()
    };
    let base64_prepared = prepare(&base64, base64_parts);
    let quoted_prepared = prepare(&quoted_printable, quoted_parts);
    assert_ne!(
        base64_prepared.infos[0].content_hash,
        quoted_prepared.infos[0].content_hash
    );
    assert!(is_uidonly_key(&base64_prepared.infos[0].content_hash));
    assert!(is_uidonly_key(&quoted_prepared.infos[0].content_hash));
    assert!(
        !is_uidonly_key(&compute_content_hash(b"abc")),
        "ordinary legacy attachment hashes must be rejected by UIDONLY orphan cleanup"
    );
    assert_eq!(base64_prepared.detached.email.1.as_ref(), base64);
    assert_eq!(quoted_prepared.detached.email.1.as_ref(), quoted_printable);
    assert_ne!(
        base64_prepared.detached.email.0,
        compute_content_hash(&base64)
    );
    assert_ne!(
        quoted_prepared.detached.email.0,
        compute_content_hash(&quoted_printable)
    );
}

#[test]
fn detached_messages_are_put_together_again() {
    let raw = two_parts();
    let parts = attachment_parts(&raw).unwrap();
    assert_eq!(parts.len(), 2);
    let prepared = prepare_detached_attachments(
        &raw,
        keyed(&raw, parts, false),
        &compute_content_hash(&raw),
        "unused",
        None,
    )
    .unwrap();
    let stored = prepared.detached.email.1.clone();
    let text = String::from_utf8(stored.to_vec()).unwrap();
    assert_ne!(stored.as_ref(), raw);
    assert_eq!(text.matches("<<BICHON_DETACH_HASH:").count(), 2);
    assert!(!text.contains("AAAAABBBBB"));

    // The last attachment of the message comes first.
    assert_eq!(prepared.infos[0].filename.as_deref(), Some("two.png"));
    assert_eq!(prepared.infos[0].file_type, "image/png");
    assert!(prepared.infos[0].inline);
    assert_eq!(prepared.infos[1].filename.as_deref(), Some("one.bin"));
    assert!(!prepared.infos[1].inline);

    let blobs: HashMap<String, Bytes> = prepared.detached.attachments.iter().cloned().collect();
    let keys: Vec<String> = prepared
        .infos
        .iter()
        .map(|info| info.content_hash.clone())
        .collect();
    let list = plan_reattachment(&stored, false, 2, &keys).unwrap().unwrap();
    assert_eq!(list.len(), 2);
    let found: Vec<Option<Bytes>> = keys.iter().map(|key| blobs.get(key).cloned()).collect();
    assert_eq!(
        reattach_eml_content(&stored, &list, &found).unwrap().as_ref(),
        raw
    );

    // A missing blob leaves its placeholder.
    let partial = vec![None, found[1].clone()];
    let text = String::from_utf8(
        reattach_eml_content(&stored, &list, &partial)
            .unwrap()
            .to_vec(),
    )
    .unwrap();
    assert_eq!(text.matches("<<BICHON_DETACH_HASH:").count(), 1);
    assert!(text.contains("AAAAABBBBB"));

    assert_eq!(plan_reattachment(&stored, true, 2, &keys).unwrap(), None);
    assert_eq!(plan_reattachment(&stored, false, 0, &keys).unwrap(), None);
    assert_eq!(
        plan_reattachment(&stored, false, 3, &keys).unwrap_err().message,
        "Consistency check failed: envelope.attachment_count (3) does not match attachments.len (2)"
    );
    assert_eq!(reattach_eml_content(&Bytes::new(), &list, &found), None);
}

fn part(start: usize, end: usize, contents: &[u8]) -> AttachmentPart {
    AttachmentPart {
        start,
        end,
        contents: contents.to_vec(),
        inline: None,
        media_type: None,
        media_subtype: None,
        content_id: None,
        name: None,
        is_message: false,
    }
}

#[test]
fn overlapping_parts_exceed_the_working_set() {
    let body = b"0123456789".as_slice();
    let parts = || keyed(body, vec![part(0, 8, b"x"), part(1, 9, b"y")], true);
    let error = prepare_detached_attachments(body, parts(), "h", "e", Some(0)).unwrap_err();
    assert_eq!(error.code(), ErrorCode::PayloadTooLarge);
    assert!(error.message.contains("overlapping MIME attachment ranges"));
    // Without a budget each part is replaced in turn, as long as it lies inside.
    assert!(parts_fit(body.len(), &keyed(body, vec![part(0, 8, b"x"), part(1, 9, b"y")], false)));
    let whole = vec![part(0, 10, b"x")];
    assert!(parts_fit(body.len(), &keyed(body, whole, false)));
}

#[test]
fn parts_without_bytes_keep_their_contents_only_when_exact() {
    let body = b"0123456789".as_slice();
    let exact = prepare_detached_attachments(
        body,
        keyed(body, vec![part(9, 4, b"decoded")], true),
        "h",
        "e",
        Some(0),
    )
    .unwrap();
    assert_eq!(exact.detached.attachments[0].1.as_ref(), b"decoded");
    assert_eq!(exact.detached.email.0, "e");
    assert_eq!(exact.infos[0].file_type, "application/octet-stream");
    let legacy = prepare_detached_attachments(
        body,
        keyed(body, vec![part(9, 4, b"decoded")], false),
        "h",
        "e",
        None,
    )
    .unwrap();
    assert!(legacy.detached.attachments[0].1.is_empty());
    assert_eq!(legacy.detached.email.0, "h");
    assert_eq!(legacy.detached.email.1.as_ref(), body);
}

#[test]
fn extracted_text_is_merged_within_the_budget() {
    let info = |hash: &str| AttachmentInfo {
        filename: None,
        size: 1,
        inline: false,
        file_type: "text/plain".into(),
        content_id: None,
        content_hash: hash.into(),
        is_message: false,
        extracted_text: None,
        extracted_page_count: None,
        extracted_is_ocr: false,
    };
    let text = |hash: &str, text: &str| ExtractedText {
        content_hash: hash.into(),
        text: text.into(),
        page_count: Some(2),
        is_ocr: true,
    };
    let merged = merge_extracted(
        vec![info("a"), info("b"), info("a")],
        vec![text("a", "1234"), text("b", "56789")],
        Some(5),
    );
    assert_eq!(merged[0].extracted_text.as_deref(), Some("1234"));
    assert_eq!(merged[0].extracted_page_count, Some(2));
    assert!(merged[0].extracted_is_ocr);
    assert_eq!(merged[1].extracted_text, None);
    assert_eq!(merged[2].extracted_text, None);
}

#[test]
fn text_candidates_respect_the_budget() {
    let body = b"0123456789".as_slice();
    let eligible = |_part: &AttachmentPart, ext: &str, sender: Option<&str>| {
        ext == "txt" && sender == Some("s@example.com")
    };
    let named = |part: AttachmentPart| AttachmentPart {
        name: Some("some.notes.TXT".into()),
        ..part
    };
    let parts = |exact| {
        key_parts(
            body,
            vec![named(part(0, 2, b"four")), named(part(4, 6, b"sixsix"))],
            Some("s@example.com"),
            exact,
            &eligible,
            &compute_content_hash,
            &blob_key,
        )
    };
    let all = prepare_detached_attachments(body, parts(false), "h", "e", None).unwrap();
    assert_eq!(all.candidates.len(), 2);
    assert_eq!(all.candidates[0].bytes, b"sixsix");
    assert_eq!(all.candidates[0].ext, "txt");
    let some = prepare_detached_attachments(body, parts(true), "h", "e", Some(9)).unwrap();
    assert_eq!(some.candidates.len(), 1);
    let none = prepare_detached_attachments(body, parts(true), "h", "e", Some(0)).unwrap();
    assert!(none.candidates.is_empty());
}

fn hex_hash(text: &str) -> String {
    format!("hash({text})")
}

#[test]
fn threads_are_known_by_their_first_reference() {
    let answer = Some("<zero>".to_string());
    let references = Some(vec!["<root>".to_string(), "<zero>".to_string()]);
    assert_eq!(
        compute_thread_id(answer.clone(), references.clone(), "<one>", &hex_hash),
        "hash(<root>)"
    );
    assert_eq!(
        compute_thread_id(None, references, "<one>", &hex_hash),
        "hash(<one>)"
    );
    assert_eq!(
        compute_thread_id(answer.clone(), Some(Vec::new()), "<one>", &hex_hash),
        "hash(<one>)"
    );
    assert_eq!(
        compute_thread_id(answer, None, "<one>", &hex_hash),
        "hash(<one>)"
    );
}

#[test]
fn made_message_ids_hold_number_time_and_process() {
    assert_eq!(
        generate_message_id(0xabc, 1_700_000_000_000, 42),
        "<0000000000000abc.1700000000000.42@bichon>"
    );
    assert_eq!(
        generate_message_id(u128::MAX, i64::MIN, 0),
        format!("<{:016x}.{}.0@bichon>", u128::MAX, i64::MIN)
    );
}

#[test]
fn fresh_ids_are_uuids() {
    assert_eq!(envelope_id(Some("fixed".into())), "fixed");
    let fresh = envelope_id(None);
    assert_eq!(fresh.len(), 36);
    assert_eq!(fresh.as_bytes()[14], b'4');
    assert_ne!(envelope_id(None), fresh);
}

#[test]
fn tags_are_kept_only_if_all_are_facets() {
    let tags = |list: &[&str]| Some(list.iter().map(|tag| tag.to_string()).collect::<Vec<_>>());
    assert_eq!(validate_tags(tags(&["/a", "/b/c"])), tags(&["/a", "/b/c"]));
    assert_eq!(validate_tags(tags(&["/a", "b"])), None);
    assert_eq!(validate_tags(tags(&[""])), None);
    assert_eq!(validate_tags(tags(&[])), None);
    assert_eq!(validate_tags(None), None);
}

#[test]
fn rules_are_asked_about_sender_subject_size_and_spam() {
    let raw = two_parts();
    let question = rule_question(&raw, 7, &["X-Spam-Flag".to_string()]).unwrap();
    assert_eq!(question.sender.as_deref(), Some("sender@example.com"));
    assert_eq!(question.subject.as_deref(), Some("Test"));
    assert_eq!(question.size, 7);
    assert!(question.is_spam);
    assert!(!is_marked_as_spam(&raw, &["Subject".to_string()]));
    assert!(!is_marked_as_spam(&raw, &["X-Absent".to_string()]));
    assert!(!is_marked_as_spam(&raw, &[]));
    assert_eq!(rule_question(b"", 0, &[]), None);
}

#[test]
fn references_are_read_off_the_header() {
    assert_eq!(
        extract_references(&two_parts()).unwrap(),
        ["root@example.com", "zero@example.com"]
    );
    assert_eq!(extract_references(b"Subject: none\r\n\r\n"), None);
}

fn extract_all(
    body: &[u8],
    durable: bool,
    known: bool,
    rules: Option<bool>,
) -> Result<Extracted, BichonError> {
    let hash = compute_content_hash(body);
    extract_envelope_core(
        body,
        body.len() as u32,
        durable,
        durable,
        rules.map(|_| vec!["X-Spam-Flag".to_string()]),
        &|question: &RuleQuestion| {
            assert!(question.is_spam);
            rules.unwrap_or(true)
        },
        &never,
        &compute_content_hash,
        &blob_key,
        &|asked: &str| known && asked == hash,
        &exact_raw_key,
    )
}

fn extract(
    body: &[u8],
    durable: bool,
    known: bool,
    rules: Option<bool>,
) -> Result<Extraction, BichonError> {
    extract_all(body, durable, known, rules).map(|done| done.extraction)
}

fn classify(info: &AttachmentInfo) -> FileClass {
    FileClass {
        ext: Some(format!("ext of {}", info.file_type)),
        category: "binary".into(),
    }
}

fn given(durable: bool, body: &[u8]) -> Given {
    Given {
        arrival: Arrival {
            account_id: 3,
            mailbox_id: 4,
            uid: 5,
            size: body.len() as u32,
            internal_date: 0,
            now: 99,
        },
        durable,
        envelope_id: "envelope".into(),
        made_message_id: "<made>".into(),
        content_hash: compute_content_hash(body),
    }
}

#[test]
fn messages_are_skipped_refused_or_taken_apart() {
    let raw = two_parts();
    assert_eq!(extract(&raw, false, true, None), Ok(Extraction::Skipped));
    assert!(matches!(
        extract(&raw, true, true, None),
        Ok(Extraction::Ready(_))
    ));
    assert_eq!(
        extract(&raw, false, false, Some(false)),
        Ok(Extraction::Skipped)
    );
    assert!(matches!(
        extract(&raw, false, false, Some(true)),
        Ok(Extraction::Ready(_))
    ));
    assert_eq!(extract(b"", true, false, None), Ok(Extraction::Unparseable));
    let refused = extract(b"", false, false, None).unwrap_err();
    assert_eq!(refused.code(), ErrorCode::InternalError);
    assert_eq!(refused.message, "Email header parse result is not available");
}

#[test]
fn envelopes_say_what_the_message_says() {
    let raw = two_parts();
    let Ok(Extraction::Ready(ready)) = extract(&raw, true, false, None) else {
        panic!("not taken apart");
    };
    assert_eq!(
        ready.headers,
        RawHeaders {
            subject: Some(" Test\r\n".into()),
            metadata: None,
        }
    );
    let composed = compose_message(
        &ready.texts,
        &ready.headers,
        ready.ids,
        &ready.addresses,
        &ready.prepared.infos,
        given(true, &raw),
        &|html: &str| format!("text of {html}"),
        &|_raw: Option<&str>| "normalized".to_string(),
        &|_header: &str| None,
        &hex_hash,
        &classify,
    );
    let envelope = &composed.envelope;
    assert_eq!(composed.body_text, "Hello there, world");
    assert_eq!(envelope.preview, "Hello there, world");
    assert_eq!(envelope.id, "envelope");
    assert_eq!(envelope.message_id, "one@example.com");
    assert_eq!(envelope.thread_id, "hash(root@example.com)");
    assert_eq!(envelope.subject, "Test");
    assert_eq!(envelope.from, "sender@example.com");
    assert_eq!(
        envelope.to,
        ["recipient@example.com", "a@example.com", "b@example.com"]
    );
    assert!(envelope.cc.is_empty());
    assert_eq!(envelope.date, 60_000);
    assert_eq!(envelope.internal_date, 60_000);
    assert_eq!(envelope.ingest_at, 99);
    assert_eq!((envelope.account_id, envelope.mailbox_id, envelope.uid), (3, 4, 5));
    assert_eq!(envelope.attachment_count, 2);
    assert_eq!(envelope.regular_attachment_count, 1);
    assert_eq!(composed.records.len(), 1);
    assert_eq!(composed.records[0].name.as_deref(), Some("one.bin"));
    assert_eq!(composed.records[0].envelope_id, "envelope");
    assert_eq!(composed.records[0].id.len(), 36);
    assert!(!composed.records[0].has_text);
    assert_eq!(
        composed.records[0].ext.as_deref(),
        Some("ext of application/octet-stream")
    );
    assert_eq!(composed.records[0].category, "binary");
    assert_eq!(
        record_attachments(&ready.prepared.infos, &classify, envelope).len(),
        1
    );
}

fn no_texts() -> MessageTexts {
    MessageTexts {
        text: None,
        html: None,
        subject: None,
    }
}

fn no_ids() -> MessageIds {
    MessageIds {
        message_id: None,
        in_reply_to: None,
        references: None,
        timestamp: None,
    }
}

fn no_addresses() -> MessageAddresses {
    MessageAddresses {
        from: None,
        to: None,
        cc: None,
        bcc: None,
    }
}

#[test]
fn envelopes_fall_back_where_a_message_says_nothing() {
    let texts = MessageTexts {
        html: Some("<p>hi</p>".into()),
        subject: Some("lost \u{FFFD}".into()),
        ..no_texts()
    };
    let headers = RawHeaders {
        subject: Some("raw".into()),
        metadata: Some("tags".into()),
    };
    let addresses = MessageAddresses {
        from: Some(vec![None, Some("second@example.com".into())]),
        to: Some(vec![None, Some("to@example.com".into())]),
        ..no_addresses()
    };
    let composed = compose_message(
        &texts,
        &headers,
        no_ids(),
        &addresses,
        &[],
        Given {
            arrival: Arrival {
                internal_date: 12,
                ..given(false, b"").arrival
            },
            ..given(false, b"")
        },
        &|html: &str| format!("text of {html}"),
        &|raw: Option<&str>| format!("normalized {}", raw.unwrap()),
        &|header: &str| Some(vec![format!("/{header}")]),
        &hex_hash,
        &classify,
    );
    let envelope = composed.envelope;
    assert_eq!(composed.body_text, "text of <p>hi</p>");
    assert_eq!(envelope.subject, "normalized raw");
    assert_eq!(envelope.tags, Some(vec!["/tags".to_string()]));
    assert_eq!(envelope.from, "unknown");
    assert_eq!(envelope.to, ["to@example.com"]);
    assert_eq!(envelope.message_id, "<made>");
    assert_eq!(envelope.thread_id, "hash(<made>)");
    assert_eq!((envelope.date, envelope.internal_date), (0, 12));
}

#[test]
fn nested_messages_keep_their_whole_text() {
    let raw = two_parts();
    let nested = extract_envelope_from_nested_message(
        &raw,
        8,
        "<made>".into(),
        &|html: &str| html.to_string(),
        &|_raw: Option<&str>| String::new(),
        &hex_hash,
    )
    .unwrap();
    assert_eq!(nested.preview.trim_end(), "Hello   there,\r\nworld");
    assert_eq!(nested.account_id, 8);
    assert_eq!((nested.date, nested.internal_date), (60_000, 0));
    assert_eq!(nested.message_id, "one@example.com");
    assert!(nested.id.is_empty());
    assert!(extract_envelope_from_nested_message(
        b"",
        8,
        "<made>".into(),
        &|html: &str| html.to_string(),
        &|_raw: Option<&str>| String::new(),
        &hex_hash,
    )
    .is_none());
}

#[test]
fn unparseable_bytes_are_kept_under_their_place() {
    let body = b"\x00\xff";
    let (envelope, detached) =
        project_unparseable_uidonly(body, given(true, body), "exact".into(), &hex_hash);
    assert_eq!(envelope.thread_id, "hash(uidonly-unparseable-3-4-5)");
    assert_eq!(envelope.from, "unknown");
    assert_eq!(envelope.message_id, "<made>");
    assert_eq!(envelope.attachment_count, 0);
    assert_eq!(detached.email.0, "exact");
    assert_eq!(detached.email.1.as_ref(), body);
    assert!(detached.attachments.is_empty());
}

#[test]
fn fetch_responses_without_a_body_are_passed_over() {
    assert_eq!(fetched_message(None, Some(1), Some(2), Some(3)), None);
    let fetched = fetched_message(Some(vec![1, 2, 3]), None, None, None).unwrap();
    assert_eq!((fetched.uid, fetched.size, fetched.internal_date), (0, 3, 0));
    let fetched = fetched_message(Some(Vec::new()), Some(4), Some(5), Some(6)).unwrap();
    assert_eq!((fetched.uid, fetched.size, fetched.internal_date), (4, 5, 6));
}

/// Runs a commit; `answers` holds the failing step, if any, and the step after which it
/// is cancelled.
fn commit(
    plan: Plan,
    failing: Option<Step>,
    cancelled_after: Option<Step>,
) -> (Vec<Step>, Result<(), BichonError>) {
    let mut steps = Vec::new();
    let mut state = match Commit::start(plan, false) {
        Ok(state) => state,
        Err(error) => return (steps, Err(error)),
    };
    loop {
        let step = state.step();
        if step == Step::Finished {
            return (steps, Ok(()));
        }
        steps.push(step);
        let outcome = if failing == Some(step) {
            Err(raise(ErrorCode::InternalError, "synthetic"))
        } else {
            Ok(())
        };
        match state.on_outcome(outcome, cancelled_after == Some(step)) {
            Ok(next) => state = next,
            Err(error) => return (steps, Err(error)),
        }
    }
}

#[test]
fn commits_undo_what_they_cannot_finish() {
    assert_eq!(
        commit(Plan::Durable, None, None),
        (
            vec![Step::Blobs, Step::Attachments, Step::Envelope, Step::Remember],
            Ok(())
        )
    );
    assert_eq!(
        commit(Plan::Unparseable, None, None).0,
        [Step::Blobs, Step::Envelope, Step::Remember]
    );
    assert_eq!(
        commit(Plan::Queued, None, Some(Step::Blobs)).0,
        [Step::Blobs, Step::Envelope, Step::Attachments, Step::Remember]
    );
    let (steps, result) = commit(Plan::Durable, Some(Step::Envelope), None);
    assert_eq!(
        steps,
        [Step::Blobs, Step::Attachments, Step::Envelope, Step::Undo]
    );
    assert_eq!(result.unwrap_err().message, "synthetic");
    let (steps, result) = commit(Plan::Durable, None, Some(Step::Blobs));
    assert_eq!(steps, [Step::Blobs, Step::Undo]);
    assert_eq!(
        result.unwrap_err().message,
        "UIDONLY canonical projection cancelled"
    );
    let (steps, result) = commit(Plan::Durable, Some(Step::Blobs), None);
    assert_eq!(steps, [Step::Blobs]);
    assert!(result.is_err());
    assert!(Commit::start(Plan::Durable, true).is_err());
    assert!(Commit::start(Plan::Queued, true).is_ok());
}

#[test]
fn rollbacks_tell_what_went_wrong() {
    assert!(rollback_outcome(Ok(()), Ok(())).is_ok());
    assert_eq!(
        rollback_outcome(Err("a".into()), Err("b".into()))
            .unwrap_err()
            .message,
        "UIDONLY canonical rollback failed: a; b"
    );
    assert_eq!(
        rollback_outcome(Ok(()), Err("b".into())).unwrap_err().message,
        "UIDONLY canonical rollback failed: b"
    );
}

#[test]
fn rollbacks_delete_only_uidonly_keys() {
    let ours = blob_key("1");
    let keys = collect_keys(
        Vec::new(),
        &[ours.clone(), "legacy".to_string(), ours.clone()],
        &is_uidonly_key,
    );
    assert_eq!(keys, [ours.clone()]);
    let more = collect_keys(keys, &[blob_key("2"), ours.clone()], &is_uidonly_key);
    assert_eq!(more, [ours, blob_key("2")]);

    let raw = two_parts();
    let keys = attachment_keys(&raw, &compute_content_hash, &blob_key);
    assert_eq!(keys.len(), 2);
    assert_eq!(
        keys[0],
        keyed(&raw, attachment_parts(&raw).unwrap(), true)[0].key
    );
    assert!(attachment_keys(b"", &compute_content_hash, &blob_key).is_empty());
}

#[test]
fn recovered_messages_must_be_the_archived_ones() {
    let raw = two_parts();
    let hash = compute_content_hash(&raw);
    let recover = |body: &[u8], expected: &String, fetched: &String| {
        recover_message_blob(body, expected, fetched, &never, &compute_content_hash)
    };
    let Ok(Recovery::Restored(prepared)) = recover(&raw, &hash, &hash) else {
        panic!("not restored");
    };
    assert_eq!(prepared.detached.email.0, hash);
    assert_eq!(prepared.infos.len(), 2);
    let other = "other".to_string();
    let error = recover(&raw, &other, &hash).unwrap_err();
    assert_eq!(error.code(), ErrorCode::ImapUnexpectedResult);
    assert_eq!(
        error.message,
        format!(
            "Fetched message does not match archived content: expected content_hash=other got={hash}"
        )
    );
    let error = recover(b"", &hash, &hash).unwrap_err();
    assert_eq!(error.message, "Failed to parse fetched email content");
}

#[test]
fn missing_things_are_named() {
    let error = missing_error(Missing::Envelope {
        account_id: 1,
        envelope_id: "e",
    });
    assert_eq!(error.code(), ErrorCode::ResourceNotFound);
    assert_eq!(error.message, "Envelope not found: account_id=1 envelope_id=e");
    let error = missing_error(Missing::Content {
        account_id: 1,
        envelope_id: "e",
        content_hash: "h",
    });
    assert_eq!(
        error.message,
        "Original email content not found: account_id=1 envelope_id=e content_hash=h"
    );
    let error = missing_error(Missing::Mailbox {
        account_id: 1,
        mailbox_id: 2,
    });
    assert_eq!(error.message, "Mailbox not found: account_id=1 mailbox_id=2");
}

#[test]
fn white_space_is_normalized_within_the_ceiling() {
    assert_eq!(normalize_whitespace("  a\t b\n\nc ", None), "a b c");
    assert_eq!(normalize_whitespace("ab cd ef", Some(5)), "ab cd");
    assert_eq!(normalize_whitespace("ab cd ef", Some(4)), "ab");
    assert_eq!(normalize_whitespace("ab", Some(1)), "");
    assert_eq!(normalize_whitespace("\u{e9}\u{3000}x", Some(4)), "\u{e9} x");
}

#[test]
fn raw_headers_are_read_by_their_names() {
    let raw = b"Subject: =?utf-8?q?caf=C3=A9?=\r\nX-Bichon-Metadata: {\"tags\":[]}\r\n\r\nx";
    let headers = read_raw_headers(raw);
    assert_eq!(headers.subject.as_deref().map(str::trim), Some("=?utf-8?q?caf=C3=A9?="));
    assert_eq!(headers.metadata.as_deref().map(str::trim), Some("{\"tags\":[]}"));
    let none = read_raw_headers(b"From: a@example.com\r\n\r\n");
    assert_eq!((none.subject, none.metadata), (None, None));
}

#[test]
fn extensions_are_small_and_follow_the_last_full_stop() {
    let ext = |name: &str| part_extension(&Some(name.to_string()));
    assert_eq!(ext("Report.final.PDF"), "pdf");
    assert_eq!(ext("archive."), "");
    assert_eq!(ext("README"), "");
    assert_eq!(ext(".profile"), "");
    assert_eq!(ext(".."), "");
    assert_eq!(ext("..."), "");
    assert_eq!(ext(""), "");
    assert_eq!(ext("a.\u{c9}"), "\u{c9}");
    assert_eq!(ext("some.dir/Report.PDF"), "pdf");
    assert_eq!(ext("/some.dir/README"), "");
    assert_eq!(ext("some.dir/.."), "");
    assert_eq!(part_extension(&None), "");
}

#[test]
fn known_messages_are_passed_over_unless_their_uid_matters() {
    let raw = two_parts();
    let skipped = extract_all(&raw, false, true, None).unwrap();
    assert_eq!(skipped.extraction, Extraction::Skipped);
    assert_eq!(skipped.plan(), None);
    let kept = extract_all(&raw, true, true, None).unwrap();
    assert_eq!(kept, extract_all(&raw, true, false, None).unwrap());
    assert_eq!(kept.plan(), Some(Plan::Durable));
    assert_eq!(kept.storage.content_hash, compute_content_hash(&raw));
    assert_eq!(
        kept.storage.exact_raw_key,
        exact_raw_key(&compute_content_hash(&raw))
    );
    let queued = extract_all(&raw, false, false, None).unwrap();
    assert_eq!(queued.plan(), Some(Plan::Queued));
    let unparseable = extract_all(b"", true, false, None).unwrap();
    assert_eq!(unparseable.plan(), Some(Plan::Unparseable));
}

#[test]
fn finished_commits_report_the_message() {
    let storage = Storage {
        durable: true,
        content_hash: "hash".into(),
        exact_raw_key: "exact".into(),
    };
    let arrival = given(true, b"x").arrival;
    let given = Given::of(&storage, arrival, Some("fixed".into()), "<made>".into());
    assert_eq!((given.durable, given.content_hash.as_str()), (true, "hash"));
    assert_eq!(
        Given::of(&storage, arrival, None, "<made>".into()).envelope_id.len(),
        36
    );
    let (envelope, _) = project_unparseable_uidonly(b"x", given, "exact".into(), &hex_hash);
    let mut commit = Commit::start(Plan::Unparseable, false).unwrap();
    let mut remembered = false;
    while commit.step() != Step::Finished {
        assert_eq!(canonical_projection(&commit, &envelope), None);
        remembered = remembered || commit.step() == Step::Remember;
        commit = commit.on_outcome(Ok(()), false).unwrap();
    }
    assert!(remembered);
    let projection = canonical_projection(&commit, &envelope).unwrap();
    assert_eq!(projection.envelope_id, "fixed");
    assert_eq!(projection.content_hash, "hash");
    assert!(projection.created);
}

#[test]
fn failed_recovery_reports_the_content_as_not_found() {
    assert_eq!(healed(Ok(7), 1, "e", "h"), Ok(7));
    let failed: Result<u8, BichonError> = Err(raise(ErrorCode::NetworkError, "connection lost"));
    let error = healed(failed, 1, "e", "h").unwrap_err();
    assert_eq!(error.code(), ErrorCode::ResourceNotFound);
    assert_eq!(
        error.message,
        "Original email content not found: account_id=1 envelope_id=e content_hash=h"
    );
}

#[test]
fn extraction_rules_are_asked_about_the_first_sender() {
    let raw = two_parts();
    let by_sender = |part: &AttachmentPart, ext: &str, sender: Option<&str>| {
        assert_eq!(sender, Some("sender@example.com"));
        part.name.as_deref() == Some("one.bin") && ext == "bin"
    };
    let done = extract_envelope_core(
        &raw,
        raw.len() as u32,
        false,
        false,
        None,
        &|_question: &RuleQuestion| true,
        &by_sender,
        &compute_content_hash,
        &blob_key,
        &|_hash: &str| false,
        &exact_raw_key,
    )
    .unwrap();
    let Extraction::Ready(ready) = done.extraction else {
        panic!("not taken apart");
    };
    assert_eq!(ready.prepared.candidates.len(), 1);
    assert_eq!(ready.prepared.candidates[0].bytes, b"AAAAABBBBB");
    let hash = compute_content_hash(&raw);
    let Ok(Recovery::Restored(prepared)) =
        recover_fetched(&raw, &hash, &by_sender, &compute_content_hash)
    else {
        panic!("not restored");
    };
    assert_eq!(prepared.candidates, ready.prepared.candidates);
}

#[test]
fn fetched_messages_are_recovered_by_their_own_hash() {
    let raw = two_parts();
    let hash = compute_content_hash(&raw);
    let restored = recover_fetched(&raw, &hash, &never, &compute_content_hash);
    assert_eq!(
        restored,
        recover_message_blob(&raw, &hash, &hash, &never, &compute_content_hash)
    );
    let mut changed = raw.clone();
    changed.push(b'x');
    let error = recover_fetched(&changed, &hash, &never, &compute_content_hash).unwrap_err();
    assert_eq!(error.code(), ErrorCode::ImapUnexpectedResult);
    assert!(error
        .message
        .ends_with(&format!(" got={}", compute_content_hash(&changed))));
}

#[test]
fn stored_messages_with_the_original_hash_need_nothing() {
    let stored = Bytes::from_static(b"a <<BICHON_DETACH_HASH:k>> b");
    let keys = vec!["k".to_string()];
    let plan = |hash: &str, count: usize| {
        plan_for_stored(
            &stored,
            &hash.to_string(),
            count,
            &keys,
            &compute_content_hash,
        )
    };
    assert_eq!(plan(&compute_content_hash(&stored), 1), Ok(None));
    assert_eq!(plan("other", 0), Ok(None));
    let spots = plan("other", 1).unwrap().unwrap();
    assert_eq!((spots[0].start, spots[0].end, spots[0].which), (2, 26, 0));
    assert_eq!(
        plan("other", 2).unwrap_err().message,
        "Consistency check failed: envelope.attachment_count (2) does not match attachments.len (1)"
    );
}

#[test]
fn imported_messages_have_no_uid() {
    assert_eq!(
        imported(b"abc", 1, 2, 3, 4),
        Arrival {
            account_id: 1,
            mailbox_id: 2,
            uid: 0,
            size: 3,
            internal_date: 3,
            now: 4,
        }
    );
    assert_eq!(budget_of_extraction(true), Some(0));
    assert_eq!(budget_of_extraction(false), None);
}
