//! What holds of the envelope of every message, and of its text.

use crate::detach::Info;
use crate::envelope;
use crate::envelope::{Arrival, FileClass, Indexed, Names, Said};
use crate::mime;
use crate::mime::{Addresses, Ids};
use crate::projection;
use crate::projection::Given;
use crate::text;
use crate::text_laws;
use crate::words;
use vstd::prelude::*;

verus! {

/// The internal date of an envelope is the one of the arrival whenever that is not zero,
/// whatever the header says; otherwise it is the date of the header. That date is the
/// header's in milliseconds, or zero without one.
pub proof fn law_internal_date_is_the_arrivals(
    arrival: Arrival,
    names: Names,
    said: Said,
    seconds: Option<i64>,
    addresses: Addresses,
)
    requires
        seconds matches Some(s) ==> i64::MIN <= s * 1000 <= i64::MAX,
    ensures
        ({
            let envelope = envelope::assembled(arrival, names, said, seconds, addresses);
            &&& arrival.internal_date != 0 ==> envelope.internal_date == arrival.internal_date
            &&& arrival.internal_date == 0 ==> envelope.internal_date == envelope.date
            &&& seconds is None ==> envelope.date == 0
            &&& seconds matches Some(s) ==> envelope.date == s * 1000
        }),
{
}

/// The same of the envelope of a message that was composed; the envelope of bytes that are
/// no message has the arrival's internal date as it is, and no date of its own.
pub proof fn law_composed_dates(
    ids: Ids,
    addresses: Addresses,
    infos: Seq<Info>,
    given: Given,
    result: Indexed,
)
    requires
        ids.timestamp matches Some(s) ==> i64::MIN <= s * 1000 <= i64::MAX,
    ensures
        ({
            let envelope = projection::composed(ids, addresses, infos, given, result);
            &&& given.arrival.internal_date != 0 ==> envelope.internal_date
                == given.arrival.internal_date
            &&& given.arrival.internal_date == 0 ==> envelope.internal_date == envelope.date
            &&& ids.timestamp is None ==> envelope.date == 0
            &&& ids.timestamp matches Some(s) ==> envelope.date == s * 1000
        }),
        ({
            let envelope = projection::unparseable(given, result);
            envelope.internal_date == given.arrival.internal_date && envelope.date == 0
        }),
{
}

/// Where a message came from and where it is kept goes into its envelope as it is: the
/// account, the mailbox, the UID, the size and the time of its arrival, and the names and
/// counts that were given to it.
pub proof fn law_envelope_says_where_the_message_is(
    arrival: Arrival,
    names: Names,
    said: Said,
    seconds: Option<i64>,
    addresses: Addresses,
)
    ensures
        ({
            let envelope = envelope::assembled(arrival, names, said, seconds, addresses);
            &&& envelope.id == names.envelope_id@
            &&& envelope.message_id == names.message_id@
            &&& envelope.thread_id == names.thread_id@
            &&& envelope.content_hash == names.content_hash@
            &&& envelope.account_id == arrival.account_id
            &&& envelope.mailbox_id == arrival.mailbox_id
            &&& envelope.uid == arrival.uid
            &&& envelope.size == arrival.size
            &&& envelope.ingest_at == arrival.now
            &&& envelope.subject == said.subject@
            &&& envelope.preview == said.preview@
            &&& envelope.attachment_count == said.attachment_count
            &&& envelope.regular_attachment_count == said.regular_attachment_count
        }),
{
}

/// A composed envelope: named by the message's own ID where it has one, else by the one
/// made for it, and counting its attachments.
pub proof fn law_composed_envelope_says_where_the_message_is(
    ids: Ids,
    addresses: Addresses,
    infos: Seq<Info>,
    given: Given,
    result: Indexed,
)
    ensures
        ({
            let envelope = projection::composed(ids, addresses, infos, given, result);
            &&& envelope.id == given.envelope_id@
            &&& ids.message_id is Some ==> envelope.message_id == ids.message_id->0
            &&& ids.message_id is None ==> envelope.message_id == given.made_message_id@
            &&& envelope.content_hash == given.content_hash@
            &&& envelope.account_id == given.arrival.account_id
            &&& envelope.mailbox_id == given.arrival.mailbox_id
            &&& envelope.uid == given.arrival.uid
            &&& envelope.size == given.arrival.size
            &&& envelope.ingest_at == given.arrival.now
            &&& envelope.attachment_count == infos.len()
            &&& envelope.subject == result.subject && envelope.preview == result.preview
            &&& envelope.thread_id == result.thread_id && envelope.tags == result.tags
        }),
        ({
            let envelope = projection::unparseable(given, result);
            &&& envelope.id == given.envelope_id@
            &&& envelope.message_id == given.made_message_id@
            &&& envelope.content_hash == given.content_hash@
            &&& envelope.account_id == given.arrival.account_id
            &&& envelope.mailbox_id == given.arrival.mailbox_id
            &&& envelope.uid == given.arrival.uid
            &&& envelope.size == given.arrival.size
            &&& envelope.ingest_at == given.arrival.now
            &&& envelope.attachment_count == 0 && envelope.regular_attachment_count == 0
            &&& envelope.subject.len() == 0 && envelope.preview.len() == 0
            &&& envelope.to.len() == 0 && envelope.cc.len() == 0 && envelope.bcc.len() == 0
            &&& envelope.from == "unknown"@
            &&& envelope.tags is None
        }),
{
}

/// A message inside another one: what it says of itself stands in its envelope, and nothing
/// of where it is kept.
pub proof fn law_nested_envelope_is_nowhere(
    ids: Ids,
    addresses: Addresses,
    account_id: u64,
    made: Seq<char>,
    result: Indexed,
)
    requires
        ids.timestamp matches Some(s) ==> i64::MIN <= s * 1000 <= i64::MAX,
    ensures
        ({
            let envelope = projection::nested(ids, addresses, account_id, made, result);
            &&& ids.message_id is Some ==> envelope.message_id == ids.message_id->0
            &&& ids.message_id is None ==> envelope.message_id == made
            &&& envelope.account_id == account_id
            &&& ids.timestamp is None ==> envelope.date == 0
            &&& ids.timestamp matches Some(s) ==> envelope.date == s * 1000
            &&& envelope.id.len() == 0 && envelope.content_hash.len() == 0
            &&& envelope.mailbox_id == 0 && envelope.uid == 0 && envelope.size == 0
            &&& envelope.internal_date == 0 && envelope.ingest_at == 0
            &&& envelope.attachment_count == 0 && envelope.regular_attachment_count == 0
            &&& envelope.tags is None
            &&& envelope.subject == result.subject && envelope.preview == result.preview
        }),
{
}

/// The sender of a message is the first address of its From header, and unknown where the
/// header is missing, empty, or starts with an entry that has no address.
pub proof fn law_sender_is_the_first_address(addresses: Addresses)
    ensures
        addresses.from matches Some(list) ==> (list.len() > 0 && list[0] is Some
            ==> envelope::sender(addresses.from) == list[0] && envelope::sender_or_unknown(
            addresses.from,
        ) == list[0]->0),
        addresses.from is None || addresses.from->0.len() == 0 || addresses.from->0[0] is None
            ==> envelope::sender(addresses.from) is None && envelope::sender_or_unknown(
            addresses.from,
        ) == "unknown"@,
{
}

/// The addresses of a header: one by one and in their order, entries without an address
/// left out.
pub proof fn law_addresses_are_listed_in_order(
    a: Seq<Option<Seq<char>>>,
    b: Seq<Option<Seq<char>>>,
    address: Seq<char>,
)
    ensures
        envelope::header_addresses(None) == Seq::<Seq<char>>::empty(),
        envelope::header_addresses(Some(seq![Some(address)])) == seq![address],
        envelope::header_addresses(Some(seq![None::<Seq<char>>])) == Seq::<Seq<char>>::empty(),
        envelope::header_addresses(Some(a + b)) == envelope::header_addresses(Some(a))
            + envelope::header_addresses(Some(b)),
    decreases b.len(),
{
    reveal_with_fuel(envelope::listed, 3);
    assert(seq![Some(address)].drop_last() =~= Seq::empty());
    assert(seq![None::<Seq<char>>].drop_last() =~= Seq::empty());
    assert(envelope::listed(seq![Some(address)]) =~= seq![address]);
    if b.len() == 0 {
        assert(a + b =~= a);
        assert(envelope::listed(a) + Seq::<Seq<char>>::empty() =~= envelope::listed(a));
    } else {
        law_addresses_are_listed_in_order(a, b.drop_last(), address);
        assert((a + b).drop_last() =~= a + b.drop_last());
        assert((a + b).last() == b.last());
        let front = envelope::listed(a);
        let middle = envelope::listed(b.drop_last());
        match b.last() {
            Some(last) => {
                assert(front + middle.push(last) =~= (front + middle).push(last));
            },
            None => {},
        }
    }
}

/// The envelope lists the addresses of the To, Cc and Bcc headers, each under its name.
pub proof fn law_recipients_stand_under_their_headers(
    arrival: Arrival,
    names: Names,
    said: Said,
    seconds: Option<i64>,
    addresses: Addresses,
    ids: Ids,
    infos: Seq<Info>,
    given: Given,
    result: Indexed,
)
    ensures
        ({
            let envelope = envelope::assembled(arrival, names, said, seconds, addresses);
            let composed = projection::composed(ids, addresses, infos, given, result);
            &&& envelope.to == envelope::header_addresses(addresses.to)
            &&& envelope.cc == envelope::header_addresses(addresses.cc)
            &&& envelope.bcc == envelope::header_addresses(addresses.bcc)
            &&& envelope.from == envelope::sender_or_unknown(addresses.from)
            &&& composed.to == envelope.to && composed.cc == envelope.cc
            &&& composed.bcc == envelope.bcc && composed.from == envelope.from
        }),
{
}

/// An answer belongs to the thread of the first message that it refers to; a message that
/// answers none, or refers to none, starts a thread of its own. So an answer that refers to
/// a message which started a thread belongs to the same thread.
pub proof fn law_answers_join_their_thread(
    answered: Seq<char>,
    later: Seq<Seq<char>>,
    in_reply_to: Option<Seq<char>>,
    references: Option<Seq<Seq<char>>>,
    message_id: Seq<char>,
    other_id: Seq<char>,
)
    ensures
        in_reply_to is None || references is None || references->0.len() == 0
            ==> envelope::thread_root(in_reply_to, references, message_id) == message_id,
        in_reply_to is Some ==> envelope::thread_root(
            in_reply_to,
            Some(seq![answered] + later),
            message_id,
        ) == envelope::thread_root(None, None, answered),
        in_reply_to is Some ==> envelope::thread_root(
            in_reply_to,
            Some(seq![answered] + later),
            message_id,
        ) == envelope::thread_root(in_reply_to, Some(seq![answered]), other_id),
{
}

/// A tag list is kept whole where it is not empty and every tag starts with a slash;
/// otherwise none of it is.
pub proof fn law_tags_are_kept_whole(list: Seq<Seq<char>>, i: int)
    ensures
        list.len() > 0 && (forall|j: int|
            0 <= j < list.len() ==> (#[trigger] list[j]).len() > 0 && list[j][0] == '/')
            ==> envelope::kept_tags(Some(list)) == Some(list),
        0 <= i < list.len() && (list[i].len() == 0 || list[i][0] != '/') ==> envelope::kept_tags(
            Some(list),
        ) is None,
        list.len() == 0 ==> envelope::kept_tags(Some(list)) is None,
        envelope::kept_tags(None) is None,
{
    if list.len() > 0 && (forall|j: int|
        0 <= j < list.len() ==> (#[trigger] list[j]).len() > 0 && list[j][0] == '/') {
        assert forall|j: int| 0 <= j < list.len() implies envelope::facet(#[trigger] list[j]) by {
            assert(list[j].len() > 0);
        }
    }
    if 0 <= i < list.len() && (list[i].len() == 0 || list[i][0] != '/') {
        assert(!envelope::facet(list[i]));
    }
}

/// A message is marked as spam where one of the headers says yes or true, and only there.
pub proof fn law_spam_is_marked_by_one_header(body: Seq<u8>, headers: Seq<String>, i: int)
    requires
        0 <= i < headers.len(),
    ensures
        mime::raw_header(body, headers[i]@) matches Some(value) ==> (envelope::affirms(value)
            ==> envelope::marked(body, headers)),
        (forall|j: int|
            0 <= j < headers.len() ==> match mime::raw_header(body, (#[trigger] headers[j])@) {
                Some(value) => !envelope::affirms(value),
                None => true,
            }) ==> !envelope::marked(body, headers),
        !envelope::marked(body, Seq::<String>::empty()),
        envelope::affirms("yes"@),
        envelope::affirms("true"@),
        !envelope::affirms(Seq::empty()),
{
    reveal_strlit("yes");
    reveal_strlit("true");
    reveal_with_fuel(text::white_prefix, 2);
    reveal_with_fuel(text::without_trailing, 2);
    assert("yes"@.skip(0) =~= "yes"@);
    assert("true"@.skip(0) =~= "true"@);
    let none = Seq::<char>::empty();
    assert(none.skip(0) =~= none);
    assert(text::trimmed("yes"@) =~= "yes"@);
    assert(text::trimmed("true"@) =~= "true"@);
    assert(text::trimmed(none) =~= none);
}

/// The regular attachments: in their order, those that are not inline or have no content
/// ID.
pub proof fn law_regular_attachments_are_not_shown_inline(a: Seq<Info>, b: Seq<Info>, info: Info)
    ensures
        envelope::regular(a + b) == envelope::regular(a) + envelope::regular(b),
        info.inline && info.content_id is Some ==> envelope::regular(seq![info]).len() == 0,
        !info.inline || info.content_id is None ==> envelope::regular(seq![info]) == seq![info],
    decreases b.len(),
{
    reveal_with_fuel(envelope::regular, 3);
    assert(seq![info].drop_last() =~= Seq::empty());
    assert(Seq::<Info>::empty().push(info) =~= seq![info]);
    if b.len() == 0 {
        assert(a + b =~= a);
        assert(envelope::regular(a) + b =~= envelope::regular(a));
    } else {
        law_regular_attachments_are_not_shown_inline(a, b.drop_last(), info);
        assert((a + b).drop_last() =~= a + b.drop_last());
        assert((a + b).last() == b.last());
        let front = envelope::regular(a);
        let middle = envelope::regular(b.drop_last());
        assert(front + middle.push(b.last()) =~= (front + middle).push(b.last()));
    }
}

/// The record of an attachment says what is known of the attachment and of its message, and
/// has a text and is indexed just where text was extracted.
pub proof fn law_records_tell_of_attachment_and_message(
    info: Info,
    id: Seq<char>,
    class: FileClass,
    envelope: Indexed,
)
    ensures
        ({
            let record = envelope::recorded(info, id, class, envelope);
            &&& record.id == id
            &&& record.envelope_id == envelope.id
            &&& record.account_id == envelope.account_id
            &&& record.mailbox_id == envelope.mailbox_id
            &&& record.subject == envelope.subject
            &&& record.from == envelope.from
            &&& record.date == envelope.date
            &&& record.ingest_at == envelope.ingest_at
            &&& record.content_hash == info.content_hash
            &&& record.size == info.size
            &&& record.content_type == info.file_type
            &&& record.name == info.filename
            &&& record.is_message == info.is_message
            &&& record.is_ocr == info.extracted_is_ocr
            &&& record.text == info.extracted_text
            &&& record.has_text <==> info.extracted_text is Some
            &&& record.is_indexed <==> info.extracted_text is Some
            &&& record.page_count is Some <==> info.extracted_page_count is Some
            &&& info.extracted_page_count matches Some(n) ==> record.page_count == Some(n as int)
            &&& class.ext matches Some(ext) ==> record.ext == Some(ext@)
            &&& class.ext is None ==> record.ext is None
            &&& record.category == class.category@
            &&& record.account_email is None && record.mailbox_name is None
            &&& record.tags is None && record.auto_tags is None && record.shard_id == 0
        }),
{
}

/// A preview is the text itself where it has at most so many characters, and otherwise its
/// first characters with three dots behind them.
pub proof fn law_preview_starts_the_text(s: Seq<char>, limit: int)
    requires
        0 <= limit,
    ensures
        s.len() <= limit ==> words::previewed(s, limit) == s,
        s.len() > limit ==> {
            let shown = words::previewed(s, limit);
            &&& shown.len() == limit + 3
            &&& forall|i: int| 0 <= i < limit ==> #[trigger] shown[i] == s[i]
            &&& shown[limit] == '.' && shown[limit + 1] == '.' && shown[limit + 2] == '.'
        },
{
    reveal_strlit("...");
}

/// Text is searchable whole where the message is not durable, and up to a ceiling of
/// sixteen mebibytes where it is; no text is extracted from the attachments of a durable
/// message.
pub proof fn law_durable_text_is_bounded(durable: bool)
    ensures
        durable ==> projection::text_ceiling(durable) == 16 * 1024 * 1024,
        !durable ==> projection::text_ceiling(durable) == usize::MAX,
        durable ==> projection::extraction_budget(durable) == Some(0usize),
        !durable ==> projection::extraction_budget(durable) is None,
{
}

/// A text without white space is one word; white space has none; and the words of two texts
/// with white space between them are those of the one and then those of the other.
pub proof fn law_white_space_separates_words(a: Seq<char>, b: Seq<char>, c: char)
    requires
        text::white(c),
    ensures
        words::words(Seq::<char>::empty()).len() == 0,
        a.len() > 0 && (forall|i: int| 0 <= i < a.len() ==> !text::white(#[trigger] a[i]))
            ==> words::words(a) == seq![a],
        words::words(a.push(c) + b) == words::words(a) + words::words(b),
    decreases a.len(),
{
    if a.len() > 0 && (forall|i: int| 0 <= i < a.len() ==> !text::white(#[trigger] a[i])) {
        lemma_whole_word(a);
        assert(a.take(a.len() as int) =~= a);
        assert(a.skip(a.len() as int) =~= Seq::empty());
        assert(!text::white(a[0]));
        let n = words::word_len(a);
        assert(words::words(a) == seq![a.take(n)] + words::words(a.skip(n)));
        assert(words::words(a) =~= seq![a]);
    }
    let all = a.push(c) + b;
    if a.len() == 0 {
        assert(all[0] == c);
        assert(all.drop_first() =~= b);
        assert(words::words(a) + words::words(b) =~= words::words(b));
    } else if text::white(a[0]) {
        law_white_space_separates_words(a.drop_first(), b, c);
        assert(all.drop_first() =~= a.drop_first().push(c) + b);
    } else {
        words::lemma_word_len(a);
        let n = words::word_len(a);
        lemma_word_ends_alike(a, b, c);
        assert(words::word_len(all) == n);
        law_white_space_separates_words(a.skip(n), b, c);
        assert(all.take(n) =~= a.take(n));
        assert(all.skip(n) =~= a.skip(n).push(c) + b);
        assert(words::words(all) == seq![all.take(n)] + words::words(all.skip(n)));
        assert(seq![a.take(n)] + (words::words(a.skip(n)) + words::words(b)) =~= (seq![a.take(n)]
            + words::words(a.skip(n))) + words::words(b));
    }
}

proof fn lemma_whole_word(a: Seq<char>)
    requires
        forall|i: int| 0 <= i < a.len() ==> !text::white(#[trigger] a[i]),
    ensures
        words::word_len(a) == a.len(),
    decreases a.len(),
{
    if a.len() > 0 {
        let rest = a.drop_first();
        assert forall|i: int| 0 <= i < rest.len() implies !text::white(#[trigger] rest[i]) by {
            assert(rest[i] == a[i + 1]);
        }
        assert(!text::white(a[0]));
        lemma_whole_word(rest);
    }
}

proof fn lemma_word_ends_alike(a: Seq<char>, b: Seq<char>, c: char)
    requires
        text::white(c),
    ensures
        words::word_len(a.push(c) + b) == words::word_len(a),
    decreases a.len(),
{
    let all = a.push(c) + b;
    if a.len() == 0 {
        assert(all[0] == c);
    } else {
        assert(all[0] == a[0]);
        assert(all.drop_first() =~= a.drop_first().push(c) + b);
        lemma_word_ends_alike(a.drop_first(), b, c);
    }
}

/// The words of a normalised text stand with one space between them.
pub proof fn law_words_are_spaced_by_one(list: Seq<Seq<char>>, word: Seq<char>)
    ensures
        words::spaced(Seq::<Seq<char>>::empty()).len() == 0,
        words::spaced(seq![word]) == word,
        list.len() > 0 ==> words::spaced(list.push(word)) == words::spaced(list) + seq![' ']
            + word,
{
    if list.len() > 0 {
        assert(list.push(word).drop_last() =~= list);
        assert(words::spaced(list).push(' ') =~= words::spaced(list) + seq![' ']);
    }
}

/// As many words are kept as fit: all of them where the text with all of its words fits
/// into the ceiling, and otherwise so many that one more would not fit.
pub proof fn law_as_many_words_are_kept_as_fit(s: Seq<char>, ceiling: usize)
    ensures
        ({
            let all = words::words(s);
            exists|n: int|
                {
                    &&& 0 <= n <= all.len()
                    &&& words::normalized(s, ceiling) == words::spaced(#[trigger] all.take(n))
                    &&& n < all.len() ==> words::byte_len(words::spaced(all.take(n + 1)))
                        > ceiling
                }
        }),
{
    let all = words::words(s);
    lemma_fitting_is_maximal(all, 0, ceiling);
    let n = words::fitting(all, 0, ceiling);
    assert(words::normalized(s, ceiling) == words::spaced(all.take(n)));
}

proof fn lemma_fitting_is_maximal(list: Seq<Seq<char>>, k: int, ceiling: usize)
    requires
        0 <= k <= list.len(),
    ensures
        k <= words::fitting(list, k, ceiling) <= list.len(),
        words::fitting(list, k, ceiling) < list.len() ==> words::byte_len(
            words::spaced(list.take(words::fitting(list, k, ceiling) + 1)),
        ) > ceiling,
    decreases list.len() - k,
{
    if k < list.len() && words::byte_len(words::spaced(list.take(k + 1))) <= ceiling {
        lemma_fitting_is_maximal(list, k + 1, ceiling);
    }
}

/// A header says yes where it is `yes` or `true` in whatever case, white space around it
/// aside, and nowhere else.
pub proof fn law_headers_affirm_in_any_case(before: Seq<char>, word: Seq<char>, after: Seq<char>)
    requires
        word.len() > 0 ==> !text::white(word[0]) && !text::white(word[word.len() - 1]),
        forall|i: int| 0 <= i < before.len() ==> text::white(#[trigger] before[i]),
        forall|i: int| 0 <= i < after.len() ==> text::white(#[trigger] after[i]),
    ensures
        envelope::affirms(before + word + after) <==> text::lowercase(word) == text::lowercase(
            "yes"@,
        ) || text::lowercase(word) == text::lowercase("true"@),
{
    text_laws::law_trimming_keeps_what_is_inside(before, word, after);
    text_laws::law_words_agree_in_small_letters(word, "yes"@);
    text_laws::law_words_agree_in_small_letters(word, "true"@);
}

/// The text of a message is its plain body where it has one, and nothing where it has no
/// body at all; what is searchable of it are its words.
pub proof fn law_plain_text_is_preferred<E: Fn(&str) -> String>(
    texts: mime::Texts,
    extract_text: E,
    durable: bool,
    chosen: Seq<char>,
    body_text: Seq<char>,
)
    ensures
        envelope::chosen_text(texts, extract_text, chosen) && texts.text is Some ==> chosen
            == texts.text->0,
        envelope::chosen_text(texts, extract_text, chosen) && texts.text is None && texts.html
            is None ==> chosen.len() == 0,
        projection::searchable(texts, extract_text, durable, body_text) && texts.text is Some
            ==> body_text == words::normalized(
            texts.text->0,
            if durable {
                16_777_216
            } else {
                usize::MAX
            },
        ),
{
}

/// The subject of a message is the one that was decoded, unless a character was lost in
/// decoding it; without a subject it is empty.
pub proof fn law_decoded_subject_is_kept<N: Fn(Option<&str>) -> String>(
    texts: mime::Texts,
    headers: mime::Headers,
    normalize_subject: N,
    subject: Seq<char>,
)
    requires
        envelope::chosen_subject(texts, headers, normalize_subject, subject),
    ensures
        texts.subject is None ==> subject.len() == 0,
        texts.subject matches Some(decoded) ==> (!decoded.contains('\u{FFFD}') ==> subject
            == decoded),
        texts.subject matches Some(decoded) ==> (decoded.contains('\u{FFFD}') ==> exists|
            raw: Option<&str>,
            out: String,
        |
            envelope::seen_ref(raw) == headers.subject && out@ == subject
                && #[trigger] normalize_subject.ensures((raw,), out)),
{
}

/// The subject and the metadata of a message are read from the headers of these names.
pub proof fn law_headers_are_read_by_name(body: Seq<u8>)
    ensures
        mime::headers_of(body).subject == mime::raw_header(body, "Subject"@),
        mime::headers_of(body).metadata == mime::raw_header(body, "X-Bichon-Metadata"@),
{
}

/// Without metadata a message has no tags.
pub proof fn law_tags_come_from_the_metadata<M: Fn(&str) -> Option<Vec<String>>>(
    headers: mime::Headers,
    parse_metadata: M,
    tags: Option<Seq<Seq<char>>>,
)
    requires
        projection::chosen_tags(headers, parse_metadata, tags),
    ensures
        headers.metadata is None ==> tags is None,
        headers.metadata matches Some(metadata) ==> exists|header: &str, out: Option<Vec<String>>|
            {
                &&& header@ == metadata
                &&& #[trigger] parse_metadata.ensures((header,), out)
                &&& tags == envelope::kept_tags(mime::seen_list(out))
            },
{
}

/// The rules, where there are any, are asked about the message itself: its first sender,
/// its subject, its size, and whether one of the headers marks it as spam. Without rules
/// every message is archived.
pub proof fn law_rules_are_asked_about_the_message<A: Fn(&envelope::RuleQuestion) -> bool>(
    body: Seq<u8>,
    size: u32,
    spam_headers: Option<Vec<String>>,
    should_archive: A,
    answer: bool,
)
    requires
        projection::answered(body, size, spam_headers, should_archive, answer),
    ensures
        spam_headers is None ==> answer,
        spam_headers matches Some(headers) ==> exists|question: &envelope::RuleQuestion|
            {
                &&& mime::seen(question.sender) == envelope::sender(
                    mime::parsed_addresses(body)->0.from,
                )
                &&& mime::seen(question.subject) == mime::parsed_texts(body)->0.subject
                &&& question.size == size
                &&& question.is_spam == envelope::marked(body, headers@)
                &&& #[trigger] should_archive.ensures((question,), answer)
            },
{
    if let Some(headers) = spam_headers {
        let question = choose|question: &envelope::RuleQuestion|
            projection::asked(body, size, headers@, *question) && #[trigger] should_archive.ensures(
                (question,),
                answer,
            );
        assert(should_archive.ensures((question,), answer));
    }
}

/// The text of a message without a plain body is what is read off its HTML body, all of it
/// and nothing else.
pub proof fn law_markup_is_read_whole<E: Fn(&str) -> String>(
    texts: mime::Texts,
    extract_text: E,
    chosen: Seq<char>,
)
    requires
        envelope::chosen_text(texts, extract_text, chosen),
        texts.text is None,
        texts.html is Some,
    ensures
        exists|html: &str, out: String|
            {
                &&& html@ == texts.html->0
                &&& out@ == chosen
                &&& #[trigger] extract_text.ensures((html,), out)
            },
{
    let (html, out) = choose|html: &str, out: String|
        html@ == texts.html->0 && out@ == chosen && #[trigger] extract_text.ensures((html,), out);
    assert(extract_text.ensures((html,), out));
}

/// The thread of a message is the hash of the root of its thread, and that of bytes that are
/// no message the hash of where they stand.
pub proof fn law_threads_are_hashes_of_their_roots<H: Fn(&str) -> String>(
    ids: Ids,
    message_id: Seq<char>,
    arrival: Arrival,
    hex_hash: H,
    thread_id: Seq<char>,
)
    ensures
        projection::threaded(ids, message_id, hex_hash, thread_id) ==> exists|
            root: &str,
            out: String,
        |
            {
                &&& root@ == (if ids.in_reply_to is Some && ids.references is Some
                    && ids.references->0.len() > 0 {
                    ids.references->0[0]
                } else {
                    message_id
                })
                &&& #[trigger] hex_hash.ensures((root,), out)
                &&& out@ == thread_id
            },
        projection::placed_thread(arrival, hex_hash, thread_id) ==> exists|root: &str, out: String|
            {
                &&& root@ == projection::unparseable_root(arrival)
                &&& #[trigger] hex_hash.ensures((root,), out)
                &&& out@ == thread_id
            },
{
    if projection::threaded(ids, message_id, hex_hash, thread_id) {
        let (root, out) = choose|root: &str, out: String|
            {
                &&& root@ == envelope::thread_root(ids.in_reply_to, ids.references, message_id)
                &&& #[trigger] hex_hash.ensures((root,), out)
                &&& out@ == thread_id
            };
        assert(hex_hash.ensures((root,), out));
    }
    if projection::placed_thread(arrival, hex_hash, thread_id) {
        let (root, out) = choose|root: &str, out: String|
            {
                &&& root@ == projection::unparseable_root(arrival)
                &&& #[trigger] hex_hash.ensures((root,), out)
                &&& out@ == thread_id
            };
        assert(hex_hash.ensures((root,), out));
    }
}

/// The records of a message are those of its regular attachments, one each and in their
/// order; each tells of its attachment and belongs to the message's envelope.
pub proof fn law_every_regular_attachment_is_recorded<
    C: Fn(&crate::blob::AttachmentInfo) -> FileClass,
>(
    infos: Seq<Info>,
    classify: C,
    envelope: Indexed,
    records: Seq<envelope::AttachmentRecord>,
    i: int,
)
    requires
        projection::all_recorded(infos, classify, envelope, records),
        0 <= i < records.len(),
    ensures
        records.len() == envelope::regular(infos).len(),
        records[i]@.content_hash == envelope::regular(infos)[i].content_hash,
        records[i]@.name == envelope::regular(infos)[i].filename,
        records[i]@.size == envelope::regular(infos)[i].size,
        records[i]@.text == envelope::regular(infos)[i].extracted_text,
        records[i]@.envelope_id == envelope.id,
        records[i]@.account_id == envelope.account_id,
        records[i]@.mailbox_id == envelope.mailbox_id,
        records[i]@.id.len() == 36,
{
    assert(envelope::recorded_as(
        envelope::regular(infos)[i],
        classify,
        envelope,
        records[i]@,
    ));
}

} // verus!
