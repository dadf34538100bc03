//! The envelope of a message: what the archive's index says of it.

use crate::blob::AttachmentInfo;
use crate::detach;
use crate::detach::{copy_text, Info};
use crate::mime;
use crate::mime::{
    read_addresses, read_header, read_texts, Addresses, Headers, MessageAddresses, MessageTexts,
    RawHeaders, Texts,
};
use crate::text;
use crate::text::{characters, is_same_word, push_numeral, push_text, text_of, trim};
use tantivy::schema::Facet;
use uuid::Uuid;
use vstd::prelude::*;

verus! {

/// How many characters a preview shows.
pub const PREVIEW_LIMIT: usize = 100;

/// How many bytes of text are searchable in a message that is projected durably.
pub const DURABLE_TEXT_BYTES: usize = 16_777_216;

/// What the index says of a message.
#[derive(Debug, PartialEq, Eq)]
pub struct Envelope {
    pub id: String,
    pub message_id: String,
    pub account_id: u64,
    pub mailbox_id: u64,
    pub uid: u32,
    pub subject: String,
    pub preview: String,
    pub from: String,
    pub to: Vec<String>,
    pub cc: Vec<String>,
    pub bcc: Vec<String>,
    pub date: i64,
    pub internal_date: i64,
    pub ingest_at: i64,
    pub size: u32,
    pub thread_id: String,
    pub attachment_count: usize,
    pub regular_attachment_count: usize,
    pub tags: Option<Vec<String>>,
    pub content_hash: String,
    pub account_email: Option<String>,
    pub account_name: Option<String>,
    pub mailbox_name: Option<String>,
}

/// The view of an [`Envelope`].
#[verifier::ext_equal]
pub ghost struct Indexed {
    pub id: Seq<char>,
    pub message_id: Seq<char>,
    pub account_id: u64,
    pub mailbox_id: u64,
    pub uid: u32,
    pub subject: Seq<char>,
    pub preview: Seq<char>,
    pub from: Seq<char>,
    pub to: Seq<Seq<char>>,
    pub cc: Seq<Seq<char>>,
    pub bcc: Seq<Seq<char>>,
    pub date: i64,
    pub internal_date: i64,
    pub ingest_at: i64,
    pub size: u32,
    pub thread_id: Seq<char>,
    pub attachment_count: int,
    pub regular_attachment_count: int,
    pub tags: Option<Seq<Seq<char>>>,
    pub content_hash: Seq<char>,
    pub account_email: Option<Seq<char>>,
    pub account_name: Option<Seq<char>>,
    pub mailbox_name: Option<Seq<char>>,
}

impl View for Envelope {
    type V = Indexed;

    open spec fn view(&self) -> Indexed {
        Indexed {
            id: self.id@,
            message_id: self.message_id@,
            account_id: self.account_id,
            mailbox_id: self.mailbox_id,
            uid: self.uid,
            subject: self.subject@,
            preview: self.preview@,
            from: self.from@,
            to: mime::seen_all(self.to@),
            cc: mime::seen_all(self.cc@),
            bcc: mime::seen_all(self.bcc@),
            date: self.date,
            internal_date: self.internal_date,
            ingest_at: self.ingest_at,
            size: self.size,
            thread_id: self.thread_id@,
            attachment_count: self.attachment_count as int,
            regular_attachment_count: self.regular_attachment_count as int,
            tags: mime::seen_list(self.tags),
            content_hash: self.content_hash@,
            account_email: mime::seen(self.account_email),
            account_name: mime::seen(self.account_name),
            mailbox_name: mime::seen(self.mailbox_name),
        }
    }
}

/// Where and when a message arrived.
#[derive(Clone, Copy, Debug, PartialEq, Eq, Structural)]
pub struct Arrival {
    pub account_id: u64,
    pub mailbox_id: u64,
    pub uid: u32,
    pub size: u32,
    pub internal_date: i64,
    pub now: i64,
}

/// How a message arrived that no server listed: it has no UID, and its size is that of its
/// bytes, reduced to 32 bits.
pub fn imported(
    body: &[u8],
    account_id: u64,
    mailbox_id: u64,
    internal_date: i64,
    now: i64,
) -> (arrival: Arrival)
    ensures
        arrival == (Arrival {
            account_id,
            mailbox_id,
            uid: 0,
            size: body@.len() as u32,
            internal_date,
            now,
        }),
{
    let size: u32 = #[verifier::truncate]
    (body.len() as u32);
    Arrival { account_id, mailbox_id, uid: 0, size, internal_date, now }
}

/// What a thread is known by: the first reference of an answer that has one, else the
/// ID of the message.
pub open spec fn thread_root(
    in_reply_to: Option<Seq<char>>,
    references: Option<Seq<Seq<char>>>,
    message_id: Seq<char>,
) -> Seq<char> {
    match references {
        Some(list) => if in_reply_to is Some && list.len() > 0 {
            list[0]
        } else {
            message_id
        },
        None => message_id,
    }
}

/// The thread of a message: the hash of what the thread is known by.
pub fn compute_thread_id<H: Fn(&str) -> String>(
    in_reply_to: Option<String>,
    references: Option<Vec<String>>,
    message_id: &str,
    hex_hash: &H,
) -> (thread_id: String)
    requires
        forall|text: &str| #[trigger] hex_hash.requires((text,)),
    ensures
        exists|root: &str|
            root@ == thread_root(
                mime::seen(in_reply_to),
                mime::seen_list(references),
                message_id@,
            ) && #[trigger] hex_hash.ensures((root,), thread_id),
{
    match &references {
        Some(list) => {
            if in_reply_to.is_some() && list.len() > 0 {
                assert(mime::seen_all(list@)[0] == list@[0]@);
                let root = list[0].as_str();
                let thread_id = hex_hash(root);
                assert(hex_hash.ensures((root,), thread_id));
                return thread_id;
            }
        },
        None => {},
    }
    let thread_id = hex_hash(message_id);
    assert(hex_hash.ensures((message_id,), thread_id));
    thread_id
}

/// The hexadecimal digit of a number below sixteen.
pub open spec fn hex_digit(d: int) -> char {
    if d < 10 {
        (48 + d) as char
    } else {
        (87 + d) as char
    }
}

/// The hexadecimal numeral of a number, without leading zeros.
pub open spec fn hexadecimal(n: nat) -> Seq<char>
    decreases n,
{
    if n < 16 {
        seq![hex_digit(n as int)]
    } else {
        hexadecimal(n / 16).push(hex_digit((n % 16) as int))
    }
}

/// A text with zeros before it up to a width.
pub open spec fn zero_padded(digits: Seq<char>, width: int) -> Seq<char> {
    if digits.len() < width {
        Seq::new((width - digits.len()) as nat, |i: int| '0') + digits
    } else {
        digits
    }
}

/// The numeral of a number, with a sign where it is negative.
pub open spec fn signed_numeral(n: int) -> Seq<char> {
    if n < 0 {
        "-"@ + text::numeral((-n) as nat)
    } else {
        text::numeral(n as nat)
    }
}

fn hex_digit_char(d: u8) -> (c: char)
    requires
        d < 16,
    ensures
        c == hex_digit(d as int),
{
    if d < 10 {
        (48 + d) as char
    } else {
        (87 + d) as char
    }
}

fn push_hexadecimal(out: &mut String, n: u128)
    ensures
        final(out)@ == old(out)@ + hexadecimal(n as nat),
    decreases n,
{
    let d: u8 = (n % 16) as u8;
    if n >= 16 {
        push_hexadecimal(out, n / 16);
    }
    out.push(hex_digit_char(d));
    assert(out@ =~= old(out)@ + hexadecimal(n as nat));
}

fn push_padded_hexadecimal(out: &mut String, n: u128, width: usize)
    ensures
        final(out)@ == old(out)@ + zero_padded(hexadecimal(n as nat), width as int),
{
    let mut digits = String::new();
    push_hexadecimal(&mut digits, n);
    assert(digits@ =~= hexadecimal(n as nat));
    let len: usize = characters(digits.as_str()).len();
    let mut written: usize = len;
    while written < width
        invariant
            len <= written,
            written <= width || written == len,
            out@ == old(out)@ + Seq::new((written - len) as nat, |i: int| '0'),
        decreases width - written,
    {
        let ghost zeros = Seq::new((written - len) as nat, |i: int| '0');
        out.push('0');
        written = written + 1;
        assert(zeros.push('0') =~= Seq::new((written - len) as nat, |i: int| '0'));
        assert((old(out)@ + zeros).push('0') =~= old(out)@ + zeros.push('0'));
    }
    push_text(out, digits.as_str());
    assert(out@ =~= old(out)@ + zero_padded(digits@, width as int));
}

fn push_signed_numeral(out: &mut String, n: i64)
    ensures
        final(out)@ == old(out)@ + signed_numeral(n as int),
{
    if n < 0 {
        push_text(out, "-");
        let below: i64 = -(n + 1);
        push_numeral(out, below as u64 + 1);
        assert(out@ =~= old(out)@ + signed_numeral(n as int));
    } else {
        push_numeral(out, n as u64);
    }
}

/// The ID of a message that came without one.
pub open spec fn made_message_id(id: nat, timestamp: int, pid: nat) -> Seq<char> {
    "<"@ + zero_padded(hexadecimal(id), 16) + "."@ + signed_numeral(timestamp) + "."@
        + text::numeral(pid) + "@bichon>"@
}

/// Makes the ID of a message that came without one, from a random number, the time and
/// the process.
pub fn generate_message_id(id: u128, timestamp: i64, pid: u32) -> (message_id: String)
    ensures
        message_id@ == made_message_id(id as nat, timestamp as int, pid as nat),
{
    let mut message_id = String::new();
    push_text(&mut message_id, "<");
    push_padded_hexadecimal(&mut message_id, id, 16);
    push_text(&mut message_id, ".");
    push_signed_numeral(&mut message_id, timestamp);
    push_text(&mut message_id, ".");
    push_numeral(&mut message_id, pid as u64);
    push_text(&mut message_id, "@bichon>");
    assert(message_id@ =~= made_message_id(id as nat, timestamp as int, pid as nat));
    message_id
}

/// The text of a message: its plain body, else what is read off its HTML body, else
/// nothing.
pub open spec fn chosen_text<E: Fn(&str) -> String>(
    texts: Texts,
    extract_text: E,
    chosen: Seq<char>,
) -> bool {
    match texts.text {
        Some(plain) => chosen == plain,
        None => match texts.html {
            Some(markup) => exists|html: &str, out: String|
                html@ == markup && out@ == chosen && #[trigger] extract_text.ensures((html,), out),
            None => chosen == Seq::<char>::empty(),
        },
    }
}

/// Chooses the text of a message.
pub fn choose_text<E: Fn(&str) -> String>(texts: &MessageTexts, extract_text: &E) -> (chosen: String)
    requires
        forall|html: &str| #[trigger] extract_text.requires((html,)),
    ensures
        chosen_text(texts@, *extract_text, chosen@),
{
    match &texts.text {
        Some(plain) => plain.as_str().to_owned(),
        None => match &texts.html {
            Some(markup) => {
                let html = markup.as_str();
                let out = extract_text(html);
                assert(extract_text.ensures((html,), out));
                out
            },
            None => String::new(),
        },
    }
}

/// A borrowed text taken by its view, where there is one.
pub open spec fn seen_ref(s: Option<&str>) -> Option<Seq<char>> {
    match s {
        Some(s) => Some(s@),
        None => None,
    }
}

/// Borrows a text, where there is one.
pub fn text_ref(s: &Option<String>) -> (shown: Option<&str>)
    ensures
        seen_ref(shown) == mime::seen(*s),
{
    match s {
        Some(s) => Some(s.as_str()),
        None => None,
    }
}

/// The subject as the parser decoded it, empty where there is none.
pub open spec fn parsed_subject(texts: Texts) -> Seq<char> {
    match texts.subject {
        Some(subject) => subject,
        None => Seq::empty(),
    }
}

/// The subject of a message: as it was decoded, unless characters were lost; then what
/// is made of the header as it stands.
pub open spec fn chosen_subject<N: Fn(Option<&str>) -> String>(
    texts: Texts,
    headers: Headers,
    normalize_subject: N,
    subject: Seq<char>,
) -> bool {
    if parsed_subject(texts).contains('\u{FFFD}') {
        exists|raw: Option<&str>, out: String|
            seen_ref(raw) == headers.subject && out@ == subject
                && #[trigger] normalize_subject.ensures((raw,), out)
    } else {
        subject == parsed_subject(texts)
    }
}

fn has_lost_characters(s: &str) -> (result: bool)
    ensures
        result == s@.contains('\u{FFFD}'),
{
    let all = characters(s);
    let mut i: usize = 0;
    while i < all.len()
        invariant
            i <= all@.len(),
            all@ == s@,
            forall|j: int| 0 <= j < i ==> s@[j] != '\u{FFFD}',
        decreases all.len() - i,
    {
        if all[i] == '\u{FFFD}' {
            assert(s@[i as int] == '\u{FFFD}');
            return true;
        }
        i = i + 1;
    }
    false
}

/// Chooses the subject of a message.
pub fn choose_subject<N: Fn(Option<&str>) -> String>(
    texts: &MessageTexts,
    headers: &RawHeaders,
    normalize_subject: &N,
) -> (subject: String)
    requires
        forall|raw: Option<&str>| #[trigger] normalize_subject.requires((raw,)),
    ensures
        chosen_subject(texts@, headers@, *normalize_subject, subject@),
{
    let subject = match &texts.subject {
        Some(subject) => subject.as_str().to_owned(),
        None => String::new(),
    };
    if !has_lost_characters(subject.as_str()) {
        return subject;
    }
    let raw = text_ref(&headers.subject);
    let out = normalize_subject(raw);
    assert(normalize_subject.ensures((raw,), out));
    out
}

/// The addresses of a header; entries without one are left out.
pub open spec fn listed(list: Seq<Option<Seq<char>>>) -> Seq<Seq<char>>
    decreases list.len(),
{
    if list.len() == 0 {
        Seq::empty()
    } else {
        match list.last() {
            Some(address) => listed(list.drop_last()).push(address),
            None => listed(list.drop_last()),
        }
    }
}

/// The addresses of a header that may be missing.
pub open spec fn header_addresses(list: Option<Seq<Option<Seq<char>>>>) -> Seq<Seq<char>> {
    match list {
        Some(list) => listed(list),
        None => Seq::empty(),
    }
}

/// The address of the first sender.
pub open spec fn sender(list: Option<Seq<Option<Seq<char>>>>) -> Option<Seq<char>> {
    match list {
        Some(list) => if list.len() > 0 {
            list[0]
        } else {
            None
        },
        None => None,
    }
}

/// The address of the first sender, or a word for its absence.
pub open spec fn sender_or_unknown(list: Option<Seq<Option<Seq<char>>>>) -> Seq<char> {
    match sender(list) {
        Some(address) => address,
        None => "unknown"@,
    }
}

fn list_addresses(list: &Option<Vec<Option<String>>>) -> (result: Vec<String>)
    ensures
        mime::seen_all(result@) == header_addresses(mime::seen_addresses(*list)),
{
    let mut result: Vec<String> = Vec::new();
    assert(mime::seen_all(result@) =~= Seq::<Seq<char>>::empty());
    match list {
        None => {},
        Some(entries) => {
            collect_addresses(entries.as_slice(), &mut result);
        },
    }
    result
}

fn collect_addresses(entries: &[Option<String>], result: &mut Vec<String>)
    requires
        old(result)@.len() == 0,
    ensures
        mime::seen_all(final(result)@) == listed(
            entries@.map_values(|address: Option<String>| mime::seen(address)),
        ),
{
    let ghost all = entries@.map_values(|address: Option<String>| mime::seen(address));
    let mut i: usize = 0;
    proof {
        assert(all.take(0) =~= Seq::<Option<Seq<char>>>::empty());
        assert(mime::seen_all(result@) =~= Seq::<Seq<char>>::empty());
    }
    while i < entries.len()
        invariant
            i <= entries@.len(),
            all == entries@.map_values(|address: Option<String>| mime::seen(address)),
            mime::seen_all(result@) == listed(all.take(i as int)),
        decreases entries.len() - i,
    {
        let ghost before = result@;
        proof {
            assert(all.take(i + 1).drop_last() =~= all.take(i as int));
            assert(all.take(i + 1).last() == all[i as int]);
            assert(all[i as int] == mime::seen(entries@[i as int]));
        }
        match &entries[i] {
            Some(address) => {
                result.push(address.as_str().to_owned());
                assert(mime::seen_all(result@) =~= mime::seen_all(before).push(address@));
            },
            None => {},
        }
        i = i + 1;
    }
    assert(all.take(i as int) =~= all);
}

/// Reads the address of the first sender.
pub fn first_sender(addresses: &MessageAddresses) -> (result: Option<String>)
    ensures
        mime::seen(result) == sender(addresses@.from),
{
    match &addresses.from {
        Some(list) => if list.len() > 0 {
            assert(addresses@.from == Some(
                list@.map_values(|address: Option<String>| mime::seen(address)),
            ));
            copy_text(&list[0])
        } else {
            None
        },
        None => None,
    }
}

/// A date of the index, in milliseconds, from one in seconds.
pub open spec fn milliseconds(seconds: Option<i64>) -> int {
    match seconds {
        Some(seconds) => seconds * 1000,
        None => 0,
    }
}

/// The date in milliseconds is a machine integer.
pub open spec fn datable(seconds: Option<i64>) -> bool {
    i64::MIN <= milliseconds(seconds) <= i64::MAX
}

/// When a message was received: when the server says it was, else its own date.
pub open spec fn received(internal_date: i64, date: int) -> int {
    if internal_date == 0 {
        date
    } else {
        internal_date as int
    }
}

fn date_of(seconds: Option<i64>) -> (date: i64)
    requires
        datable(seconds),
    ensures
        date == milliseconds(seconds),
{
    match seconds {
        Some(seconds) => seconds * 1000,
        None => 0,
    }
}

/// A header value says yes.
pub open spec fn affirms(value: Seq<char>) -> bool {
    text::same_word(text::trimmed(value), "yes"@) || text::same_word(
        text::trimmed(value),
        "true"@,
    )
}

fn is_affirmed(value: &str) -> (result: bool)
    ensures
        result == affirms(value@),
{
    let all = characters(value);
    let word = text_of(trim(all.as_slice()));
    is_same_word(word.as_str(), "yes") || is_same_word(word.as_str(), "true")
}

/// A message is marked as spam by one of its headers.
pub open spec fn marked(body: Seq<u8>, headers: Seq<String>) -> bool {
    exists|i: int|
        0 <= i < headers.len() && match mime::raw_header(body, (#[trigger] headers[i])@) {
            Some(value) => affirms(value),
            None => false,
        }
}

/// Whether one of some headers marks a message as spam.
pub fn is_marked_as_spam(body: &[u8], spam_headers: &[String]) -> (result: bool)
    requires
        mime::addressable(body@),
    ensures
        result == marked(body@, spam_headers@),
{
    let mut i: usize = 0;
    while i < spam_headers.len()
        invariant
            mime::addressable(body@),
            i <= spam_headers@.len(),
            forall|j: int|
                0 <= j < i ==> !match mime::raw_header(body@, (#[trigger] spam_headers@[j])@) {
                    Some(value) => affirms(value),
                    None => false,
                },
        decreases spam_headers.len() - i,
    {
        match read_header(body, spam_headers[i].as_str()) {
            Some(value) => {
                if is_affirmed(value.as_str()) {
                    assert(mime::raw_header(body@, spam_headers@[i as int]@) == Some(value@));
                    return true;
                }
            },
            None => {},
        }
        i = i + 1;
    }
    false
}

/// What archive rules are asked about a message.
#[derive(Debug, PartialEq, Eq)]
pub struct RuleQuestion {
    pub sender: Option<String>,
    pub subject: Option<String>,
    pub size: u32,
    pub is_spam: bool,
}

/// Reads what archive rules are asked about off a raw message, if it is one.
pub fn rule_question(body: &[u8], size: u32, spam_headers: &[String]) -> (question: Option<
    RuleQuestion,
>)
    requires
        mime::addressable(body@),
    ensures
        question is Some <==> mime::parsed_texts(body@) is Some,
        question matches Some(question) ==> {
            &&& mime::seen(question.sender) == sender(mime::parsed_addresses(body@).unwrap().from)
            &&& mime::seen(question.subject) == mime::parsed_texts(body@).unwrap().subject
            &&& question.size == size
            &&& question.is_spam == marked(body@, spam_headers@)
        },
{
    match (read_texts(body), read_addresses(body)) {
        (Some(texts), Some(addresses)) => Some(
            RuleQuestion {
                sender: first_sender(&addresses),
                subject: texts.subject,
                size,
                is_spam: is_marked_as_spam(body, spam_headers),
            },
        ),
        _ => None,
    }
}

/// A path of facets starts with a slash.
pub open spec fn facet(tag: Seq<char>) -> bool {
    tag.len() > 0 && tag[0] == '/'
}

/// `tantivy::schema::Facet::from_text` accepts a text exactly where it starts with a
/// slash.
#[verifier::external_body]
fn is_facet(tag: &str) -> (result: bool)
    ensures
        result == facet(tag@),
{
    Facet::from_text(tag).is_ok()
}

/// The tags of a message: those that its metadata lists, provided that all of them are
/// facets and that there are any.
pub open spec fn kept_tags(tags: Option<Seq<Seq<char>>>) -> Option<Seq<Seq<char>>> {
    match tags {
        Some(list) => if list.len() > 0 && forall|i: int|
            0 <= i < list.len() ==> facet(#[trigger] list[i]) {
            Some(list)
        } else {
            None
        },
        None => None,
    }
}

/// Keeps the tags of a message if all of them are facets.
pub fn validate_tags(tags: Option<Vec<String>>) -> (result: Option<Vec<String>>)
    ensures
        mime::seen_list(result) == kept_tags(mime::seen_list(tags)),
{
    match tags {
        None => None,
        Some(list) => if are_facets(list.as_slice()) {
            Some(list)
        } else {
            None
        },
    }
}

fn are_facets(list: &[String]) -> (result: bool)
    ensures
        result == (list@.len() > 0 && forall|i: int|
            0 <= i < list@.len() ==> facet(#[trigger] mime::seen_all(list@)[i])),
{
    let ghost all = mime::seen_all(list@);
    let mut i: usize = 0;
    while i < list.len()
        invariant
            i <= list@.len(),
            all == mime::seen_all(list@),
            forall|j: int| 0 <= j < i ==> facet(#[trigger] all[j]),
        decreases list.len() - i,
    {
        assert(all[i as int] == list@[i as int]@);
        if !is_facet(list[i].as_str()) {
            assert(!facet(all[i as int]));
            return false;
        }
        i = i + 1;
    }
    list.len() > 0
}

pub open spec fn lower_hex(c: char) -> bool {
    ('0' <= c && c <= '9') || ('a' <= c && c <= 'f')
}

/// The hyphenated form of a random UUID.
pub open spec fn uuid_text(s: Seq<char>) -> bool {
    &&& s.len() == 36
    &&& s[14] == '4'
    &&& forall|i: int|
        0 <= i < 36 ==> if i == 8 || i == 13 || i == 18 || i == 23 {
            #[trigger] s[i] == '-'
        } else {
            lower_hex(s[i])
        }
}

/// `uuid::Uuid::new_v4` and its `to_string`: 32 small hexadecimal digits in groups of 8,
/// 4, 4, 4 and 12 with hyphens between them, the version digit being 4. Which one comes
/// is a matter of chance.
#[verifier::external_body]
fn fresh_id() -> (id: String)
    ensures
        uuid_text(id@),
{
    Uuid::new_v4().to_string()
}

/// The ID of an envelope: the one that was fixed, else a fresh one.
pub fn envelope_id(fixed: Option<String>) -> (id: String)
    ensures
        match fixed {
            Some(fixed) => id == fixed,
            None => uuid_text(id@),
        },
{
    match fixed {
        Some(fixed) => fixed,
        None => fresh_id(),
    }
}

/// What the index says of an attachment.
#[derive(Debug, PartialEq, Eq)]
pub struct AttachmentRecord {
    pub id: String,
    pub envelope_id: String,
    pub account_id: u64,
    pub mailbox_id: u64,
    pub subject: String,
    pub content_hash: String,
    pub from: String,
    pub date: i64,
    pub ingest_at: i64,
    pub size: u64,
    pub ext: Option<String>,
    pub category: String,
    pub content_type: String,
    pub text: Option<String>,
    pub has_text: bool,
    pub is_ocr: bool,
    pub page_count: Option<u64>,
    pub is_indexed: bool,
    pub is_message: bool,
    pub name: Option<String>,
    pub account_email: Option<String>,
    pub mailbox_name: Option<String>,
    pub shard_id: u64,
    pub tags: Option<Vec<String>>,
    pub auto_tags: Option<Vec<String>>,
}

/// The view of an [`AttachmentRecord`].
#[verifier::ext_equal]
pub ghost struct Recorded {
    pub id: Seq<char>,
    pub envelope_id: Seq<char>,
    pub account_id: u64,
    pub mailbox_id: u64,
    pub subject: Seq<char>,
    pub content_hash: Seq<char>,
    pub from: Seq<char>,
    pub date: i64,
    pub ingest_at: i64,
    pub size: int,
    pub ext: Option<Seq<char>>,
    pub category: Seq<char>,
    pub content_type: Seq<char>,
    pub text: Option<Seq<char>>,
    pub has_text: bool,
    pub is_ocr: bool,
    pub page_count: Option<int>,
    pub is_indexed: bool,
    pub is_message: bool,
    pub name: Option<Seq<char>>,
    pub account_email: Option<Seq<char>>,
    pub mailbox_name: Option<Seq<char>>,
    pub shard_id: u64,
    pub tags: Option<Seq<Seq<char>>>,
    pub auto_tags: Option<Seq<Seq<char>>>,
}

impl View for AttachmentRecord {
    type V = Recorded;

    open spec fn view(&self) -> Recorded {
        Recorded {
            id: self.id@,
            envelope_id: self.envelope_id@,
            account_id: self.account_id,
            mailbox_id: self.mailbox_id,
            subject: self.subject@,
            content_hash: self.content_hash@,
            from: self.from@,
            date: self.date,
            ingest_at: self.ingest_at,
            size: self.size as int,
            ext: mime::seen(self.ext),
            category: self.category@,
            content_type: self.content_type@,
            text: mime::seen(self.text),
            has_text: self.has_text,
            is_ocr: self.is_ocr,
            page_count: match self.page_count {
                Some(count) => Some(count as int),
                None => None,
            },
            is_indexed: self.is_indexed,
            is_message: self.is_message,
            name: mime::seen(self.name),
            account_email: mime::seen(self.account_email),
            mailbox_name: mime::seen(self.mailbox_name),
            shard_id: self.shard_id,
            tags: mime::seen_list(self.tags),
            auto_tags: mime::seen_list(self.auto_tags),
        }
    }
}

/// An attachment is a regular one: not inline, or without a content ID.
pub open spec fn is_regular(info: Info) -> bool {
    !info.inline || info.content_id is None
}

/// The regular attachments, in order.
pub open spec fn regular(infos: Seq<Info>) -> Seq<Info>
    decreases infos.len(),
{
    if infos.len() == 0 {
        infos
    } else if is_regular(infos.last()) {
        regular(infos.drop_last()).push(infos.last())
    } else {
        regular(infos.drop_last())
    }
}

/// What kind of file an attachment is.
#[derive(Debug, PartialEq, Eq)]
pub struct FileClass {
    pub ext: Option<String>,
    pub category: String,
}

/// What the index says of an attachment of a message.
pub open spec fn recorded(
    info: Info,
    id: Seq<char>,
    class: FileClass,
    envelope: Indexed,
) -> Recorded {
    Recorded {
        id,
        envelope_id: envelope.id,
        account_id: envelope.account_id,
        mailbox_id: envelope.mailbox_id,
        subject: envelope.subject,
        content_hash: info.content_hash,
        from: envelope.from,
        date: envelope.date,
        ingest_at: envelope.ingest_at,
        size: info.size,
        ext: mime::seen(class.ext),
        category: class.category@,
        content_type: info.file_type,
        text: info.extracted_text,
        has_text: info.extracted_text is Some,
        is_ocr: info.extracted_is_ocr,
        page_count: match info.extracted_page_count {
            Some(count) => Some(count as int),
            None => None,
        },
        is_indexed: info.extracted_text is Some,
        is_message: info.is_message,
        name: info.filename,
        account_email: None,
        mailbox_name: None,
        shard_id: 0,
        tags: None,
        auto_tags: None,
    }
}

/// An attachment is recorded under an ID of its own, as the kind of file that it was found
/// to be.
pub open spec fn recorded_as<C: Fn(&AttachmentInfo) -> FileClass>(
    info: Info,
    classify: C,
    envelope: Indexed,
    record: Recorded,
) -> bool {
    &&& uuid_text(record.id)
    &&& exists|found: &AttachmentInfo, class: FileClass|
        {
            &&& found@ == info
            &&& #[trigger] classify.ensures((found,), class)
            &&& record == recorded(info, record.id, class, envelope)
        }
}

fn record<C: Fn(&AttachmentInfo) -> FileClass>(
    info: &AttachmentInfo,
    classify: &C,
    envelope: &Envelope,
) -> (result: AttachmentRecord)
    requires
        forall|info: &AttachmentInfo| #[trigger] classify.requires((info,)),
    ensures
        recorded_as(info@, *classify, envelope@, result@),
{
    let class = classify(info);
    let ghost found = class;
    let result = AttachmentRecord {
        id: fresh_id(),
        envelope_id: envelope.id.as_str().to_owned(),
        account_id: envelope.account_id,
        mailbox_id: envelope.mailbox_id,
        subject: envelope.subject.as_str().to_owned(),
        content_hash: info.content_hash.as_str().to_owned(),
        from: envelope.from.as_str().to_owned(),
        date: envelope.date,
        ingest_at: envelope.ingest_at,
        size: info.size as u64,
        ext: class.ext,
        category: class.category,
        content_type: info.file_type.as_str().to_owned(),
        text: copy_text(&info.extracted_text),
        has_text: info.extracted_text.is_some(),
        is_ocr: info.extracted_is_ocr,
        page_count: match info.extracted_page_count {
            Some(count) => Some(count as u64),
            None => None,
        },
        is_indexed: info.extracted_text.is_some(),
        is_message: info.is_message,
        name: copy_text(&info.filename),
        account_email: None,
        mailbox_name: None,
        shard_id: 0,
        tags: None,
        auto_tags: None,
    };
    assert(classify.ensures((info,), found));
    assert(result@ =~= recorded(info@, result@.id, found, envelope@));
    result
}

/// Whether an attachment is a regular one.
fn is_regular_attachment(info: &AttachmentInfo) -> (result: bool)
    ensures
        result == is_regular(info@),
{
    !info.inline || info.content_id.is_none()
}

/// How many of the attachments are regular ones.
pub fn count_regular(infos: &[AttachmentInfo]) -> (count: usize)
    ensures
        count == regular(detach::infos_of(infos@)).len(),
{
    let ghost all = detach::infos_of(infos@);
    let mut count: usize = 0;
    let mut i: usize = 0;
    assert(all.take(0) =~= Seq::<Info>::empty());
    while i < infos.len()
        invariant
            i <= infos@.len(),
            all == detach::infos_of(infos@),
            count == regular(all.take(i as int)).len() <= i,
        decreases infos.len() - i,
    {
        proof {
            assert(all.take(i + 1).drop_last() =~= all.take(i as int));
            assert(all.take(i + 1).last() == infos@[i as int]@);
        }
        if is_regular_attachment(&infos[i]) {
            count = count + 1;
        }
        i = i + 1;
    }
    assert(all.take(i as int) =~= all);
    count
}

/// Records the regular attachments of a message, each under a fresh ID.
pub fn record_attachments<C: Fn(&AttachmentInfo) -> FileClass>(
    infos: &[AttachmentInfo],
    classify: &C,
    envelope: &Envelope,
) -> (records: Vec<AttachmentRecord>)
    requires
        forall|info: &AttachmentInfo| #[trigger] classify.requires((info,)),
    ensures
        records@.len() == regular(detach::infos_of(infos@)).len(),
        forall|i: int|
            0 <= i < records@.len() ==> recorded_as(
                regular(detach::infos_of(infos@))[i],
                *classify,
                envelope@,
                (#[trigger] records@[i])@,
            ),
{
    let ghost all = detach::infos_of(infos@);
    let mut records: Vec<AttachmentRecord> = Vec::new();
    let mut i: usize = 0;
    assert(all.take(0) =~= Seq::<Info>::empty());
    while i < infos.len()
        invariant
            forall|info: &AttachmentInfo| #[trigger] classify.requires((info,)),
            i <= infos@.len(),
            all == detach::infos_of(infos@),
            records@.len() == regular(all.take(i as int)).len(),
            forall|j: int|
                0 <= j < records@.len() ==> recorded_as(
                    regular(all.take(i as int))[j],
                    *classify,
                    envelope@,
                    (#[trigger] records@[j])@,
                ),
        decreases infos.len() - i,
    {
        proof {
            assert(all.take(i + 1).drop_last() =~= all.take(i as int));
            assert(all.take(i + 1).last() == infos@[i as int]@);
        }
        if is_regular_attachment(&infos[i]) {
            records.push(record(&infos[i], classify, envelope));
        }
        i = i + 1;
    }
    assert(all.take(i as int) =~= all);
    records
}

/// What a message is known by in the archive.
#[derive(Debug, PartialEq, Eq)]
pub struct Names {
    pub envelope_id: String,
    pub message_id: String,
    pub thread_id: String,
    pub content_hash: String,
}

/// What a message says in its envelope, and how many attachments it has.
#[derive(Debug, PartialEq, Eq)]
pub struct Said {
    pub subject: String,
    pub preview: String,
    pub tags: Option<Vec<String>>,
    pub attachment_count: usize,
    pub regular_attachment_count: usize,
}

/// The envelope of a message that was parsed.
pub open spec fn assembled(
    arrival: Arrival,
    names: Names,
    said: Said,
    seconds: Option<i64>,
    addresses: Addresses,
) -> Indexed {
    Indexed {
        id: names.envelope_id@,
        message_id: names.message_id@,
        account_id: arrival.account_id,
        mailbox_id: arrival.mailbox_id,
        uid: arrival.uid,
        subject: said.subject@,
        preview: said.preview@,
        from: sender_or_unknown(addresses.from),
        to: header_addresses(addresses.to),
        cc: header_addresses(addresses.cc),
        bcc: header_addresses(addresses.bcc),
        date: milliseconds(seconds) as i64,
        internal_date: received(arrival.internal_date, milliseconds(seconds)) as i64,
        ingest_at: arrival.now,
        size: arrival.size,
        thread_id: names.thread_id@,
        attachment_count: said.attachment_count as int,
        regular_attachment_count: said.regular_attachment_count as int,
        tags: mime::seen_list(said.tags),
        content_hash: names.content_hash@,
        account_email: None,
        account_name: None,
        mailbox_name: None,
    }
}

/// Puts an envelope together.
pub fn assemble(
    arrival: Arrival,
    names: Names,
    said: Said,
    seconds: Option<i64>,
    addresses: &MessageAddresses,
) -> (envelope: Envelope)
    requires
        datable(seconds),
    ensures
        envelope@ == assembled(arrival, names, said, seconds, addresses@),
{
    let date = date_of(seconds);
    let envelope = Envelope {
        id: names.envelope_id,
        message_id: names.message_id,
        account_id: arrival.account_id,
        mailbox_id: arrival.mailbox_id,
        uid: arrival.uid,
        subject: said.subject,
        preview: said.preview,
        from: match first_sender(addresses) {
            Some(address) => address,
            None => "unknown".to_owned(),
        },
        to: list_addresses(&addresses.to),
        cc: list_addresses(&addresses.cc),
        bcc: list_addresses(&addresses.bcc),
        date,
        internal_date: if arrival.internal_date == 0 {
            date
        } else {
            arrival.internal_date
        },
        ingest_at: arrival.now,
        size: arrival.size,
        thread_id: names.thread_id,
        attachment_count: said.attachment_count,
        regular_attachment_count: said.regular_attachment_count,
        tags: said.tags,
        content_hash: names.content_hash,
        account_email: None,
        account_name: None,
        mailbox_name: None,
    };
    assert(envelope@ =~= assembled(arrival, names, said, seconds, addresses@));
    envelope
}

} // verus!
