//! What the MIME parser reads off a raw message, as plain values.

use mail_parser::{Address, MessageParser, MimeHeaders};
use vstd::prelude::*;

verus! {

/// The texts of a message: its first plain and HTML bodies and its subject.
#[derive(Debug, PartialEq, Eq)]
pub struct MessageTexts {
    pub text: Option<String>,
    pub html: Option<String>,
    pub subject: Option<String>,
}

/// Headers of a message as they stand: its subject and the archive's own metadata.
#[derive(Debug, PartialEq, Eq)]
pub struct RawHeaders {
    pub subject: Option<String>,
    pub metadata: Option<String>,
}

/// How a message is identified: its ID, what it answers, and its date in seconds.
#[derive(Debug, PartialEq, Eq)]
pub struct MessageIds {
    pub message_id: Option<String>,
    pub in_reply_to: Option<String>,
    pub references: Option<Vec<String>>,
    pub timestamp: Option<i64>,
}

/// The addresses of a message; a header may list entries without an address.
#[derive(Debug, PartialEq, Eq)]
pub struct MessageAddresses {
    pub from: Option<Vec<Option<String>>>,
    pub to: Option<Vec<Option<String>>>,
    pub cc: Option<Vec<Option<String>>>,
    pub bcc: Option<Vec<Option<String>>>,
}

/// One attachment: where its encoded body stands in the raw message, its decoded
/// contents and what its headers say of it.
#[derive(Debug, PartialEq, Eq)]
pub struct AttachmentPart {
    pub start: usize,
    pub end: usize,
    pub contents: Vec<u8>,
    pub inline: Option<bool>,
    pub media_type: Option<String>,
    pub media_subtype: Option<String>,
    pub content_id: Option<String>,
    pub name: Option<String>,
    pub is_message: bool,
}

/// A text taken by its view, where there is one.
pub open spec fn seen(text: Option<String>) -> Option<Seq<char>> {
    match text {
        Some(text) => Some(text@),
        None => None,
    }
}

pub open spec fn seen_all(list: Seq<String>) -> Seq<Seq<char>> {
    list.map_values(|text: String| text@)
}

pub open spec fn seen_list(list: Option<Vec<String>>) -> Option<Seq<Seq<char>>> {
    match list {
        Some(list) => Some(seen_all(list@)),
        None => None,
    }
}

pub open spec fn seen_addresses(list: Option<Vec<Option<String>>>) -> Option<
    Seq<Option<Seq<char>>>,
> {
    match list {
        Some(list) => Some(list@.map_values(|address: Option<String>| seen(address))),
        None => None,
    }
}

/// The view of [`MessageTexts`].
#[verifier::ext_equal]
pub ghost struct Texts {
    pub text: Option<Seq<char>>,
    pub html: Option<Seq<char>>,
    pub subject: Option<Seq<char>>,
}

impl View for MessageTexts {
    type V = Texts;

    open spec fn view(&self) -> Texts {
        Texts { text: seen(self.text), html: seen(self.html), subject: seen(self.subject) }
    }
}

/// The view of [`RawHeaders`].
#[verifier::ext_equal]
pub ghost struct Headers {
    pub subject: Option<Seq<char>>,
    pub metadata: Option<Seq<char>>,
}

impl View for RawHeaders {
    type V = Headers;

    open spec fn view(&self) -> Headers {
        Headers { subject: seen(self.subject), metadata: seen(self.metadata) }
    }
}

/// The view of [`MessageIds`].
#[verifier::ext_equal]
pub ghost struct Ids {
    pub message_id: Option<Seq<char>>,
    pub in_reply_to: Option<Seq<char>>,
    pub references: Option<Seq<Seq<char>>>,
    pub timestamp: Option<i64>,
}

impl View for MessageIds {
    type V = Ids;

    open spec fn view(&self) -> Ids {
        Ids {
            message_id: seen(self.message_id),
            in_reply_to: seen(self.in_reply_to),
            references: seen_list(self.references),
            timestamp: self.timestamp,
        }
    }
}

/// The view of [`MessageAddresses`].
#[verifier::ext_equal]
pub ghost struct Addresses {
    pub from: Option<Seq<Option<Seq<char>>>>,
    pub to: Option<Seq<Option<Seq<char>>>>,
    pub cc: Option<Seq<Option<Seq<char>>>>,
    pub bcc: Option<Seq<Option<Seq<char>>>>,
}

impl View for MessageAddresses {
    type V = Addresses;

    open spec fn view(&self) -> Addresses {
        Addresses {
            from: seen_addresses(self.from),
            to: seen_addresses(self.to),
            cc: seen_addresses(self.cc),
            bcc: seen_addresses(self.bcc),
        }
    }
}

/// The view of an [`AttachmentPart`].
#[verifier::ext_equal]
pub ghost struct Part {
    pub start: int,
    pub end: int,
    pub contents: Seq<u8>,
    pub inline: Option<bool>,
    pub media_type: Option<Seq<char>>,
    pub media_subtype: Option<Seq<char>>,
    pub content_id: Option<Seq<char>>,
    pub name: Option<Seq<char>>,
    pub is_message: bool,
}

impl View for AttachmentPart {
    type V = Part;

    open spec fn view(&self) -> Part {
        Part {
            start: self.start as int,
            end: self.end as int,
            contents: self.contents@,
            inline: self.inline,
            media_type: seen(self.media_type),
            media_subtype: seen(self.media_subtype),
            content_id: seen(self.content_id),
            name: seen(self.name),
            is_message: self.is_message,
        }
    }
}

pub open spec fn parts_of(parts: Seq<AttachmentPart>) -> Seq<Part> {
    parts.map_values(|part: AttachmentPart| part@)
}

/// The texts that the parser reads off a raw message, if it is one.
pub uninterp spec fn parsed_texts(body: Seq<u8>) -> Option<Texts>;

/// The identification that the parser reads off a raw message, if it is one.
pub uninterp spec fn parsed_ids(body: Seq<u8>) -> Option<Ids>;

/// The addresses that the parser reads off a raw message, if it is one.
pub uninterp spec fn parsed_addresses(body: Seq<u8>) -> Option<Addresses>;

/// The attachments that the parser finds in a raw message, if it is one.
pub uninterp spec fn parsed_parts(body: Seq<u8>) -> Option<Seq<Part>>;

/// Parses a message with `mail_parser::MessageParser::parse` and reads its texts with
/// `body_text`, `body_html` and `subject`. What comes out is a function of the bytes;
/// `None` where they hold no headers.
#[verifier::external_body]
pub(crate) fn read_texts(body: &[u8]) -> (texts: Option<MessageTexts>)
    ensures
        texts is Some <==> parsed_texts(body@) is Some,
        texts matches Some(texts) ==> Some(texts@) == parsed_texts(body@),
{
    MessageParser::new().parse(body).map(|m| MessageTexts {
        text: m.body_text(0).map(|t| t.into_owned()),
        html: m.body_html(0).map(|t| t.into_owned()),
        subject: m.subject().map(String::from),
    })
}

/// Parses a message with `mail_parser::MessageParser::parse` and reads its
/// identification with `message_id`, `in_reply_to`, `references` and `date`. What comes
/// out is a function of the bytes; it is there exactly where the texts are.
/// `DateTime::to_timestamp` computes with a `u16` year
/// and `u8` fields, so its seconds stay far inside the range stated here.
#[verifier::external_body]
pub(crate) fn read_ids(body: &[u8]) -> (ids: Option<MessageIds>)
    ensures
        ids is Some <==> parsed_ids(body@) is Some,
        ids is Some <==> parsed_texts(body@) is Some,
        ids matches Some(ids) ==> Some(ids@) == parsed_ids(body@),
        ids matches Some(ids) ==> (ids.timestamp matches Some(seconds) ==> -10_000_000_000_000
            <= seconds <= 10_000_000_000_000),
{
    MessageParser::new().parse(body).map(|m| MessageIds {
        message_id: m.message_id().map(String::from),
        in_reply_to: m.in_reply_to().as_text().map(String::from),
        references: m.references().as_text_list().map(|list| {
            list.iter().map(|text| text.to_string()).collect()
        }),
        timestamp: m.date().map(|date| date.to_timestamp()),
    })
}

/// Parses a message with `mail_parser::MessageParser::parse` and reads its addresses
/// with `from`, `to`, `cc` and `bcc`, the members of groups in their place. What comes
/// out is a function of the bytes; it is there exactly where the texts are.
#[verifier::external_body]
pub(crate) fn read_addresses(body: &[u8]) -> (addresses: Option<MessageAddresses>)
    ensures
        addresses is Some <==> parsed_addresses(body@) is Some,
        addresses is Some <==> parsed_texts(body@) is Some,
        addresses matches Some(addresses) ==> Some(addresses@) == parsed_addresses(body@),
{
    let list = |a: &Address<'_>| -> Vec<Option<String>> {
        a.iter().map(|entry| entry.address.as_deref().map(String::from)).collect()
    };
    MessageParser::new().parse(body).map(|m| MessageAddresses {
        from: m.from().map(list),
        to: m.to().map(list),
        cc: m.cc().map(list),
        bcc: m.bcc().map(list),
    })
}

/// Parses a message with `mail_parser::MessageParser::parse` and reads each of its
/// `attachments`: offsets, contents and headers. What comes out is a function of the
/// bytes; it is there exactly where the texts are.
#[verifier::external_body]
pub(crate) fn read_parts(body: &[u8]) -> (parts: Option<Vec<AttachmentPart>>)
    ensures
        parts is Some <==> parsed_parts(body@) is Some,
        parts is Some <==> parsed_texts(body@) is Some,
        parts matches Some(parts) ==> Some(parts_of(parts@)) == parsed_parts(body@),
{
    MessageParser::new().parse(body).map(|m| m.attachments().map(|part| AttachmentPart {
        start: part.raw_body_offset() as usize,
        end: part.raw_end_offset() as usize,
        contents: part.contents().to_vec(),
        inline: part.content_disposition().map(|d| d.is_inline()),
        media_type: part.content_type().map(|t| t.c_type.to_string()),
        media_subtype: part.content_type().and_then(|t| t.c_subtype.as_deref().map(String::from)),
        content_id: part.content_id().map(String::from),
        name: part.attachment_name().map(String::from),
        is_message: part.is_message(),
    }).collect())
}

/// The value of a header as it stands in a raw message, if there is one.
pub uninterp spec fn raw_header(body: Seq<u8>, name: Seq<char>) -> Option<Seq<char>>;

/// Offsets in a message of this length fit the 32 bits in which the parser keeps them.
pub open spec fn addressable(body: Seq<u8>) -> bool {
    body.len() <= u32::MAX
}

/// Parses a message with `mail_parser::MessageParser::parse` and reads one header with
/// `header_raw`. What comes out is a function of the bytes and the name; `None` where
/// the message does not parse, has no such header or holds it in no valid UTF-8.
/// `header_raw` cuts the header out of the message at offsets that the parser reduced to
/// 32 bits, and panics where they come in the wrong order; in a shorter message none is
/// reduced.
#[verifier::external_body]
pub(crate) fn read_header(body: &[u8], name: &str) -> (value: Option<String>)
    requires
        addressable(body@),
    ensures
        seen(value) == raw_header(body@, name@),
{
    let message = MessageParser::new().parse(body)?;
    message.header_raw(name.to_owned()).map(String::from)
}

/// The headers of a raw message as they stand.
pub open spec fn headers_of(body: Seq<u8>) -> Headers {
    Headers {
        subject: raw_header(body, "Subject"@),
        metadata: raw_header(body, "X-Bichon-Metadata"@),
    }
}

/// Reads the headers of a raw message as they stand.
pub fn read_raw_headers(body: &[u8]) -> (headers: RawHeaders)
    requires
        addressable(body@),
    ensures
        headers@ == headers_of(body@),
{
    RawHeaders {
        subject: read_header(body, "Subject"),
        metadata: read_header(body, "X-Bichon-Metadata"),
    }
}

/// Reads the attachments of a raw message.
pub fn attachment_parts(body: &[u8]) -> (parts: Option<Vec<AttachmentPart>>)
    ensures
        parts is Some <==> parsed_texts(body@) is Some,
        parts matches Some(parts) ==> Some(parts_of(parts@)) == parsed_parts(body@),
{
    read_parts(body)
}

/// Reads the references of a raw message.
pub fn extract_references(body: &[u8]) -> (references: Option<Vec<String>>)
    ensures
        seen_list(references) == match parsed_ids(body@) {
            Some(ids) => ids.references,
            None => None,
        },
{
    match read_ids(body) {
        Some(ids) => ids.references,
        None => None,
    }
}

} // verus!
