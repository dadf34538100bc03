//! Blobs of the archive.

use bytes::Bytes;
use vstd::prelude::*;

verus! {

/// The shared byte buffer of the crate `bytes`.
#[verifier::external_type_specification]
#[verifier::external_body]
pub struct ExBytes(bytes::Bytes);

/// The bytes that a buffer holds.
pub uninterp spec fn contents(data: bytes::Bytes) -> Seq<u8>;

/// `Bytes::copy_from_slice`: the buffer holds a copy of the slice.
#[verifier::external_body]
pub(crate) fn copy_of(data: &[u8]) -> (buffer: Bytes)
    ensures
        contents(buffer) == data@,
{
    Bytes::copy_from_slice(data)
}

/// `Bytes::new`: the buffer holds nothing.
#[verifier::external_body]
pub(crate) fn empty() -> (buffer: Bytes)
    ensures
        contents(buffer) == Seq::<u8>::empty(),
{
    Bytes::new()
}

/// `Bytes::from` of a vector: the buffer holds what the vector held.
#[verifier::external_body]
pub(crate) fn owning(data: Vec<u8>) -> (buffer: Bytes)
    ensures
        contents(buffer) == data@,
{
    Bytes::from(data)
}

/// `Bytes::to_vec`: a vector of what the buffer holds.
#[verifier::external_body]
pub(crate) fn to_vec(buffer: &Bytes) -> (data: Vec<u8>)
    ensures
        data@ == contents(*buffer),
{
    buffer.to_vec()
}

/// A message as the blob store keeps it: the message under its key, and its
/// attachments under theirs.
#[derive(Debug, PartialEq, Eq)]
pub struct DetachedEmail {
    pub email: (String, Bytes),
    pub attachments: Vec<(String, Bytes)>,
}

/// What is remembered of an attachment.
#[derive(Debug, PartialEq, Eq)]
pub struct AttachmentInfo {
    pub filename: Option<String>,
    pub size: usize,
    pub inline: bool,
    pub file_type: String,
    pub content_id: Option<String>,
    pub content_hash: String,
    pub is_message: bool,
    pub extracted_text: Option<String>,
    pub extracted_page_count: Option<u32>,
    pub extracted_is_ocr: bool,
}

} // verus!
