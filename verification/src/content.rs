//! Classification of a `Content-Type` header value.

use vstd::prelude::*;
use vstd::utf8::*;
use crate::text::{lowercase_text, lowercased, text_starts_with, trim_text, trimmed, utf8_text};

verus! {

/// The broad kind of payload that a request announces.
#[derive(Debug, Clone, Copy, PartialEq, Eq, Structural)]
pub enum ContentType {
    Json,
    FormData,
    Text,
    Binary,
    Unknown,
}

/// The kind that a trimmed, lower-case media type stands for, decided by
/// its prefix.
pub open spec fn kind_of_media_type(s: Seq<char>) -> ContentType {
    if "application/json"@.is_prefix_of(s) {
        ContentType::Json
    } else if "application/x-www-form-urlencoded"@.is_prefix_of(s)
        || "multipart/form-data"@.is_prefix_of(s) {
        ContentType::FormData
    } else if "text/"@.is_prefix_of(s) {
        ContentType::Text
    } else if "application/octet-stream"@.is_prefix_of(s) {
        ContentType::Binary
    } else {
        ContentType::Unknown
    }
}

/// The kind that a header value stands for: bytes that are not UTF-8 are
/// unknown; otherwise the text is trimmed, lower-cased and classified.
pub open spec fn content_type_of(value: Seq<u8>) -> ContentType {
    if valid_utf8(value) {
        kind_of_media_type(lowercased(trimmed(decode_utf8(value))))
    } else {
        ContentType::Unknown
    }
}

impl ContentType {
    /// Classifies the value of a `Content-Type` header.
    pub fn from_header_value(value: &[u8]) -> (kind: Self)
        ensures
            kind == content_type_of(value@),
    {
        match utf8_text(value) {
            None => ContentType::Unknown,
            Some(text) => {
                let lowered = lowercase_text(trim_text(text));
                Self::from_media_type(lowered.as_str())
            },
        }
    }

    /// Classifies a media type that is already trimmed and in lower case.
    pub fn from_media_type(s: &str) -> (kind: Self)
        ensures
            kind == kind_of_media_type(s@),
    {
        if text_starts_with(s, "application/json") {
            ContentType::Json
        } else if text_starts_with(s, "application/x-www-form-urlencoded") || text_starts_with(
            s,
            "multipart/form-data",
        ) {
            ContentType::FormData
        } else if text_starts_with(s, "text/") {
            ContentType::Text
        } else if text_starts_with(s, "application/octet-stream") {
            ContentType::Binary
        } else {
            ContentType::Unknown
        }
    }
}

impl Default for ContentType {
    fn default() -> (kind: Self)
        ensures
            kind == ContentType::Unknown,
    {
        ContentType::Unknown
    }
}

} // verus!
