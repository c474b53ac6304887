//! What a request's header list says about its body.

use vstd::prelude::*;
use vstd::slice::slice_to_vec;
use vstd::utf8::*;
use crate::content::{content_type_of, ContentType};
use crate::text::{
    contains_ignore_case, decimal_size, eq_ignore_case, mentions, parse_size, same_ignoring_case,
    trim_text, trimmed, utf8_text,
};

verus! {

/// One header of a request: its name, and its value as raw bytes.
#[derive(Debug, Clone)]
pub struct HeaderField {
    pub name: String,
    pub value: Vec<u8>,
}

/// A header as a mathematical value.
pub struct HeaderView {
    pub name: Seq<char>,
    pub value: Seq<u8>,
}

impl View for HeaderField {
    type V = HeaderView;

    open spec fn view(&self) -> HeaderView {
        HeaderView { name: self.name@, value: self.value@ }
    }
}

/// A header list as a mathematical value.
pub open spec fn header_views(headers: Seq<HeaderField>) -> Seq<HeaderView> {
    Seq::new(headers.len(), |i: int| headers[i]@)
}

impl HeaderField {
    /// A header with the given name and value.
    pub fn new(name: &str, value: &[u8]) -> (h: Self)
        ensures
            h@ == (HeaderView { name: name@, value: value@ }),
    {
        HeaderField { name: name.to_owned(), value: slice_to_vec(value) }
    }
}

/// Framing facts derived from the headers of one request.
#[derive(Debug, Clone, Copy)]
pub struct RequestMeta {
    pub content_length: Option<usize>,
    pub content_type: Option<ContentType>,
    pub is_chunked: bool,
}

/// The header's name is `target`, up to ASCII letter case.
pub open spec fn is_named(h: HeaderView, target: Seq<char>) -> bool {
    same_ignoring_case(encode_utf8(h.name), encode_utf8(target))
}

/// The index of the last header named `target`, or -1 where there is none.
pub open spec fn last_named(headers: Seq<HeaderView>, target: Seq<char>) -> int
    decreases headers.len(),
{
    if headers.len() == 0 {
        -1
    } else if is_named(headers.last(), target) {
        headers.len() - 1
    } else {
        last_named(headers.drop_last(), target)
    }
}

/// The body length that a `Content-Length` value declares: the bytes must
/// be UTF-8 and, once trimmed, a decimal size.
pub open spec fn declared_length(value: Seq<u8>) -> Option<usize> {
    if valid_utf8(value) {
        decimal_size(trimmed(decode_utf8(value)))
    } else {
        None
    }
}

/// The header is a `Transfer-Encoding` whose value mentions `chunked`.
pub open spec fn asks_for_chunked(h: HeaderView) -> bool {
    is_named(h, "transfer-encoding"@) && mentions(h.value, encode_utf8("chunked"@))
}

/// Some header of the list asks for chunked transfer.
pub open spec fn announces_chunked(headers: Seq<HeaderView>) -> bool
    decreases headers.len(),
{
    if headers.len() == 0 {
        false
    } else {
        announces_chunked(headers.drop_last()) || asks_for_chunked(headers.last())
    }
}

/// The declared length of a header list: that of its last `Content-Length`.
pub open spec fn content_length_of(headers: Seq<HeaderView>) -> Option<usize> {
    let at = last_named(headers, "content-length"@);
    if at >= 0 {
        declared_length(headers[at].value)
    } else {
        None
    }
}

/// The content type of a header list: that of its last `Content-Type`.
pub open spec fn announced_type_of(headers: Seq<HeaderView>) -> Option<ContentType> {
    let at = last_named(headers, "content-type"@);
    if at >= 0 {
        Some(content_type_of(headers[at].value))
    } else {
        None
    }
}

/// The framing facts of a header list.
pub open spec fn meta_of(headers: Seq<HeaderView>) -> RequestMeta {
    RequestMeta {
        content_length: content_length_of(headers),
        content_type: announced_type_of(headers),
        is_chunked: announces_chunked(headers),
    }
}

/// `last_named` is within the list, and names a header of that name.
pub proof fn lemma_last_named_bounds(headers: Seq<HeaderView>, target: Seq<char>)
    ensures
        -1 <= last_named(headers, target) < headers.len(),
        last_named(headers, target) >= 0 ==> is_named(
            headers[last_named(headers, target)],
            target,
        ),
    decreases headers.len(),
{
    if headers.len() > 0 && !is_named(headers.last(), target) {
        lemma_last_named_bounds(headers.drop_last(), target);
    }
}

/// A header named `target` that no header of that name follows is the one
/// that `last_named` finds.
pub proof fn lemma_last_named_is_last(headers: Seq<HeaderView>, target: Seq<char>, at: int)
    requires
        0 <= at < headers.len(),
        is_named(headers[at], target),
        forall|k: int| at < k < headers.len() ==> !is_named(#[trigger] headers[k], target),
    ensures
        last_named(headers, target) == at,
    decreases headers.len(),
{
    if at < headers.len() - 1 {
        lemma_last_named_is_last(headers.drop_last(), target, at);
    }
}

/// Of several `Content-Length` headers the last one decides: where the
/// header at `last` is a `Content-Length` and none follows it, the derived
/// length is the one that header declares, whatever stood before.
pub proof fn lemma_last_content_length_wins(headers: Seq<HeaderView>, last: int)
    requires
        0 <= last < headers.len(),
        is_named(headers[last], "content-length"@),
        forall|k: int|
            last < k < headers.len() ==> !is_named(#[trigger] headers[k], "content-length"@),
    ensures
        meta_of(headers).content_length == declared_length(headers[last].value),
{
    lemma_last_named_is_last(headers, "content-length"@, last);
}

impl RequestMeta {
    /// The facts of a request without headers.
    pub fn new() -> (meta: Self)
        ensures
            meta == meta_of(Seq::<HeaderView>::empty()),
            meta.content_length.is_none(),
            meta.content_type.is_none(),
            !meta.is_chunked,
    {
        RequestMeta { content_length: None, content_type: None, is_chunked: false }
    }

    /// Derives the framing facts from a header list. Names match without
    /// regard to letter case, and of repeated headers the last one wins.
    pub fn from_headers(headers: &[HeaderField]) -> (meta: Self)
        ensures
            meta == meta_of(header_views(headers@)),
    {
        let ghost all = header_views(headers@);
        let mut meta = Self::new();
        let mut i: usize = 0;
        while i < headers.len()
            invariant
                0 <= i <= headers@.len(),
                all == header_views(headers@),
                meta == meta_of(all.take(i as int)),
            decreases headers@.len() - i,
        {
            let header = &headers[i];
            let name = header.name.as_str().as_bytes();
            proof {
                let upto = all.take(i + 1);
                assert(upto.drop_last() =~= all.take(i as int));
                assert(upto.last() == headers@[i as int]@);
                lemma_last_named_bounds(all.take(i as int), "content-length"@);
                lemma_last_named_bounds(all.take(i as int), "content-type"@);
            }
            if eq_ignore_case(name, "content-length".as_bytes()) {
                meta.content_length = Self::length_from_value(header.value.as_slice());
            }
            if eq_ignore_case(name, "content-type".as_bytes()) {
                meta.content_type = Some(ContentType::from_header_value(header.value.as_slice()));
            }
            if eq_ignore_case(name, "transfer-encoding".as_bytes()) && contains_ignore_case(
                header.value.as_slice(),
                "chunked".as_bytes(),
            ) {
                meta.is_chunked = true;
            }
            i += 1;
        }
        proof {
            assert(all.take(headers@.len() as int) =~= all);
        }
        meta
    }

    /// Reads the value of a `Content-Length` header.
    pub fn length_from_value(value: &[u8]) -> (length: Option<usize>)
        ensures
            length == declared_length(value@),
    {
        match utf8_text(value) {
            None => None,
            Some(text) => parse_size(trim_text(text)),
        }
    }
}

impl Default for RequestMeta {
    fn default() -> (meta: Self)
        ensures
            meta == meta_of(Seq::<HeaderView>::empty()),
    {
        Self::new()
    }
}

} // verus!
