//! The head of a request: request line and header list.

use vstd::prelude::*;
use crate::meta::{header_views, HeaderField, HeaderView};

verus! {

/// The number of headers that a request may carry.
pub const MAX_HEADERS: usize = 64;

/// What a complete request head holds. `consumed` is the number of bytes
/// that the head took: the body starts there.
#[derive(Debug, Clone)]
pub struct ParsedHead {
    pub method: Option<String>,
    pub path: Option<String>,
    pub version: Option<u8>,
    pub headers: Vec<HeaderField>,
    pub consumed: usize,
}

/// What the bytes received so far amount to.
#[derive(Debug, Clone)]
pub enum HeadStatus {
    /// A complete head.
    Complete(ParsedHead),
    /// The beginning of a head: more bytes are needed.
    Partial,
    /// Bytes that no request head starts with.
    Malformed,
}

/// A complete head as a mathematical value.
pub struct ParsedHeadView {
    pub method: Option<Seq<char>>,
    pub path: Option<Seq<char>>,
    pub version: Option<u8>,
    pub headers: Seq<HeaderView>,
    pub consumed: usize,
}

/// A head status as a mathematical value.
pub enum HeadStatusView {
    Complete(ParsedHeadView),
    Partial,
    Malformed,
}

/// The view of an optional text.
pub open spec fn text_view(text: Option<String>) -> Option<Seq<char>> {
    match text {
        Some(t) => Some(t@),
        None => None,
    }
}

impl View for ParsedHead {
    type V = ParsedHeadView;

    open spec fn view(&self) -> ParsedHeadView {
        ParsedHeadView {
            method: text_view(self.method),
            path: text_view(self.path),
            version: self.version,
            headers: header_views(self.headers@),
            consumed: self.consumed,
        }
    }
}

impl View for HeadStatus {
    type V = HeadStatusView;

    open spec fn view(&self) -> HeadStatusView {
        match self {
            HeadStatus::Complete(head) => HeadStatusView::Complete(head@),
            HeadStatus::Partial => HeadStatusView::Partial,
            HeadStatus::Malformed => HeadStatusView::Malformed,
        }
    }
}

/// What an HTTP/1.x request parser with room for `max_headers` headers
/// makes of the bytes `buf`.
pub uninterp spec fn head_of(buf: Seq<u8>, max_headers: usize) -> HeadStatusView;

/// `httparse::Request::parse`, on a fresh request with `max_headers` empty
/// header slots. The outcome depends on the bytes and the number of slots
/// alone and is given the name `head_of`. A complete head reports the offset
/// at which the body starts, which lies within the buffer; an error of any
/// kind is reported as a malformed head. The number of slots is kept small
/// so that the slots can be allocated.
#[verifier::external_body]
pub(crate) fn parse_head(buf: &[u8], max_headers: usize) -> (status: HeadStatus)
    requires
        max_headers <= MAX_HEADERS,
    ensures
        status@ == head_of(buf@, max_headers),
        status@ matches HeadStatusView::Complete(head) ==> head.consumed <= buf@.len(),
{
    let mut slots = vec![httparse::EMPTY_HEADER; max_headers];
    let mut request = httparse::Request::new(&mut slots);
    match request.parse(buf) {
        Ok(httparse::Status::Complete(consumed)) => HeadStatus::Complete(ParsedHead {
            method: request.method.map(str::to_owned),
            path: request.path.map(str::to_owned),
            version: request.version,
            headers: request.headers.iter().map(|h| HeaderField::new(h.name, h.value)).collect(),
            consumed,
        }),
        Ok(httparse::Status::Partial) => HeadStatus::Partial,
        Err(_) => HeadStatus::Malformed,
    }
}

} // verus!
