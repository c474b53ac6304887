//! The per-connection protocol engine: a state machine that frames one
//! request out of the bytes read from a connection, enforces the payload
//! limit, and hands the reply back to the transport.
//!
//! The engine performs no I/O. Its owner reads from the transport and
//! calls [`Engine::on_read`], waits for the application's reply and calls
//! [`Engine::on_reply`], and carries out what each [`Step`] asks for.

use vstd::prelude::*;
use vstd::slice::{slice_subrange, slice_to_vec};
use crate::head::{head_of, parse_head, HeadStatus, HeadStatusView, MAX_HEADERS};
use crate::meta::{meta_of, RequestMeta};
use crate::response::{wire_of, Response};

verus! {

/// The minor HTTP version assumed where a head names none.
pub const DEFAULT_VERSION: u8 = 1;

/// Where a connection stands.
#[derive(Debug, Clone, Copy, PartialEq, Eq, Structural)]
pub enum Phase {
    /// Reading the request head.
    AwaitingHeaders,
    /// The head is in; more of the body is expected.
    StreamingBody,
    /// The request is complete; the application's reply is awaited.
    AwaitingResponse,
    /// The connection is over.
    Closed,
}

/// What the engine tells the application.
#[derive(Debug, Clone)]
pub enum Event {
    /// A request head is complete. `rest` holds the body bytes that came
    /// with it.
    RequestStart { method: String, path: String, version: u8, rest: Vec<u8>, meta: RequestMeta },
    /// A piece of the body. `more_body` is false on the last one.
    RequestBody { body: Vec<u8>, more_body: bool },
    /// The connection is over.
    Disconnect,
}

/// An event as a mathematical value.
pub enum EventView {
    RequestStart {
        method: Seq<char>,
        path: Seq<char>,
        version: u8,
        rest: Seq<u8>,
        meta: RequestMeta,
    },
    RequestBody { body: Seq<u8>, more_body: bool },
    Disconnect,
}

impl View for Event {
    type V = EventView;

    open spec fn view(&self) -> EventView {
        match self {
            Event::RequestStart { method, path, version, rest, meta } => EventView::RequestStart {
                method: method@,
                path: path@,
                version: *version,
                rest: rest@,
                meta: *meta,
            },
            Event::RequestBody { body, more_body } => EventView::RequestBody {
                body: body@,
                more_body: *more_body,
            },
            Event::Disconnect => EventView::Disconnect,
        }
    }
}

/// What one step of the engine asks of its owner: first write `write` to
/// the transport, if any, then deliver `event` to the application, if any.
/// After a `Disconnect` the transport is to be closed.
#[derive(Debug, Clone)]
pub struct Step {
    pub event: Option<Event>,
    pub write: Option<Vec<u8>>,
}

/// A step as a mathematical value.
pub struct Effect {
    pub event: Option<EventView>,
    pub wire: Option<Seq<u8>>,
}

impl View for Step {
    type V = Effect;

    open spec fn view(&self) -> Effect {
        Effect {
            event: match self.event {
                Some(e) => Some(e@),
                None => None,
            },
            wire: match self.write {
                Some(w) => Some(w@),
                None => None,
            },
        }
    }
}

/// The state of an engine as a mathematical value.
pub struct EngineState {
    pub phase: Phase,
    /// The payload limit, in bytes.
    pub limit: usize,
    /// The bytes of the head received so far.
    pub buffer: Seq<u8>,
    /// The number of body bytes received so far.
    pub received: usize,
    /// The declared length of the body.
    pub expected: Option<usize>,
    /// Whether the body was announced as chunked.
    pub chunked: bool,
}

/// The engine of one connection.
pub struct Engine {
    phase: Phase,
    max_payload_size: usize,
    header_buffer: Vec<u8>,
    body_received: usize,
    expected_length: Option<usize>,
    chunked: bool,
}

impl View for Engine {
    type V = EngineState;

    closed spec fn view(&self) -> EngineState {
        EngineState {
            phase: self.phase,
            limit: self.max_payload_size,
            buffer: self.header_buffer@,
            received: self.body_received,
            expected: self.expected_length,
            chunked: self.chunked,
        }
    }
}

/// The state of a fresh connection.
pub open spec fn initial(limit: usize) -> EngineState {
    EngineState {
        phase: Phase::AwaitingHeaders,
        limit,
        buffer: Seq::<u8>::empty(),
        received: 0,
        expected: None,
        chunked: false,
    }
}

/// The states that a fresh connection can get into: neither the
/// head buffer nor the body count is over the limit, the buffer is used
/// only while the head is awaited, and the body streams only while more of
/// it is expected.
pub open spec fn valid(s: EngineState) -> bool {
    &&& s.buffer.len() <= s.limit
    &&& s.received <= s.limit
    &&& s.phase == Phase::AwaitingHeaders ==> s.received == 0 && s.expected.is_none()
    &&& s.phase != Phase::AwaitingHeaders ==> s.buffer.len() == 0
    &&& s.phase == Phase::StreamingBody ==> more_expected(s.expected, s.chunked, s.received as int)
    &&& s.expected.is_some() ==> s.expected.unwrap() <= s.limit
}

/// A step that asks for nothing.
pub open spec fn quiet() -> Effect {
    Effect { event: None, wire: None }
}

/// The end of a connection: the state is `Closed`, and the one
/// `Disconnect` goes out.
pub open spec fn close(s: EngineState) -> (EngineState, Effect) {
    (
        EngineState { phase: Phase::Closed, buffer: Seq::<u8>::empty(), ..s },
        Effect { event: Some(EventView::Disconnect), wire: None },
    )
}

/// Whether more of the body is to come after `received` bytes: with a
/// declared length, while fewer bytes than declared have come; without one,
/// only a chunked body goes on.
pub open spec fn more_expected(expected: Option<usize>, chunked: bool, received: int) -> bool {
    match expected {
        Some(length) => received < length,
        None => chunked,
    }
}

/// The phase that follows a request head or a piece of body.
pub open spec fn phase_for(more: bool) -> Phase {
    if more {
        Phase::StreamingBody
    } else {
        Phase::AwaitingResponse
    }
}

/// What the engine does with the outcome of parsing its head buffer.
///
/// An incomplete head changes nothing. A malformed head, a head without
/// method or path, a declared length over the limit, and body bytes without
/// a declared length or chunked framing end the connection. Otherwise the
/// request starts: the bytes behind the head become its first body bytes.
pub open spec fn after_head(s: EngineState, status: HeadStatusView) -> (EngineState, Effect) {
    if s.phase != Phase::AwaitingHeaders {
        (s, quiet())
    } else {
        match status {
            HeadStatusView::Partial => (s, quiet()),
            HeadStatusView::Malformed => close(s),
            HeadStatusView::Complete(head) => {
                let meta = meta_of(head.headers);
                let rest = s.buffer.skip(head.consumed as int);
                if head.method.is_none() || head.path.is_none() {
                    close(s)
                } else if meta.content_length.is_some() && meta.content_length.unwrap() > s.limit {
                    close(s)
                } else if head.consumed > s.buffer.len() || rest.len() > s.limit {
                    close(s)
                } else if meta.content_length.is_none() && !meta.is_chunked && rest.len() > 0 {
                    close(s)
                } else {
                    let more = more_expected(
                        meta.content_length,
                        meta.is_chunked,
                        rest.len() as int,
                    );
                    (
                        EngineState {
                            phase: phase_for(more),
                            limit: s.limit,
                            buffer: Seq::<u8>::empty(),
                            received: rest.len() as usize,
                            expected: meta.content_length,
                            chunked: meta.is_chunked,
                        },
                        Effect {
                            event: Some(
                                EventView::RequestStart {
                                    method: head.method.unwrap(),
                                    path: head.path.unwrap(),
                                    version: head.version.unwrap_or(DEFAULT_VERSION),
                                    rest,
                                    meta,
                                },
                            ),
                            wire: None,
                        },
                    )
                }
            },
        }
    }
}

/// What the engine does with the bytes of one read. An empty read is the
/// end of the stream.
///
/// While the head is awaited the bytes join the head buffer, which may not
/// grow over the limit, and the buffer is parsed. While the body streams,
/// each read is one `RequestBody`, and the sum of the body bytes may not
/// grow over the limit. Once the request is complete, further bytes are a
/// protocol error.
pub open spec fn after_read(s: EngineState, chunk: Seq<u8>) -> (EngineState, Effect) {
    match s.phase {
        Phase::Closed => (s, quiet()),
        Phase::AwaitingHeaders => {
            if chunk.len() == 0 || s.buffer.len() + chunk.len() > s.limit {
                close(s)
            } else {
                let grown = EngineState { buffer: s.buffer + chunk, ..s };
                after_head(grown, head_of(grown.buffer, MAX_HEADERS))
            }
        },
        Phase::StreamingBody => {
            if chunk.len() == 0 || s.received + chunk.len() > s.limit {
                close(s)
            } else {
                let received = s.received + chunk.len();
                let more = more_expected(s.expected, s.chunked, received);
                (
                    EngineState { phase: phase_for(more), received: received as usize, ..s },
                    Effect {
                        event: Some(EventView::RequestBody { body: chunk, more_body: more }),
                        wire: None,
                    },
                )
            }
        },
        Phase::AwaitingResponse => close(s),
    }
}

/// What the engine does when the reply channel yields: `Some` holds the
/// wire bytes of the application's response, `None` says that the channel
/// was dropped without one. Either way the connection ends; a response is
/// written first.
pub open spec fn after_reply(s: EngineState, wire: Option<Seq<u8>>) -> (EngineState, Effect) {
    if s.phase == Phase::StreamingBody || s.phase == Phase::AwaitingResponse {
        (close(s).0, Effect { event: Some(EventView::Disconnect), wire })
    } else {
        (s, quiet())
    }
}

/// What the engine does when its owner gives the connection up: after a
/// failed read or write, or when the application no longer listens.
pub open spec fn after_abort(s: EngineState) -> (EngineState, Effect) {
    if s.phase == Phase::Closed {
        (s, quiet())
    } else {
        close(s)
    }
}

/// The wire bytes of an optional response.
pub open spec fn reply_wire(reply: Option<Response>) -> Option<Seq<u8>> {
    match reply {
        Some(r) => Some(wire_of(r@)),
        None => None,
    }
}

impl Engine {
    /// The engine of a fresh connection, with the given payload limit.
    pub fn new(max_payload_size: usize) -> (engine: Self)
        ensures
            engine@ == initial(max_payload_size),
            valid(engine@),
    {
        Engine {
            phase: Phase::AwaitingHeaders,
            max_payload_size,
            header_buffer: Vec::new(),
            body_received: 0,
            expected_length: None,
            chunked: false,
        }
    }

    /// Where the connection stands.
    pub fn phase(&self) -> (phase: Phase)
        ensures
            phase == self@.phase,
    {
        self.phase
    }

    /// Whether the connection is over.
    pub fn is_closed(&self) -> (closed: bool)
        ensures
            closed == (self@.phase == Phase::Closed),
    {
        match self.phase {
            Phase::Closed => true,
            _ => false,
        }
    }

    /// Whether a reply is awaited: from the start of the request until the
    /// connection is over.
    pub fn awaits_reply(&self) -> (awaited: bool)
        ensures
            awaited == (self@.phase == Phase::StreamingBody || self@.phase
                == Phase::AwaitingResponse),
    {
        match self.phase {
            Phase::StreamingBody => true,
            Phase::AwaitingResponse => true,
            _ => false,
        }
    }

    /// The number of body bytes received so far.
    pub fn body_received(&self) -> (n: usize)
        ensures
            n == self@.received,
    {
        self.body_received
    }

    fn shut(&mut self) -> (step: Step)
        ensures
            (final(self)@, step@) == close(old(self)@),
    {
        self.phase = Phase::Closed;
        self.header_buffer = Vec::new();
        Step { event: Some(Event::Disconnect), write: None }
    }

    /// Takes the bytes of one read; an empty slice is the end of the
    /// stream.
    pub fn on_read(&mut self, chunk: &[u8]) -> (step: Step)
        ensures
            (final(self)@, step@) == after_read(old(self)@, chunk@),
            valid(old(self)@) ==> valid(final(self)@),
    {
        match self.phase {
            Phase::Closed => Step { event: None, write: None },
            Phase::AwaitingHeaders => {
                let held: usize = self.header_buffer.len();
                if chunk.len() == 0 || held > self.max_payload_size || chunk.len()
                    > self.max_payload_size - held {
                    self.shut()
                } else {
                    self.header_buffer.extend_from_slice(chunk);
                    assert(self.header_buffer@ =~= old(self)@.buffer + chunk@);
                    let status = parse_head(self.header_buffer.as_slice(), MAX_HEADERS);
                    self.on_head(status)
                }
            },
            Phase::StreamingBody => {
                let had: usize = self.body_received;
                if chunk.len() == 0 || had > self.max_payload_size || chunk.len()
                    > self.max_payload_size - had {
                    self.shut()
                } else {
                    let received: usize = had + chunk.len();
                    let more_body = match self.expected_length {
                        Some(length) => received < length,
                        None => self.chunked,
                    };
                    self.body_received = received;
                    self.phase = if more_body {
                        Phase::StreamingBody
                    } else {
                        Phase::AwaitingResponse
                    };
                    Step {
                        event: Some(Event::RequestBody { body: slice_to_vec(chunk), more_body }),
                        write: None,
                    }
                }
            },
            Phase::AwaitingResponse => self.shut(),
        }
    }

    /// Takes the outcome of parsing the head buffer.
    pub fn on_head(&mut self, status: HeadStatus) -> (step: Step)
        ensures
            (final(self)@, step@) == after_head(old(self)@, status@),
            valid(old(self)@) ==> valid(final(self)@),
    {
        match self.phase {
            Phase::AwaitingHeaders => {},
            _ => {
                return Step { event: None, write: None };
            },
        }
        let head = match status {
            HeadStatus::Partial => {
                return Step { event: None, write: None };
            },
            HeadStatus::Malformed => {
                return self.shut();
            },
            HeadStatus::Complete(head) => head,
        };
        let meta = RequestMeta::from_headers(head.headers.as_slice());
        let held: usize = self.header_buffer.len();
        let method = match head.method {
            Some(method) => method,
            None => {
                return self.shut();
            },
        };
        let path = match head.path {
            Some(path) => path,
            None => {
                return self.shut();
            },
        };
        match meta.content_length {
            Some(length) => {
                if length > self.max_payload_size {
                    return self.shut();
                }
            },
            None => {},
        }
        if head.consumed > held || held - head.consumed > self.max_payload_size {
            return self.shut();
        }
        let rest = slice_to_vec(slice_subrange(self.header_buffer.as_slice(), head.consumed, held));
        assert(rest@ =~= old(self)@.buffer.skip(head.consumed as int));
        if meta.content_length.is_none() && !meta.is_chunked && rest.len() > 0 {
            return self.shut();
        }
        let more_body = match meta.content_length {
            Some(length) => rest.len() < length,
            None => meta.is_chunked,
        };
        let version: u8 = match head.version {
            Some(version) => version,
            None => DEFAULT_VERSION,
        };
        self.phase = if more_body {
            Phase::StreamingBody
        } else {
            Phase::AwaitingResponse
        };
        self.header_buffer = Vec::new();
        self.body_received = rest.len();
        self.expected_length = meta.content_length;
        self.chunked = meta.is_chunked;
        Step { event: Some(Event::RequestStart { method, path, version, rest, meta }), write: None }
    }

    /// Takes what the reply channel yielded: the application's response, or
    /// `None` where the channel was dropped without one.
    pub fn on_reply(&mut self, reply: Option<Response>) -> (step: Step)
        ensures
            (final(self)@, step@) == after_reply(old(self)@, reply_wire(reply)),
            valid(old(self)@) ==> valid(final(self)@),
    {
        match self.phase {
            Phase::StreamingBody => {},
            Phase::AwaitingResponse => {},
            _ => {
                return Step { event: None, write: None };
            },
        }
        let write = match reply {
            Some(response) => Some(response.build()),
            None => None,
        };
        self.phase = Phase::Closed;
        self.header_buffer = Vec::new();
        Step { event: Some(Event::Disconnect), write }
    }

    /// Gives the connection up.
    pub fn abort(&mut self) -> (step: Step)
        ensures
            (final(self)@, step@) == after_abort(old(self)@),
            valid(old(self)@) ==> valid(final(self)@),
    {
        match self.phase {
            Phase::Closed => Step { event: None, write: None },
            _ => self.shut(),
        }
    }
}

} // verus!
