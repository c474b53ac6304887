//! Runs of the engine: what holds of every sequence of reads, replies and
//! aborts on one connection.

use vstd::prelude::*;
use crate::engine::{
    after_abort, after_head, after_read, after_reply, close, initial, more_expected, phase_for, quiet,
    valid, Effect, EngineState, EventView, Phase, DEFAULT_VERSION,
};
use crate::head::{head_of, HeadStatusView, ParsedHeadView, MAX_HEADERS};
use crate::meta::meta_of;

verus! {

/// What can happen to a connection from outside.
pub enum Signal {
    /// A read returned these bytes; none is the end of the stream.
    Read(Seq<u8>),
    /// The owner handed in the outcome of parsing the head buffer itself.
    Head(HeadStatusView),
    /// The reply channel yielded the wire bytes of a response, or was
    /// dropped.
    Reply(Option<Seq<u8>>),
    /// The owner gave the connection up.
    Abort,
}

/// One step of the engine.
pub open spec fn step(s: EngineState, signal: Signal) -> (EngineState, Effect) {
    match signal {
        Signal::Read(chunk) => after_read(s, chunk),
        Signal::Head(status) => after_head(s, status),
        Signal::Reply(wire) => after_reply(s, wire),
        Signal::Abort => after_abort(s),
    }
}

/// The events of a step: one or none.
pub open spec fn emitted(effect: Effect) -> Seq<EventView> {
    match effect.event {
        Some(e) => seq![e],
        None => Seq::<EventView>::empty(),
    }
}

/// The state after a sequence of signals, and the events emitted on the
/// way, in order.
pub open spec fn run(s: EngineState, signals: Seq<Signal>) -> (EngineState, Seq<EventView>)
    decreases signals.len(),
{
    if signals.len() == 0 {
        (s, Seq::<EventView>::empty())
    } else {
        let first = step(s, signals.first());
        let others = run(first.0, signals.drop_first());
        (others.0, emitted(first.1) + others.1)
    }
}

/// The phase that an event leads to from a phase, or nothing where the
/// event cannot follow: a request starts only while the head is awaited, a
/// piece of body comes only while the body streams, and nothing at all
/// follows the end of the connection.
pub open spec fn follows(phase: Phase, event: EventView) -> Option<Phase> {
    match event {
        EventView::RequestStart { rest, meta, .. } => if phase == Phase::AwaitingHeaders {
            Some(
                phase_for(more_expected(meta.content_length, meta.is_chunked, rest.len() as int)),
            )
        } else {
            None
        },
        EventView::RequestBody { more_body, .. } => if phase == Phase::StreamingBody {
            Some(phase_for(more_body))
        } else {
            None
        },
        EventView::Disconnect => if phase == Phase::Closed {
            None
        } else {
            Some(Phase::Closed)
        },
    }
}

/// The phase that a sequence of events leads to from a phase, or nothing
/// where one of them cannot follow.
pub open spec fn trace_end(phase: Phase, events: Seq<EventView>) -> Option<Phase>
    decreases events.len(),
{
    if events.len() == 0 {
        Some(phase)
    } else {
        match follows(phase, events.first()) {
            Some(next) => trace_end(next, events.drop_first()),
            None => None,
        }
    }
}

/// The number of `Disconnect` events in a sequence.
pub open spec fn disconnects(events: Seq<EventView>) -> nat
    decreases events.len(),
{
    if events.len() == 0 {
        0
    } else {
        disconnects(events.drop_first()) + if events.first() == EventView::Disconnect {
            1nat
        } else {
            0nat
        }
    }
}

/// The number of `RequestStart` events in a sequence.
pub open spec fn request_starts(events: Seq<EventView>) -> nat
    decreases events.len(),
{
    if events.len() == 0 {
        0
    } else {
        request_starts(events.drop_first()) + if events.first() is RequestStart {
            1nat
        } else {
            0nat
        }
    }
}

/// The initial state is valid.
pub proof fn lemma_initial_is_valid(limit: usize)
    ensures
        valid(initial(limit)),
{
}

/// Every step keeps the state valid and the limit as it is: neither the
/// bytes of the head nor the bytes of the body ever exceed the limit.
pub proof fn lemma_step_keeps_valid(s: EngineState, signal: Signal)
    requires
        valid(s),
    ensures
        valid(step(s, signal).0),
        step(s, signal).0.limit == s.limit,
{
}

/// Every run keeps the state valid and the limit as it is.
pub proof fn lemma_run_keeps_valid(s: EngineState, signals: Seq<Signal>)
    requires
        valid(s),
    ensures
        valid(run(s, signals).0),
        run(s, signals).0.limit == s.limit,
    decreases signals.len(),
{
    if signals.len() > 0 {
        lemma_step_keeps_valid(s, signals.first());
        lemma_run_keeps_valid(step(s, signals.first()).0, signals.drop_first());
    }
}

/// The event of a step, if any, can follow in the phase before the step and
/// leads to the phase after it; a step without event keeps the phase.
pub proof fn lemma_step_in_order(s: EngineState, signal: Signal)
    ensures
        trace_end(s.phase, emitted(step(s, signal).1)) == Some(step(s, signal).0.phase),
{
    let after = step(s, signal);
    let events = emitted(after.1);
    if events.len() > 0 {
        assert(events.drop_first() =~= Seq::<EventView>::empty());
        assert(trace_end(after.0.phase, events.drop_first()) == Some(after.0.phase));
    }
}

/// The events of two sequences in a row lead where the second leads from
/// where the first led.
pub proof fn lemma_trace_end_concat(phase: Phase, a: Seq<EventView>, b: Seq<EventView>)
    ensures
        trace_end(phase, a + b) == match trace_end(phase, a) {
            Some(mid) => trace_end(mid, b),
            None => None,
        },
    decreases a.len(),
{
    if a.len() == 0 {
        assert(a + b =~= b);
    } else {
        assert((a + b).first() == a.first());
        assert((a + b).drop_first() =~= a.drop_first() + b);
        match follows(phase, a.first()) {
            Some(next) => lemma_trace_end_concat(next, a.drop_first(), b),
            None => {},
        }
    }
}

/// The events of a connection come in order, whatever happens to it: at
/// most one `RequestStart`, and only as the first event; every
/// `RequestBody` after it, and none after one whose `more_body` is false;
/// at most one `Disconnect`, and nothing after it. The phase at the end is
/// the one that the events lead to.
pub proof fn lemma_events_in_order(s: EngineState, signals: Seq<Signal>)
    ensures
        trace_end(s.phase, run(s, signals).1) == Some(run(s, signals).0.phase),
    decreases signals.len(),
{
    if signals.len() > 0 {
        let first = step(s, signals.first());
        let others = run(first.0, signals.drop_first());
        lemma_step_in_order(s, signals.first());
        lemma_events_in_order(first.0, signals.drop_first());
        lemma_trace_end_concat(s.phase, emitted(first.1), others.1);
    }
}

/// Events that come in order hold one `Disconnect` where they end the
/// connection, and none where they do not.
pub proof fn lemma_ordered_disconnects(phase: Phase, events: Seq<EventView>)
    requires
        trace_end(phase, events).is_some(),
    ensures
        disconnects(events) == if phase != Phase::Closed && trace_end(phase, events) == Some(
            Phase::Closed,
        ) {
            1nat
        } else {
            0nat
        },
        phase == Phase::Closed ==> events.len() == 0,
    decreases events.len(),
{
    if events.len() > 0 {
        let next = follows(phase, events.first()).unwrap();
        lemma_ordered_disconnects(next, events.drop_first());
    }
}

/// Events that come in order hold at most one `RequestStart`, and none
/// unless they begin while the head is awaited.
pub proof fn lemma_ordered_request_starts(phase: Phase, events: Seq<EventView>)
    requires
        trace_end(phase, events).is_some(),
    ensures
        request_starts(events) <= 1,
        phase != Phase::AwaitingHeaders ==> request_starts(events) == 0,
        request_starts(events) == 1 ==> events.first() is RequestStart,
    decreases events.len(),
{
    if events.len() > 0 {
        let next = follows(phase, events.first()).unwrap();
        lemma_ordered_request_starts(next, events.drop_first());
    }
}

/// Whatever path ends a connection, exactly one `Disconnect` is emitted on
/// it; a connection that is still open has emitted none.
pub proof fn lemma_single_disconnect(s: EngineState, signals: Seq<Signal>)
    requires
        s.phase != Phase::Closed,
    ensures
        disconnects(run(s, signals).1) == if run(s, signals).0.phase == Phase::Closed {
            1nat
        } else {
            0nat
        },
{
    lemma_events_in_order(s, signals);
    lemma_ordered_disconnects(s.phase, run(s, signals).1);
}

/// A connection emits at most one `RequestStart`, before any other event.
pub proof fn lemma_single_request_start(s: EngineState, signals: Seq<Signal>)
    ensures
        request_starts(run(s, signals).1) <= 1,
        request_starts(run(s, signals).1) == 1 ==> run(s, signals).1.first() is RequestStart,
{
    lemma_events_in_order(s, signals);
    lemma_ordered_request_starts(s.phase, run(s, signals).1);
}

/// A closed connection stays closed and emits nothing.
pub proof fn lemma_closed_is_silent(s: EngineState, signals: Seq<Signal>)
    requires
        s.phase == Phase::Closed,
    ensures
        run(s, signals) == (s, Seq::<EventView>::empty()),
    decreases signals.len(),
{
    if signals.len() > 0 {
        lemma_closed_is_silent(s, signals.drop_first());
        assert(emitted(quiet()) + Seq::<EventView>::empty() =~= Seq::<EventView>::empty());
    }
}

/// The signals of a sequence of reads.
pub open spec fn reads(chunks: Seq<Seq<u8>>) -> Seq<Signal> {
    Seq::new(chunks.len(), |i: int| Signal::Read(chunks[i]))
}

/// The number of bytes in a sequence of chunks.
pub open spec fn total_len(chunks: Seq<Seq<u8>>) -> nat
    decreases chunks.len(),
{
    if chunks.len() == 0 {
        0
    } else {
        chunks.first().len() + total_len(chunks.drop_first())
    }
}

/// The chunks of a sequence put together.
pub open spec fn joined(chunks: Seq<Seq<u8>>) -> Seq<u8>
    decreases chunks.len(),
{
    if chunks.len() == 0 {
        Seq::<u8>::empty()
    } else {
        chunks.first() + joined(chunks.drop_first())
    }
}

/// One `RequestBody` for each chunk; `more_body` is false on the last.
pub open spec fn body_events(chunks: Seq<Seq<u8>>) -> Seq<EventView> {
    Seq::new(
        chunks.len(),
        |i: int| EventView::RequestBody { body: chunks[i], more_body: i < chunks.len() - 1 },
    )
}

/// The number of body bytes that a sequence of events carries: those that
/// came with the head, and those of each piece of body.
pub open spec fn body_bytes(events: Seq<EventView>) -> nat
    decreases events.len(),
{
    if events.len() == 0 {
        0
    } else {
        body_bytes(events.drop_first()) + match events.first() {
            EventView::RequestStart { rest, .. } => rest.len(),
            EventView::RequestBody { body, .. } => body.len(),
            EventView::Disconnect => 0nat,
        }
    }
}

/// The body events of a sequence of chunks carry the bytes of the chunks.
pub proof fn lemma_body_events_bytes(chunks: Seq<Seq<u8>>)
    ensures
        body_bytes(body_events(chunks)) == total_len(chunks),
    decreases chunks.len(),
{
    if chunks.len() > 0 {
        lemma_body_events_bytes(chunks.drop_first());
        assert(body_events(chunks).drop_first() =~= body_events(chunks.drop_first()));
    }
}

/// While the body streams towards its declared length, each read of the
/// bytes that are still missing is one `RequestBody`; the read that
/// completes the length carries `more_body = false`, and the reply is
/// awaited.
pub proof fn lemma_stream_to_declared_length(s: EngineState, chunks: Seq<Seq<u8>>, length: usize)
    requires
        s.phase == Phase::StreamingBody,
        s.expected == Some(length),
        length <= s.limit,
        chunks.len() > 0,
        forall|i: int| 0 <= i < chunks.len() ==> (#[trigger] chunks[i]).len() > 0,
        s.received + total_len(chunks) == length,
    ensures
        run(s, reads(chunks)).1 == body_events(chunks),
        run(s, reads(chunks)).0 == (EngineState {
            phase: Phase::AwaitingResponse,
            received: length,
            ..s
        }),
    decreases chunks.len(),
{
    let signals = reads(chunks);
    let first = step(s, signals.first());
    let tail = chunks.drop_first();
    assert(signals.first() == Signal::Read(chunks[0]));
    assert(signals.drop_first() =~= reads(tail));
    assert(chunks[0].len() > 0);
    if tail.len() == 0 {
        assert(total_len(tail) == 0);
        assert(first.0.phase == Phase::AwaitingResponse);
        assert(run(first.0, reads(tail)).1 =~= Seq::<EventView>::empty());
        assert(run(s, signals).1 =~= body_events(chunks));
    } else {
        assert(tail[0] == chunks[1]);
        assert(tail[0].len() > 0);
        assert(total_len(tail) > 0);
        assert forall|i: int| 0 <= i < tail.len() implies (#[trigger] tail[i]).len() > 0 by {
            assert(tail[i] == chunks[i + 1]);
        }
        lemma_stream_to_declared_length(first.0, tail, length);
        assert(run(s, signals).1 =~= body_events(chunks));
    }
}

/// From the read that completes the head: where the head names method and
/// path and declares a length within the limit, and the reads after it
/// bring exactly the body bytes that are still missing, the engine emits one
/// `RequestStart` with the bytes behind the head, then one `RequestBody` for
/// each further read, the last with `more_body = false`.
pub proof fn lemma_head_then_body(
    s: EngineState,
    first: Seq<u8>,
    later: Seq<Seq<u8>>,
    head: ParsedHeadView,
    length: usize,
)
    requires
        s.phase == Phase::AwaitingHeaders,
        first.len() > 0,
        s.buffer.len() + first.len() <= s.limit,
        head_of(s.buffer + first, MAX_HEADERS) == HeadStatusView::Complete(head),
        head.method.is_some(),
        head.path.is_some(),
        head.consumed <= s.buffer.len() + first.len(),
        meta_of(head.headers).content_length == Some(length),
        length <= s.limit,
        forall|i: int| 0 <= i < later.len() ==> (#[trigger] later[i]).len() > 0,
        s.buffer.len() + first.len() - head.consumed + total_len(later) == length,
    ensures
        run(s, reads(seq![first] + later)).1 == seq![
            EventView::RequestStart {
                method: head.method.unwrap(),
                path: head.path.unwrap(),
                version: head.version.unwrap_or(DEFAULT_VERSION),
                rest: (s.buffer + first).skip(head.consumed as int),
                meta: meta_of(head.headers),
            },
        ] + body_events(later),
        request_starts(run(s, reads(seq![first] + later)).1) == 1,
        body_bytes(run(s, reads(seq![first] + later)).1) == length,
        run(s, reads(seq![first] + later)).0.phase == Phase::AwaitingResponse,
        run(s, reads(seq![first] + later)).0.received == length,
{
    let chunks = seq![first] + later;
    let signals = reads(chunks);
    let started = step(s, signals.first());
    let rest = (s.buffer + first).skip(head.consumed as int);
    assert(signals.first() == Signal::Read(first));
    assert(signals.drop_first() =~= reads(later));
    assert(started.0.received == rest.len());
    if later.len() == 0 {
        assert(total_len(later) == 0);
        assert(run(started.0, reads(later)).1 =~= Seq::<EventView>::empty());
    } else {
        assert(later[0].len() > 0);
        assert(total_len(later) > 0);
        lemma_stream_to_declared_length(started.0, later, length);
    }
    let events = run(s, signals).1;
    assert(events =~= emitted(started.1) + body_events(later));
    assert(events.drop_first() =~= body_events(later));
    lemma_body_events_bytes(later);
    lemma_single_request_start(s, signals);
}

/// While the bytes received are the beginning of a head and within the
/// limit, the engine waits: it keeps the bytes and emits nothing.
pub proof fn lemma_partial_head_waits(s: EngineState, chunk: Seq<u8>)
    requires
        s.phase == Phase::AwaitingHeaders,
        chunk.len() > 0,
        s.buffer.len() + chunk.len() <= s.limit,
        head_of(s.buffer + chunk, MAX_HEADERS) == HeadStatusView::Partial,
    ensures
        step(s, Signal::Read(chunk)) == (EngineState { buffer: s.buffer + chunk, ..s }, quiet()),
{
}

/// Each of the chunks, as it arrives, leaves the bytes received within the
/// limit and at the beginning of a head.
pub open spec fn heads_wait(s: EngineState, chunks: Seq<Seq<u8>>) -> bool {
    forall|k: int|
        #![trigger chunks.take(k)]
        1 <= k <= chunks.len() ==> {
            &&& chunks[k - 1].len() > 0
            &&& s.buffer.len() + joined(chunks.take(k)).len() <= s.limit
            &&& head_of(s.buffer + joined(chunks.take(k)), MAX_HEADERS) == HeadStatusView::Partial
        }
}

/// A run over two sequences of signals in a row is the run over the second
/// from where the run over the first ended.
pub proof fn lemma_run_concat(s: EngineState, a: Seq<Signal>, b: Seq<Signal>)
    ensures
        run(s, a + b).0 == run(run(s, a).0, b).0,
        run(s, a + b).1 == run(s, a).1 + run(run(s, a).0, b).1,
    decreases a.len(),
{
    if a.len() == 0 {
        assert(a + b =~= b);
        assert(run(s, a).1 + run(s, b).1 =~= run(s, b).1);
    } else {
        let first = step(s, a.first());
        assert((a + b).first() == a.first());
        assert((a + b).drop_first() =~= a.drop_first() + b);
        lemma_run_concat(first.0, a.drop_first(), b);
        let mid = run(first.0, a.drop_first());
        assert(emitted(first.1) + (mid.1 + run(mid.0, b).1) =~= (emitted(first.1) + mid.1) + run(
            mid.0,
            b,
        ).1);
    }
}

/// While the reads leave the beginning of a head within the limit, the
/// engine waits: it keeps the bytes and emits nothing.
pub proof fn lemma_partial_heads_wait(s: EngineState, chunks: Seq<Seq<u8>>)
    requires
        s.phase == Phase::AwaitingHeaders,
        heads_wait(s, chunks),
    ensures
        run(s, reads(chunks)) == (
            EngineState { buffer: s.buffer + joined(chunks), ..s },
            Seq::<EventView>::empty(),
        ),
    decreases chunks.len(),
{
    let signals = reads(chunks);
    if chunks.len() == 0 {
        assert(s.buffer + joined(chunks) =~= s.buffer);
    } else {
        let tail = chunks.drop_first();
        assert(signals.first() == Signal::Read(chunks[0]));
        assert(signals.drop_first() =~= reads(tail));
        assert(chunks.take(1).first() == chunks[0]);
        assert(chunks.take(1).drop_first() =~= Seq::<Seq<u8>>::empty());
        assert(joined(chunks.take(1).drop_first()) =~= Seq::<u8>::empty());
        assert(joined(chunks.take(1)) =~= chunks[0]);
        lemma_partial_head_waits(s, chunks[0]);
        let after = step(s, signals.first());
        assert forall|k: int| #![trigger tail.take(k)] 1 <= k <= tail.len() implies {
            &&& tail[k - 1].len() > 0
            &&& after.0.buffer.len() + joined(tail.take(k)).len() <= after.0.limit
            &&& head_of(after.0.buffer + joined(tail.take(k)), MAX_HEADERS)
                == HeadStatusView::Partial
        } by {
            assert(chunks.take(k + 1).drop_first() =~= tail.take(k));
            assert(chunks.take(k + 1).first() == chunks[0]);
            assert(s.buffer + joined(chunks.take(k + 1)) =~= after.0.buffer + joined(tail.take(k)));
            assert(tail[k - 1] == chunks[k]);
        }
        lemma_partial_heads_wait(after.0, tail);
        assert(s.buffer + joined(chunks) =~= after.0.buffer + joined(tail));
        assert(emitted(after.1) + Seq::<EventView>::empty() =~= Seq::<EventView>::empty());
    }
}

/// A request with a declared length is delivered whole, however the bytes
/// are cut into reads. Where the reads `waiting` leave the beginning of a
/// head, the read `first` completes a head that names method and path and
/// declares a length within the limit, and the reads `later` bring exactly
/// the body bytes that are still missing, the engine emits exactly one
/// `RequestStart`, with the bytes behind the head, then one `RequestBody`
/// for each read of `later`, the last with `more_body = false`. The body
/// bytes of these events, those that came with the head included, add up to
/// the declared length, and the reply is awaited.
pub proof fn lemma_declared_body_is_delivered(
    s: EngineState,
    waiting: Seq<Seq<u8>>,
    first: Seq<u8>,
    later: Seq<Seq<u8>>,
    head: ParsedHeadView,
    length: usize,
)
    requires
        s.phase == Phase::AwaitingHeaders,
        heads_wait(s, waiting),
        first.len() > 0,
        s.buffer.len() + joined(waiting).len() + first.len() <= s.limit,
        head_of(s.buffer + joined(waiting) + first, MAX_HEADERS) == HeadStatusView::Complete(head),
        head.method.is_some(),
        head.path.is_some(),
        head.consumed <= s.buffer.len() + joined(waiting).len() + first.len(),
        meta_of(head.headers).content_length == Some(length),
        length <= s.limit,
        forall|i: int| 0 <= i < later.len() ==> (#[trigger] later[i]).len() > 0,
        s.buffer.len() + joined(waiting).len() + first.len() - head.consumed + total_len(later)
            == length,
    ensures
        run(s, reads(waiting + seq![first] + later)).1 == seq![
            EventView::RequestStart {
                method: head.method.unwrap(),
                path: head.path.unwrap(),
                version: head.version.unwrap_or(DEFAULT_VERSION),
                rest: (s.buffer + joined(waiting) + first).skip(head.consumed as int),
                meta: meta_of(head.headers),
            },
        ] + body_events(later),
        request_starts(run(s, reads(waiting + seq![first] + later)).1) == 1,
        body_bytes(run(s, reads(waiting + seq![first] + later)).1) == length,
        run(s, reads(waiting + seq![first] + later)).0.phase == Phase::AwaitingResponse,
        run(s, reads(waiting + seq![first] + later)).0.received == length,
{
    let held = EngineState { buffer: s.buffer + joined(waiting), ..s };
    lemma_partial_heads_wait(s, waiting);
    lemma_head_then_body(held, first, later, head, length);
    assert(reads(waiting + seq![first] + later) =~= reads(waiting) + reads(seq![first] + later));
    lemma_run_concat(s, reads(waiting), reads(seq![first] + later));
    assert(Seq::<EventView>::empty() + run(held, reads(seq![first] + later)).1 =~= run(
        held,
        reads(seq![first] + later),
    ).1);
}

/// A head that outgrows the limit ends the connection without a request.
/// Where the reads `waiting` leave the beginning of a head within the
/// limit and the read `last` takes the bytes received over the limit, no
/// `RequestStart` is emitted: the only event of the connection, whatever
/// happens later, is one `Disconnect`.
pub proof fn lemma_oversized_head_closes(
    s: EngineState,
    waiting: Seq<Seq<u8>>,
    last: Seq<u8>,
    later: Seq<Signal>,
)
    requires
        s.phase == Phase::AwaitingHeaders,
        heads_wait(s, waiting),
        s.buffer.len() + joined(waiting).len() + last.len() > s.limit,
    ensures
        run(s, reads(waiting) + seq![Signal::Read(last)] + later).1 == seq![EventView::Disconnect],
        request_starts(run(s, reads(waiting) + seq![Signal::Read(last)] + later).1) == 0,
        run(s, reads(waiting) + seq![Signal::Read(last)] + later).0.phase == Phase::Closed,
{
    let held = EngineState { buffer: s.buffer + joined(waiting), ..s };
    let rest = seq![Signal::Read(last)] + later;
    lemma_partial_heads_wait(s, waiting);
    assert(reads(waiting) + seq![Signal::Read(last)] + later =~= reads(waiting) + rest);
    lemma_run_concat(s, reads(waiting), rest);
    assert(rest.first() == Signal::Read(last));
    assert(rest.drop_first() =~= later);
    assert(step(held, rest.first()) == close(held));
    lemma_closed_is_silent(close(held).0, later);
    let events = run(s, reads(waiting) + rest).1;
    assert(events =~= seq![EventView::Disconnect]);
    assert(events.drop_first() =~= Seq::<EventView>::empty());
    assert(request_starts(events.drop_first()) == 0);
}

} // verus!
