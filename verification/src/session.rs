//! An exchange together with the world around it.
//!
//! The program around the core answers the lookups of an exchange from the
//! medium, performs its actions on the medium and on the connection to the
//! client, and reports what upstream sends. This module states that loop and
//! proves what the proxy promises: a stored answer is served without
//! upstream and the same each time, a stream that reached its end is stored
//! as it was delivered, a stream that broke leaves no trace that a lookup
//! could see, and the chunks of a stream reach client and cache in order and
//! unchanged, each of the two undisturbed by a failure of the other.

use crate::exchange::{moved, next, pending_of, ExchangeView, Phase};
use crate::key::{key_of, lemma_key_injective};
use crate::layout::{body_name, lemma_names_distinct, pending_name, redirect_name};
use crate::protocol::{Action, Entry, Event, UpstreamFailure};
use crate::store::{
    abandon, appends, concerns, fetch_log, is_fetch_so_far, is_invisible_run, is_pending_name,
    is_protocol_op, is_protocol_run, is_visible_op, keeps_to, lemma_invisible_run,
    lemma_replay_concat, lemma_replay_one, lemma_writes_content, probe, read, replay, subject,
    writes, Medium, StoreOp,
};
use crate::tee::{chunk_signals, chunks_of, lemma_chunks_of_chunk_signals, Signal};
use crate::wire::{
    error_text, invalid_target_note, is_header_text, is_redirection, STATUS_BAD_GATEWAY,
    STATUS_FOUND, STATUS_OK,
};
use vstd::prelude::*;

verus! {

/// What comes from outside while upstream is asked and its body streams.
pub enum Stimulus {
    /// Upstream gave no answer.
    UpstreamFailed { kind: UpstreamFailure, description: Seq<u8> },
    /// Upstream answered.
    UpstreamReplied { status: u16, location: Option<Seq<u8>> },
    /// Something reached the tee.
    Stream(Signal),
}

/// The event that reports a stimulus.
pub open spec fn event_of(stimulus: Stimulus) -> Event<Seq<u8>> {
    match stimulus {
        Stimulus::UpstreamFailed { kind, description } => Event::UpstreamFailed {
            kind,
            description,
        },
        Stimulus::UpstreamReplied { status, location } => Event::UpstreamReplied {
            status,
            location,
        },
        Stimulus::Stream(Signal::Chunk(_)) => Event::Chunk,
        Stimulus::Stream(Signal::SinkFailed) => Event::SinkFailed,
        Stimulus::Stream(Signal::ClientGone) => Event::ClientGone,
        Stimulus::Stream(Signal::SourceEnded) => Event::SourceEnded,
        Stimulus::Stream(Signal::SourceFailed) => Event::SourceFailed,
    }
}

/// The bytes that a stimulus brings.
pub open spec fn payload(stimulus: Stimulus) -> Seq<u8> {
    match stimulus {
        Stimulus::Stream(Signal::Chunk(bytes)) => bytes,
        _ => Seq::empty(),
    }
}

/// The stimuli of a run of signals.
pub open spec fn streamed(signals: Seq<Signal>) -> Seq<Stimulus> {
    Seq::new(signals.len(), |i: int| Stimulus::Stream(signals[i]))
}

/// The operation on the medium that performing `action` amounts to, where
/// `s` is the state in which the event arrived and `chunk` the bytes that
/// came with it.
pub open spec fn effect(s: ExchangeView, action: Action<Seq<u8>>, chunk: Seq<u8>) -> Option<
    StoreOp,
> {
    match action {
        Action::RelayRedirect { record: Some(entry) } => Some(
            StoreOp::Put { name: entry.name, content: entry.content },
        ),
        Action::BeginStream { pending: Some(name), .. } => Some(StoreOp::Create { name }),
        Action::Route { to_sink: true, .. } => match pending_of(s) {
            Some(name) => Some(StoreOp::Append { name, data: chunk }),
            None => None,
        },
        Action::Discard { name } => Some(StoreOp::Discard { name }),
        Action::Commit { from, to } => Some(StoreOp::Publish { from, to }),
        Action::Abort { discard: Some(name) } => Some(StoreOp::Discard { name }),
        _ => None,
    }
}

/// What an exchange has done so far.
pub struct Run {
    pub exchange: ExchangeView,
    /// The operations performed on the medium, in order.
    pub ops: Seq<StoreOp>,
    /// The chunks sent to the client, in order.
    pub delivered: Seq<Seq<u8>>,
}

/// An exchange that has done nothing yet.
pub open spec fn begin_run(s: ExchangeView) -> Run {
    Run { exchange: s, ops: Seq::empty(), delivered: Seq::empty() }
}

/// The run after one more stimulus: the exchange takes its step and the
/// action is performed.
pub open spec fn advance(r: Run, stimulus: Stimulus) -> Run {
    let (exchange, action) = next(r.exchange, event_of(stimulus));
    Run {
        exchange,
        ops: match effect(r.exchange, action, payload(stimulus)) {
            Some(op) => r.ops.push(op),
            None => r.ops,
        },
        delivered: match action {
            Action::Route { to_client: true, .. } => r.delivered.push(payload(stimulus)),
            _ => r.delivered,
        },
    }
}

/// The run after a script of stimuli.
pub open spec fn relay(r: Run, script: Seq<Stimulus>) -> Run
    decreases script.len(),
{
    if script.len() == 0 {
        r
    } else {
        advance(relay(r, script.drop_last()), script.last())
    }
}

/// The lookups of an exchange, answered by the medium: the exchange is told
/// that the request arrived, reads the redirect artifact if it asks to, and
/// opens the body artifact if it asks to. The result is the state after the
/// lookups and the action that follows them.
pub open spec fn consult(m: Medium, s: ExchangeView) -> (ExchangeView, Action<Seq<u8>>) {
    let (s1, a1) = next(s, Event::Arrived);
    match a1 {
        Action::ReadRedirect { name } => {
            let (s2, a2) = next(s1, Event::RedirectRead(read(m, name)));
            match a2 {
                Action::OpenBody { name } => next(s2, Event::BodyOpened(probe(m, name))),
                _ => (s2, a2),
            }
        },
        _ => (s1, a1),
    }
}

/// The cache holds no answer for `key`: no body, and no redirect that can
/// be read as text.
pub open spec fn holds_nothing(m: Medium, key: Seq<u8>) -> bool {
    &&& !m.contains_key(body_name(key))
    &&& !(m.contains_key(redirect_name(key)) && is_header_text(m[redirect_name(key)]))
}

/// What follows the lookups of an exchange on a miss: upstream is asked,
/// unless the target is no URI.
pub open spec fn miss_action(s: ExchangeView) -> Action<Seq<u8>> {
    if s.target_ok {
        Action::Forward { target: s.target, within: s.patience }
    } else {
        Action::ServeError { status: STATUS_BAD_GATEWAY, body: error_text(invalid_target_note()) }
    }
}

/// A script followed by another.
pub proof fn lemma_relay_concat(r: Run, a: Seq<Stimulus>, b: Seq<Stimulus>)
    ensures
        relay(r, a + b) == relay(relay(r, a), b),
    decreases b.len(),
{
    if b.len() == 0 {
        assert(a + b =~= a);
    } else {
        lemma_relay_concat(r, a, b.drop_last());
        assert((a + b).drop_last() =~= a + b.drop_last());
        assert((a + b).last() == b.last());
    }
}

/// A script of one stimulus.
pub proof fn lemma_relay_one(r: Run, stimulus: Stimulus)
    ensures
        relay(r, seq![stimulus]) == advance(r, stimulus),
{
    assert(seq![stimulus].drop_last() =~= Seq::<Stimulus>::empty());
    assert(relay(r, seq![stimulus].drop_last()) == r);
}

/// A stored body is the answer. Where the cache holds a body for the key of
/// a request and no readable redirect, the lookups end in serving that body:
/// upstream is not asked and the medium is not touched, so every repetition
/// of the request finds the same bytes and gives the same answer.
pub proof fn lemma_stored_body_is_served(m: Medium, s: ExchangeView)
    requires
        s.phase == Phase::Start,
        m.contains_key(body_name(s.key)),
        !(m.contains_key(redirect_name(s.key)) && is_header_text(m[redirect_name(s.key)])),
    ensures
        consult(m, s).0.phase == Phase::BodyHit,
        consult(m, s).1 == (Action::ServeBody { status: STATUS_OK, name: body_name(s.key) }),
        effect(s, consult(m, s).1, Seq::empty()) is None,
{
}

/// A stored redirect is the answer. Where the cache holds a redirect for
/// the key of a request that can be read as text, the lookups end in serving
/// it with status 302: upstream is not asked and the medium is not touched.
pub proof fn lemma_stored_redirect_is_served(m: Medium, s: ExchangeView)
    requires
        s.phase == Phase::Start,
        m.contains_key(redirect_name(s.key)),
        is_header_text(m[redirect_name(s.key)]),
    ensures
        consult(m, s).0.phase == Phase::RedirectHit,
        consult(m, s).1 == (Action::ServeRedirect {
            status: STATUS_FOUND,
            location: m[redirect_name(s.key)],
        }),
        effect(s, consult(m, s).1, Seq::empty()) is None,
{
}

/// Nothing stored means upstream. Where the cache holds nothing for the key
/// of a request, the lookups end in asking upstream for the target of the
/// exchange, or in an error answer if that target is no URI.
pub proof fn lemma_miss_is_forwarded(m: Medium, s: ExchangeView)
    requires
        s.phase == Phase::Start,
        holds_nothing(m, s.key),
    ensures
        consult(m, s).1 == miss_action(s),
        s.target_ok ==> consult(m, s).0.phase == Phase::Forwarding,
{
}

/// Hits repeat. Two requests for the same key, whatever their tickets, get
/// the same answer from the same medium when it holds one.
pub proof fn lemma_hits_repeat(m: Medium, first: ExchangeView, second: ExchangeView)
    requires
        first.phase == Phase::Start,
        second.phase == Phase::Start,
        first.key == second.key,
        !holds_nothing(m, first.key),
    ensures
        consult(m, first).1 == consult(m, second).1,
        consult(m, first).1 is ServeBody || consult(m, first).1 is ServeRedirect,
{
}

/// The stimuli of a run of signals, without the last.
proof fn lemma_streamed_step(signals: Seq<Signal>)
    requires
        signals.len() > 0,
    ensures
        streamed(signals).drop_last() == streamed(signals.drop_last()),
        streamed(signals).last() == Stimulus::Stream(signals.last()),
{
    assert(streamed(signals).drop_last() =~= streamed(signals.drop_last()));
}

/// Delivery is faithful. While an exchange streams to a client that is
/// there, every chunk that arrives is sent on, in the order of arrival and
/// unchanged, and a failure of the cache in between takes nothing from it.
pub proof fn lemma_delivery_is_faithful(r: Run, signals: Seq<Signal>)
    requires
        r.exchange.phase == Phase::Streaming,
        r.exchange.tee.running,
        r.exchange.tee.client_open,
        forall|i: int|
            0 <= i < signals.len() ==> (#[trigger] signals[i]) is Chunk || signals[i]
                is SinkFailed,
    ensures
        relay(r, streamed(signals)).delivered == r.delivered + chunks_of(signals),
        relay(r, streamed(signals)).exchange.phase == Phase::Streaming,
        relay(r, streamed(signals)).exchange.tee.running,
        relay(r, streamed(signals)).exchange.tee.client_open,
    decreases signals.len(),
{
    if signals.len() == 0 {
        assert(r.delivered + chunks_of(signals) =~= r.delivered);
    } else {
        let rest = signals.drop_last();
        assert forall|i: int| 0 <= i < rest.len() implies (#[trigger] rest[i]) is Chunk
            || rest[i] is SinkFailed by {
            assert(rest[i] == signals[i]);
        }
        lemma_delivery_is_faithful(r, rest);
        lemma_streamed_step(signals);
        assert(signals.last() == signals[signals.len() - 1]);
        assert(relay(r, streamed(signals)).delivered =~= r.delivered + chunks_of(signals));
    }
}

/// Caching is faithful. While an exchange streams with its sink open,
/// every chunk that arrives is appended to its pending artifact, in the
/// order of arrival and unchanged, and nothing else is done to the medium;
/// a client that goes away in between takes nothing from it.
pub proof fn lemma_caching_is_faithful(r: Run, signals: Seq<Signal>, ticket: u64)
    requires
        r.exchange.phase == Phase::Streaming,
        r.exchange.ticket == Some(ticket),
        r.exchange.tee.running,
        r.exchange.tee.sink_open,
        forall|i: int|
            0 <= i < signals.len() ==> (#[trigger] signals[i]) is Chunk || signals[i]
                is ClientGone,
    ensures
        relay(r, streamed(signals)).ops == r.ops + appends(
            pending_name(r.exchange.key, ticket),
            chunks_of(signals),
        ),
        relay(r, streamed(signals)).exchange.phase == Phase::Streaming,
        relay(r, streamed(signals)).exchange.tee.running,
        relay(r, streamed(signals)).exchange.tee.sink_open,
        relay(r, streamed(signals)).exchange.ticket == Some(ticket),
        relay(r, streamed(signals)).exchange.key == r.exchange.key,
    decreases signals.len(),
{
    let name = pending_name(r.exchange.key, ticket);
    if signals.len() == 0 {
        assert(r.ops + appends(name, chunks_of(signals)) =~= r.ops);
    } else {
        let rest = signals.drop_last();
        assert forall|i: int| 0 <= i < rest.len() implies (#[trigger] rest[i]) is Chunk
            || rest[i] is ClientGone by {
            assert(rest[i] == signals[i]);
        }
        lemma_caching_is_faithful(r, rest, ticket);
        lemma_streamed_step(signals);
        assert(signals.last() == signals[signals.len() - 1]);
        match signals.last() {
            Signal::Chunk(bytes) => {
                assert(appends(name, chunks_of(signals)) =~= appends(name, chunks_of(rest)).push(
                    StoreOp::Append { name, data: bytes },
                ));
                assert(relay(r, streamed(signals)).ops =~= r.ops + appends(
                    name,
                    chunks_of(signals),
                ));
            },
            _ => {
                assert(relay(r, streamed(signals)).ops =~= r.ops + appends(
                    name,
                    chunks_of(signals),
                ));
            },
        }
    }
}

/// What an exchange does to the medium follows the protocol of the cache
/// store, and of the pending artifacts it acts on none but its own.
pub proof fn lemma_run_follows_protocol(r: Run, script: Seq<Stimulus>, ticket: u64)
    requires
        is_protocol_run(r.ops),
        keeps_to(r.ops, pending_name(r.exchange.key, ticket)),
        r.exchange.ticket is Some ==> r.exchange.ticket == Some(ticket),
    ensures
        is_protocol_run(relay(r, script).ops),
        keeps_to(relay(r, script).ops, pending_name(r.exchange.key, ticket)),
        relay(r, script).exchange.key == r.exchange.key,
        relay(r, script).exchange.ticket is Some ==> relay(r, script).exchange.ticket == Some(
            ticket,
        ),
    decreases script.len(),
{
    if script.len() > 0 {
        lemma_run_follows_protocol(r, script.drop_last(), ticket);
        let before = relay(r, script.drop_last());
        let after = relay(r, script);
        let key = r.exchange.key;
        let name = pending_name(key, ticket);
        let (s2, action) = next(before.exchange, event_of(script.last()));
        match effect(before.exchange, action, payload(script.last())) {
            Some(op) => {
                assert(after.ops == before.ops.push(op));
                assert(is_pending_name(name));
                assert(is_protocol_op(op)) by {
                    match op {
                        StoreOp::Publish { from, to } => {
                            assert(to == body_name(key));
                        },
                        StoreOp::Put { name, content } => {
                            assert(name == redirect_name(key));
                        },
                        _ => {},
                    }
                }
                assert forall|i: int| 0 <= i < after.ops.len() implies is_protocol_op(
                    #[trigger] after.ops[i],
                ) by {
                    if i < before.ops.len() {
                        assert(after.ops[i] == before.ops[i]);
                    }
                }
                assert forall|i: int|
                    0 <= i < after.ops.len() && subject(
                        #[trigger] after.ops[i],
                    ) is Some implies concerns(after.ops[i], name) by {
                    if i < before.ops.len() {
                        assert(after.ops[i] == before.ops[i]);
                    }
                }
            },
            None => {},
        }
    }
}

/// Only an outcome shows. As long as an exchange that asked upstream has
/// neither committed a body nor relayed a redirect, it has done nothing to
/// the medium that a lookup could see.
pub proof fn lemma_unfinished_run_is_invisible(r: Run, script: Seq<Stimulus>)
    requires
        r.exchange.phase == Phase::Forwarding || r.exchange.phase == Phase::Streaming,
        is_invisible_run(r.ops),
        relay(r, script).exchange.phase != Phase::Committed,
        relay(r, script).exchange.phase != Phase::RedirectStore,
    ensures
        is_invisible_run(relay(r, script).ops),
    decreases script.len(),
{
    if script.len() > 0 {
        let before = relay(r, script.drop_last());
        let after = relay(r, script);
        lemma_phase_is_kept(r, script.drop_last());
        if before.exchange.phase == Phase::Committed || before.exchange.phase
            == Phase::RedirectStore {
            assert(after.exchange.phase == before.exchange.phase);
        }
        lemma_unfinished_run_is_invisible(r, script.drop_last());
        assert forall|i: int| 0 <= i < after.ops.len() implies !is_visible_op(
            #[trigger] after.ops[i],
        ) by {
            if i < before.ops.len() {
                assert(after.ops[i] == before.ops[i]);
            }
        }
    }
}

/// An exchange that has asked upstream is, after any script, still asking,
/// streaming, or at one of the four outcomes that can follow.
pub proof fn lemma_phase_is_kept(r: Run, script: Seq<Stimulus>)
    requires
        r.exchange.phase == Phase::Forwarding || r.exchange.phase == Phase::Streaming,
    ensures
        ({
            let phase = relay(r, script).exchange.phase;
            phase == Phase::Forwarding || phase == Phase::Streaming || phase == Phase::Committed
                || phase == Phase::Abandoned || phase == Phase::RedirectStore || phase
                == Phase::UpstreamError
        }),
    decreases script.len(),
{
    if script.len() > 0 {
        lemma_phase_is_kept(r, script.drop_last());
    }
}

/// A broken fetch leaves no trace. Take an exchange that asked upstream and,
/// after any script of chunks and failures, ended without a stored body and
/// without a relayed redirect: upstream failed, the stream broke off after
/// some bytes, or the cache could not be written. Then every later request,
/// for the same key or another, finds in the cache exactly what it would
/// have found before: in particular a key that missed still misses, and no
/// part of the broken stream is ever served.
pub proof fn lemma_broken_fetch_leaves_no_trace(
    m: Medium,
    s: ExchangeView,
    script: Seq<Stimulus>,
    ticket: u64,
    later: ExchangeView,
)
    requires
        s.phase == Phase::Forwarding,
        s.ticket is Some ==> s.ticket == Some(ticket),
        relay(begin_run(s), script).exchange.phase != Phase::Committed,
        relay(begin_run(s), script).exchange.phase != Phase::RedirectStore,
    ensures
        consult(replay(m, relay(begin_run(s), script).ops), later) == consult(m, later),
{
    let run = relay(begin_run(s), script);
    lemma_run_follows_protocol(begin_run(s), script, ticket);
    lemma_unfinished_run_is_invisible(begin_run(s), script);
    lemma_invisible_run(m, run.ops, later.key);
}

/// The script of an answer that is streamed to its end: the head of the
/// answer, the chunks of its body, and the end of the body.
pub open spec fn complete_stream(
    status: u16,
    location: Option<Seq<u8>>,
    chunks: Seq<Seq<u8>>,
) -> Seq<Stimulus> {
    seq![Stimulus::UpstreamReplied { status, location }] + streamed(chunk_signals(chunks))
        + seq![Stimulus::Stream(Signal::SourceEnded)]
}

/// The script of an answer that breaks off after some chunks.
pub open spec fn severed_stream(
    status: u16,
    location: Option<Seq<u8>>,
    chunks: Seq<Seq<u8>>,
) -> Seq<Stimulus> {
    seq![Stimulus::UpstreamReplied { status, location }] + streamed(chunk_signals(chunks))
        + seq![Stimulus::Stream(Signal::SourceFailed)]
}

/// The run of an exchange up to the last chunk of a streamed answer.
proof fn lemma_stream_body(
    s: ExchangeView,
    status: u16,
    location: Option<Seq<u8>>,
    chunks: Seq<Seq<u8>>,
    ticket: u64,
)
    requires
        s.phase == Phase::Forwarding,
        s.ticket == Some(ticket),
        !(is_redirection(status) && location is Some),
    ensures
        ({
            let head = seq![Stimulus::UpstreamReplied { status, location }];
            let run = relay(begin_run(s), head + streamed(chunk_signals(chunks)));
            &&& run.exchange.phase == Phase::Streaming
            &&& run.exchange.key == s.key
            &&& run.exchange.ticket == s.ticket
            &&& run.exchange.tee.running
            &&& run.exchange.tee.sink_open
            &&& run.exchange.tee.client_open
            &&& run.ops == writes(pending_name(s.key, ticket), chunks)
            &&& run.delivered == chunks
        }),
{
    let head = Stimulus::UpstreamReplied { status, location };
    let name = pending_name(s.key, ticket);
    let signals = chunk_signals(chunks);
    lemma_relay_one(begin_run(s), head);
    let opened = relay(begin_run(s), seq![head]);
    assert(opened.ops =~= seq![StoreOp::Create { name }]);
    assert(opened.delivered =~= Seq::<Seq<u8>>::empty());
    lemma_relay_concat(begin_run(s), seq![head], streamed(signals));
    lemma_chunks_of_chunk_signals(chunks);
    lemma_delivery_is_faithful(opened, signals);
    lemma_caching_is_faithful(opened, signals, ticket);
    let run = relay(opened, streamed(signals));
    assert(run.delivered =~= chunks);
    assert(run.ops =~= writes(name, chunks));
}

/// A fetch that reaches its end is stored as it was delivered. Take a key
/// for which the cache holds nothing, and an exchange for it that asked
/// upstream and got an answer that is no redirect, with a body of any
/// chunks that ends well. Then the client was sent exactly those chunks, in
/// order; the body artifact of the key holds their bytes and no pending
/// artifact is left; and the next request for the key is answered with that
/// body, without upstream.
pub proof fn lemma_complete_fetch_is_stored(
    m: Medium,
    s: ExchangeView,
    status: u16,
    location: Option<Seq<u8>>,
    chunks: Seq<Seq<u8>>,
    ticket: u64,
    later: ExchangeView,
)
    requires
        s.phase == Phase::Forwarding,
        s.ticket == Some(ticket),
        !(is_redirection(status) && location is Some),
        holds_nothing(m, s.key),
        later.phase == Phase::Start,
        later.key == s.key,
    ensures
        ({
            let run = relay(begin_run(s), complete_stream(status, location, chunks));
            let stored = replay(m, run.ops);
            &&& run.exchange.phase == Phase::Committed
            &&& run.delivered == chunks
            &&& run.ops == fetch_log(s.key, ticket, chunks)
            &&& stored == m.remove(pending_name(s.key, ticket)).insert(
                body_name(s.key),
                chunks.flatten(),
            )
            &&& consult(stored, later).1 == (Action::ServeBody {
                status: STATUS_OK,
                name: body_name(s.key),
            })
        }),
{
    let head = seq![Stimulus::UpstreamReplied { status, location }];
    let name = pending_name(s.key, ticket);
    let body = body_name(s.key);
    lemma_stream_body(s, status, location, chunks, ticket);
    let body_run = relay(begin_run(s), head + streamed(chunk_signals(chunks)));
    lemma_relay_concat(
        begin_run(s),
        head + streamed(chunk_signals(chunks)),
        seq![Stimulus::Stream(Signal::SourceEnded)],
    );
    lemma_relay_one(body_run, Stimulus::Stream(Signal::SourceEnded));
    let run = relay(begin_run(s), complete_stream(status, location, chunks));
    let commit = StoreOp::Publish { from: name, to: body };
    assert(run.ops =~= writes(name, chunks) + seq![commit]);
    assert(run.ops =~= fetch_log(s.key, ticket, chunks));
    lemma_replay_concat(m, writes(name, chunks), seq![commit]);
    lemma_writes_content(m, name, chunks);
    let written = replay(m, writes(name, chunks));
    lemma_replay_one(written, commit);
    lemma_names_distinct(s.key, 0, s.key, ticket);
    let stored = replay(m, run.ops);
    assert(stored =~= m.remove(name).insert(body, chunks.flatten()));
}

/// A fetch that breaks off is not stored. Take an exchange that asked
/// upstream and got an answer whose body broke off after any chunks. Then
/// the exchange is abandoned, its pending artifact is removed, and the
/// medium is what it was but for that artifact: a later request for the key
/// misses as before.
pub proof fn lemma_severed_fetch_is_dropped(
    m: Medium,
    s: ExchangeView,
    status: u16,
    location: Option<Seq<u8>>,
    chunks: Seq<Seq<u8>>,
    ticket: u64,
    later: ExchangeView,
)
    requires
        s.phase == Phase::Forwarding,
        s.ticket == Some(ticket),
        !(is_redirection(status) && location is Some),
        holds_nothing(m, s.key),
        later.phase == Phase::Start,
        later.key == s.key,
    ensures
        ({
            let run = relay(begin_run(s), severed_stream(status, location, chunks));
            let left = replay(m, run.ops);
            &&& run.exchange.phase == Phase::Abandoned
            &&& left == m.remove(pending_name(s.key, ticket))
            &&& consult(left, later).1 == miss_action(later)
        }),
{
    let head = seq![Stimulus::UpstreamReplied { status, location }];
    let name = pending_name(s.key, ticket);
    lemma_stream_body(s, status, location, chunks, ticket);
    let body_run = relay(begin_run(s), head + streamed(chunk_signals(chunks)));
    lemma_relay_concat(
        begin_run(s),
        head + streamed(chunk_signals(chunks)),
        seq![Stimulus::Stream(Signal::SourceFailed)],
    );
    lemma_relay_one(body_run, Stimulus::Stream(Signal::SourceFailed));
    let run = relay(begin_run(s), severed_stream(status, location, chunks));
    let drop = StoreOp::Discard { name };
    assert(run.ops =~= writes(name, chunks) + seq![drop]);
    lemma_replay_concat(m, writes(name, chunks), seq![drop]);
    lemma_writes_content(m, name, chunks);
    let written = replay(m, writes(name, chunks));
    lemma_replay_one(written, drop);
    let left = replay(m, run.ops);
    assert(left =~= m.remove(name));
    lemma_names_distinct(s.key, 0, s.key, ticket);
}

/// A relayed redirect is stored and served. Take an exchange that asked
/// upstream and got a redirection whose `Location` can be read as text.
/// Then the answer is relayed as it is, the redirect artifact of the key
/// holds the `Location`, and the next request for the key is answered with
/// status 302 and that `Location`, without upstream.
pub proof fn lemma_relayed_redirect_is_stored(
    m: Medium,
    s: ExchangeView,
    status: u16,
    location: Seq<u8>,
    later: ExchangeView,
)
    requires
        s.phase == Phase::Forwarding,
        is_redirection(status),
        is_header_text(location),
        later.phase == Phase::Start,
        later.key == s.key,
    ensures
        ({
            let reply = Stimulus::UpstreamReplied { status, location: Some(location) };
            let run = advance(begin_run(s), reply);
            let stored = replay(m, run.ops);
            &&& run.exchange.phase == Phase::RedirectStore
            &&& next(s, event_of(reply)).1 == (Action::RelayRedirect {
                record: Some(Entry { name: redirect_name(s.key), content: location }),
            })
            &&& stored == m.insert(redirect_name(s.key), location)
            &&& consult(stored, later).1 == (Action::ServeRedirect {
                status: STATUS_FOUND,
                location,
            })
        }),
{
    let reply = Stimulus::UpstreamReplied { status, location: Some(location) };
    let run = advance(begin_run(s), reply);
    let put = StoreOp::Put { name: redirect_name(s.key), content: location };
    assert(run.ops =~= seq![put]);
    lemma_replay_one(m, put);
}

/// A stream that ends at most once, and then with its last signal.
pub open spec fn ends_at_most_once(signals: Seq<Signal>) -> bool {
    forall|i: int|
        0 <= i < signals.len() - 1 ==> !((#[trigger] signals[i]) is SourceEnded) && !(signals[i]
            is SourceFailed)
}

/// The run of an exchange that asked upstream, got an answer to stream, and
/// then the given signals.
pub open spec fn stream_run(
    s: ExchangeView,
    status: u16,
    location: Option<Seq<u8>>,
    signals: Seq<Signal>,
) -> Run {
    relay(begin_run(s), seq![Stimulus::UpstreamReplied { status, location }] + streamed(signals))
}

/// Where the write of a streaming exchange stands after `n` signals: still
/// going, with every chunk so far written; abandoned after some of them; or
/// committed with all of them, the stream at its end.
spec fn write_stands(r: Run, s: ExchangeView, ticket: u64, signals: Seq<Signal>, n: int) -> bool {
    let name = pending_name(s.key, ticket);
    let going = r.exchange.phase == Phase::Streaming && r.exchange.tee.running
        && r.exchange.tee.sink_open;
    &&& r.exchange.key == s.key
    &&& r.exchange.ticket == Some(ticket)
    &&& r.exchange.phase == Phase::Streaming || r.exchange.phase == Phase::Committed
        || r.exchange.phase == Phase::Abandoned
    &&& {
        ||| going && r.ops == writes(name, chunks_of(signals.take(n)))
        ||| !going && r.exchange.phase != Phase::Committed && !r.exchange.tee.sink_open
            && exists|k: int|
            0 <= k <= n && r.ops == writes(name, chunks_of(#[trigger] signals.take(k))).push(
                abandon(s.key, ticket),
            )
        ||| r.exchange.phase == Phase::Committed && n == signals.len() && r.ops == fetch_log(
            s.key,
            ticket,
            chunks_of(signals.take(n)),
        )
    }
}

proof fn lemma_write_stands(
    s: ExchangeView,
    status: u16,
    location: Option<Seq<u8>>,
    signals: Seq<Signal>,
    ticket: u64,
    n: int,
)
    requires
        s.phase == Phase::Forwarding,
        s.ticket == Some(ticket),
        !(is_redirection(status) && location is Some),
        ends_at_most_once(signals),
        0 <= n <= signals.len(),
    ensures
        write_stands(stream_run(s, status, location, signals.take(n)), s, ticket, signals, n),
    decreases n,
{
    let head = Stimulus::UpstreamReplied { status, location };
    let name = pending_name(s.key, ticket);
    if n == 0 {
        assert(signals.take(0) =~= Seq::<Signal>::empty());
        assert(seq![head] + streamed(signals.take(0)) =~= seq![head]);
        lemma_relay_one(begin_run(s), head);
        let r = stream_run(s, status, location, signals.take(0));
        assert(chunks_of(signals.take(0)) =~= Seq::<Seq<u8>>::empty());
        assert(r.ops =~= writes(name, chunks_of(signals.take(0))));
    } else {
        lemma_write_stands(s, status, location, signals, ticket, n - 1);
        let before = stream_run(s, status, location, signals.take(n - 1));
        let after = stream_run(s, status, location, signals.take(n));
        let signal = signals[n - 1];
        let script = seq![head] + streamed(signals.take(n));
        assert(script.drop_last() =~= seq![head] + streamed(signals.take(n - 1)));
        assert(script.last() == Stimulus::Stream(signal));
        assert(after == advance(before, Stimulus::Stream(signal)));
        assert(signals.take(n).drop_last() =~= signals.take(n - 1));
        assert(signals.take(n).last() == signal);
        let written = chunks_of(signals.take(n - 1));
        let going = before.exchange.phase == Phase::Streaming && before.exchange.tee.running
            && before.exchange.tee.sink_open;
        if going {
            match signal {
                Signal::Chunk(bytes) => {
                    assert(appends(name, written.push(bytes)) =~= appends(name, written).push(
                        StoreOp::Append { name, data: bytes },
                    ));
                    assert(after.ops =~= writes(name, chunks_of(signals.take(n))));
                },
                Signal::ClientGone => {},
                Signal::SourceEnded => {
                    assert(n == signals.len());
                },
                _ => {
                    assert(after.ops == writes(name, chunks_of(signals.take(n - 1))).push(
                        abandon(s.key, ticket),
                    ));
                },
            }
        } else if before.exchange.phase != Phase::Committed {
            let k = choose|k: int|
                0 <= k <= n - 1 && before.ops == writes(
                    name,
                    chunks_of(#[trigger] signals.take(k)),
                ).push(abandon(s.key, ticket));
            assert(after.ops == before.ops);
            assert(after.ops == writes(name, chunks_of(signals.take(k))).push(
                abandon(s.key, ticket),
            ));
        }
    }
}

/// The chunks of the beginning of a stream are a beginning of its chunks.
proof fn lemma_chunks_of_prefix(signals: Seq<Signal>, k: int)
    requires
        0 <= k <= signals.len(),
    ensures
        chunks_of(signals.take(k)).is_prefix_of(chunks_of(signals)),
    decreases signals.len() - k,
{
    if k == signals.len() {
        assert(signals.take(k) =~= signals);
    } else {
        lemma_chunks_of_prefix(signals, k + 1);
        assert(signals.take(k + 1).drop_last() =~= signals.take(k));
        let longer = chunks_of(signals.take(k + 1));
        let shorter = chunks_of(signals.take(k));
        assert(shorter.is_prefix_of(longer));
        assert forall|i: int| 0 <= i < shorter.len() implies shorter[i] == chunks_of(
            signals,
        )[i] by {
            assert(shorter[i] == longer[i]);
        }
    }
}

/// An exchange keeps to the log of a fetch. Take an exchange with a ticket
/// that asked upstream and got an answer to stream, and any stream of
/// chunks and failures that ends at most once. At every point of the stream,
/// what the exchange has done to the medium is a beginning of the log of a
/// fetch of the chunks of the stream, or the writes of some of them followed
/// by abandoning the write: it is one of the fetches of which the store
/// proves that they commit once.
pub proof fn lemma_exchange_keeps_to_fetch(
    s: ExchangeView,
    status: u16,
    location: Option<Seq<u8>>,
    signals: Seq<Signal>,
    ticket: u64,
    n: int,
)
    requires
        s.phase == Phase::Forwarding,
        s.ticket == Some(ticket),
        !(is_redirection(status) && location is Some),
        ends_at_most_once(signals),
        0 <= n <= signals.len(),
    ensures
        is_fetch_so_far(
            stream_run(s, status, location, signals.take(n)).ops,
            s.key,
            ticket,
            chunks_of(signals),
        ),
{
    lemma_write_stands(s, status, location, signals, ticket, n);
    let r = stream_run(s, status, location, signals.take(n));
    let name = pending_name(s.key, ticket);
    let all = chunks_of(signals);
    let whole = fetch_log(s.key, ticket, all);
    let going = r.exchange.phase == Phase::Streaming && r.exchange.tee.running
        && r.exchange.tee.sink_open;
    if going {
        lemma_chunks_of_prefix(signals, n);
        let some = chunks_of(signals.take(n));
        assert(r.ops.is_prefix_of(whole)) by {
            assert forall|i: int| 0 <= i < r.ops.len() implies r.ops[i] == whole[i] by {
                if i > 0 {
                    assert(some[i - 1] == all[i - 1]);
                }
            }
        }
    } else if r.exchange.phase == Phase::Committed {
        assert(signals.take(n) =~= signals);
        assert(r.ops.is_prefix_of(whole));
    } else {
        let k = choose|k: int|
            0 <= k <= n && r.ops == writes(name, chunks_of(#[trigger] signals.take(k))).push(
                abandon(s.key, ticket),
            );
        lemma_chunks_of_prefix(signals, k);
        let some = chunks_of(signals.take(k));
        assert(some =~= all.take(some.len() as int));
    }
}

/// Answers do not cross. Take two targets that differ in path or in query,
/// and a cache that holds nothing for the second. After a fetch for the
/// first has reached its end and was stored, a request for the second still
/// misses: what was cached for one target is never the answer for another.
pub proof fn lemma_answers_do_not_cross(
    m: Medium,
    s: ExchangeView,
    status: u16,
    location: Option<Seq<u8>>,
    chunks: Seq<Seq<u8>>,
    ticket: u64,
    path1: Seq<u8>,
    query1: Option<Seq<u8>>,
    path2: Seq<u8>,
    query2: Option<Seq<u8>>,
    other: ExchangeView,
)
    requires
        s.phase == Phase::Forwarding,
        s.ticket == Some(ticket),
        s.key == key_of(path1, query1),
        !(is_redirection(status) && location is Some),
        holds_nothing(m, s.key),
        path1 != path2 || query1 != query2,
        other.phase == Phase::Start,
        other.key == key_of(path2, query2),
        holds_nothing(m, other.key),
    ensures
        ({
            let run = relay(begin_run(s), complete_stream(status, location, chunks));
            consult(replay(m, run.ops), other).1 == miss_action(other)
        }),
{
    if s.key == other.key {
        lemma_key_injective(path1, query1, path2, query2);
    }
    lemma_complete_fetch_is_stored(m, s, status, location, chunks, ticket, moved(s, Phase::Start));
    lemma_names_distinct(other.key, 0, s.key, ticket);
    lemma_names_distinct(other.key, 0, s.key, 0);
    lemma_names_distinct(s.key, 0, other.key, 0);
}

} // verus!
