//! One request on its way through the proxy.
//!
//! An exchange starts when a request arrives and ends in exactly one of six
//! outcomes: answered from a stored redirect, answered from a stored body,
//! upstream's redirect relayed, upstream's body streamed and committed,
//! streamed and abandoned, or upstream failed. In between it tells the
//! program around it what to do next and is told what happened. It never
//! goes back to a phase it has left.

use crate::key::CacheKey;
use crate::layout::{body_name, pending_name, redirect_name};
use crate::octets::{copy_of, option_view};
use crate::protocol::{Action, Event, Lookup, Probe};
use crate::recorder::{reconstruct, reconstruct_of, record, record_of};
use crate::tee::{fresh_tee, tee_next, Flow, Routing, Tee, TeeView};
use crate::wire::{
    error_body, error_text, invalid_target_description, invalid_target_note, is_redirection,
    status_is_redirection, STATUS_BAD_GATEWAY, STATUS_FOUND, STATUS_OK,
};
use vstd::prelude::*;

verus! {

/// Where an exchange stands.
#[derive(Debug, Clone, Copy, PartialEq, Eq)]
pub enum Phase {
    /// The request has not been looked at.
    Start,
    /// The redirect artifact is being read.
    RedirectLookup,
    /// Answered from a stored redirect. Final.
    RedirectHit,
    /// The body artifact is being opened.
    BodyLookup,
    /// Answered from a stored body. Final.
    BodyHit,
    /// Upstream is being asked.
    Forwarding,
    /// Upstream's redirect was relayed. Final.
    RedirectStore,
    /// Upstream's body is being streamed.
    Streaming,
    /// The body was streamed to its end and made visible. Final.
    Committed,
    /// The stream ended without a stored body. Final.
    Abandoned,
    /// Upstream gave no answer; the client was told so. Final.
    UpstreamError,
}

/// The state of an exchange.
pub struct ExchangeView {
    pub phase: Phase,
    /// The cache key of the request's target.
    pub key: Seq<u8>,
    /// The ticket that names the pending artifact of this exchange; none if
    /// there was no ticket left, and then nothing is stored.
    pub ticket: Option<u64>,
    /// The target to ask of upstream.
    pub target: Seq<u8>,
    /// Whether the HTTP library takes the target for a URI.
    pub target_ok: bool,
    /// The seconds that upstream is given to begin its answer.
    pub patience: u64,
    /// The tee that the upstream body runs through.
    pub tee: TeeView,
}

/// Phases that end an exchange.
pub open spec fn is_final(phase: Phase) -> bool {
    match phase {
        Phase::RedirectHit
        | Phase::BodyHit
        | Phase::RedirectStore
        | Phase::Committed
        | Phase::Abandoned
        | Phase::UpstreamError => true,
        _ => false,
    }
}

/// How far a phase is from the start.
pub open spec fn rank(phase: Phase) -> nat {
    match phase {
        Phase::Start => 0,
        Phase::RedirectLookup => 1,
        Phase::RedirectHit => 2,
        Phase::BodyLookup => 2,
        Phase::BodyHit => 3,
        Phase::Forwarding => 3,
        Phase::RedirectStore => 4,
        Phase::UpstreamError => 4,
        Phase::Streaming => 4,
        Phase::Committed => 5,
        Phase::Abandoned => 5,
    }
}

/// The state of an exchange that has just been opened.
pub open spec fn initial(
    key: Seq<u8>,
    ticket: Option<u64>,
    target: Seq<u8>,
    target_ok: bool,
    patience: u64,
) -> ExchangeView {
    ExchangeView {
        phase: Phase::Start,
        key,
        ticket,
        target,
        target_ok,
        patience,
        tee: fresh_tee(ticket is Some),
    }
}

/// The name of the pending artifact of the exchange.
pub open spec fn pending_of(s: ExchangeView) -> Option<Seq<u8>> {
    match s.ticket {
        Some(ticket) => Some(pending_name(s.key, ticket)),
        None => None,
    }
}

/// The state `s` in another phase.
pub open spec fn moved(s: ExchangeView, phase: Phase) -> ExchangeView {
    ExchangeView { phase, ..s }
}

/// After the redirect artifact was read: a stored `Location` that can be
/// read as text is the answer; anything else leads on to the body artifact.
pub open spec fn after_redirect_read(s: ExchangeView, outcome: Lookup<Seq<u8>>) -> (
    ExchangeView,
    Action<Seq<u8>>,
) {
    match reconstruct_of(outcome) {
        Some(location) => (
            moved(s, Phase::RedirectHit),
            Action::ServeRedirect { status: STATUS_FOUND, location },
        ),
        None => (moved(s, Phase::BodyLookup), Action::OpenBody { name: body_name(s.key) }),
    }
}

/// After the body artifact was opened: a body that is there is the answer;
/// otherwise upstream is asked, if there is a target that can be asked.
pub open spec fn after_body_opened(s: ExchangeView, outcome: Probe) -> (
    ExchangeView,
    Action<Seq<u8>>,
) {
    match outcome {
        Probe::Found => (
            moved(s, Phase::BodyHit),
            Action::ServeBody { status: STATUS_OK, name: body_name(s.key) },
        ),
        _ => if s.target_ok {
            (moved(s, Phase::Forwarding), Action::Forward { target: s.target, within: s.patience })
        } else {
            (
                moved(s, Phase::UpstreamError),
                Action::ServeError {
                    status: STATUS_BAD_GATEWAY,
                    body: error_text(invalid_target_note()),
                },
            )
        },
    }
}

/// After upstream answered: a redirection with a `Location` is relayed, and
/// recorded if the value can be recorded; any other answer is streamed
/// through a fresh tee, whose sink is the pending artifact of the exchange.
pub open spec fn after_upstream_replied(
    s: ExchangeView,
    status: u16,
    location: Option<Seq<u8>>,
) -> (ExchangeView, Action<Seq<u8>>) {
    match location {
        Some(value) if is_redirection(status) => (
            moved(s, Phase::RedirectStore),
            Action::RelayRedirect { record: record_of(s.key, value) },
        ),
        _ => (
            ExchangeView { phase: Phase::Streaming, tee: fresh_tee(s.ticket is Some), ..s },
            Action::BeginStream { status: STATUS_OK, pending: pending_of(s) },
        ),
    }
}

/// What an event tells the tee, if it is one for the tee.
pub open spec fn flow_in(event: Event<Seq<u8>>) -> Option<Flow> {
    match event {
        Event::Chunk => Some(Flow::Chunk),
        Event::SinkFailed => Some(Flow::SinkFailed),
        Event::ClientGone => Some(Flow::ClientGone),
        Event::SourceEnded => Some(Flow::SourceEnded),
        Event::SourceFailed => Some(Flow::SourceFailed),
        _ => None,
    }
}

/// What the routing of the tee means for the exchange: the phase it is in
/// afterwards, and the action, in which the sink has become the pending
/// artifact and its commit the body artifact of the key.
pub open spec fn carry_out(s: ExchangeView, routing: Routing) -> (Phase, Action<Seq<u8>>) {
    match routing {
        Routing::Route { to_sink, to_client } => (
            Phase::Streaming,
            Action::Route { to_sink, to_client },
        ),
        Routing::DropSink => (
            Phase::Streaming,
            match pending_of(s) {
                Some(name) => Action::Discard { name },
                None => Action::Idle,
            },
        ),
        Routing::Idle => (Phase::Streaming, Action::Idle),
        Routing::Complete { commit } => match pending_of(s) {
            Some(from) if commit => (
                Phase::Committed,
                Action::Commit { from, to: body_name(s.key) },
            ),
            _ => (Phase::Abandoned, Action::Finish),
        },
        Routing::Abort { abandon_sink } => (
            Phase::Abandoned,
            Action::Abort {
                discard: if abandon_sink {
                    pending_of(s)
                } else {
                    None
                },
            },
        ),
    }
}

/// While the upstream body is streaming: the tee is told what happened and
/// its routing is carried out.
pub open spec fn while_streaming(s: ExchangeView, event: Event<Seq<u8>>) -> (
    ExchangeView,
    Action<Seq<u8>>,
) {
    match flow_in(event) {
        Some(flow) => {
            let (tee, routing) = tee_next(s.tee, flow);
            let (phase, action) = carry_out(s, routing);
            (ExchangeView { phase, tee, ..s }, action)
        },
        None => (s, Action::Idle),
    }
}

/// The transition function: the state after `event` and the action to
/// perform. An event that does not belong to the phase changes nothing and
/// asks for nothing.
pub open spec fn next(s: ExchangeView, event: Event<Seq<u8>>) -> (ExchangeView, Action<Seq<u8>>) {
    match (s.phase, event) {
        (Phase::Start, Event::Arrived) => (
            moved(s, Phase::RedirectLookup),
            Action::ReadRedirect { name: redirect_name(s.key) },
        ),
        (Phase::RedirectLookup, Event::RedirectRead(outcome)) => after_redirect_read(s, outcome),
        (Phase::BodyLookup, Event::BodyOpened(outcome)) => after_body_opened(s, outcome),
        (Phase::Forwarding, Event::UpstreamFailed { description, .. }) => (
            moved(s, Phase::UpstreamError),
            Action::ServeError { status: STATUS_BAD_GATEWAY, body: error_text(description) },
        ),
        (Phase::Forwarding, Event::UpstreamReplied { status, location }) => after_upstream_replied(
            s,
            status,
            location,
        ),
        (Phase::Streaming, _) => while_streaming(s, event),
        _ => (s, Action::Idle),
    }
}

/// No way back. A step leaves the exchange in its phase or takes it to a
/// phase further from the start; it leaves key, ticket and target as they
/// are; and an exchange that has reached its outcome stays there and asks
/// for nothing more.
pub proof fn lemma_no_way_back(s: ExchangeView, event: Event<Seq<u8>>)
    ensures
        next(s, event).0.phase == s.phase || rank(next(s, event).0.phase) > rank(s.phase),
        next(s, event).0.key == s.key,
        next(s, event).0.ticket == s.ticket,
        next(s, event).0.target == s.target,
        next(s, event).0.patience == s.patience,
        is_final(s.phase) ==> next(s, event) == (s, Action::<Seq<u8>>::Idle),
{
}

/// A cache that fails reads like a cache that holds nothing: after a lookup
/// that failed, the exchange goes on as after one that found no artifact.
pub proof fn lemma_failed_lookup_is_a_miss(s: ExchangeView)
    ensures
        next(s, Event::RedirectRead(Lookup::Failed)) == next(
            s,
            Event::RedirectRead(Lookup::Absent),
        ),
        next(s, Event::BodyOpened(Probe::Failed)) == next(s, Event::BodyOpened(Probe::Absent)),
{
}

/// One request on its way through the proxy.
#[derive(Debug)]
pub struct Exchange {
    phase: Phase,
    key: CacheKey,
    ticket: Option<u64>,
    target: Vec<u8>,
    target_ok: bool,
    patience: u64,
    tee: Tee,
}

impl Exchange {
    /// The state of the exchange.
    pub closed spec fn view(&self) -> ExchangeView {
        ExchangeView {
            phase: self.phase,
            key: self.key@,
            ticket: self.ticket,
            target: self.target@,
            target_ok: self.target_ok,
            patience: self.patience,
            tee: self.tee@,
        }
    }

    /// Opens an exchange for a request with the given key. `ticket` names
    /// the pending artifact that the exchange may write, `target` is what it
    /// asks of upstream, `target_ok` says whether that target is a URI, and
    /// `patience` is the time in seconds that upstream is given.
    pub fn open(
        key: CacheKey,
        ticket: Option<u64>,
        target: Vec<u8>,
        target_ok: bool,
        patience: u64,
    ) -> (exchange: Exchange)
        ensures
            exchange@ == initial(key@, ticket, target@, target_ok, patience),
    {
        let tee = Tee::new(ticket.is_some());
        Exchange { phase: Phase::Start, key, ticket, target, target_ok, patience, tee }
    }

    /// The phase of the exchange.
    pub fn phase(&self) -> (phase: Phase)
        ensures
            phase == self@.phase,
    {
        self.phase
    }

    /// Whether the exchange has reached its outcome.
    pub fn is_over(&self) -> (over: bool)
        ensures
            over == is_final(self@.phase),
    {
        match self.phase {
            Phase::RedirectHit
            | Phase::BodyHit
            | Phase::RedirectStore
            | Phase::Committed
            | Phase::Abandoned
            | Phase::UpstreamError => true,
            _ => false,
        }
    }

    fn pending(&self) -> (name: Option<Vec<u8>>)
        ensures
            option_view(name) == pending_of(self@),
    {
        match self.ticket {
            Some(ticket) => Some(self.key.pending_name(ticket)),
            None => None,
        }
    }

    fn on_redirect_read(&mut self, outcome: Lookup<Vec<u8>>) -> (action: Action<Vec<u8>>)
        ensures
            (final(self)@, action@) == after_redirect_read(old(self)@, outcome@),
    {
        match reconstruct(outcome) {
            Some(location) => {
                self.phase = Phase::RedirectHit;
                Action::ServeRedirect { status: STATUS_FOUND, location }
            },
            None => {
                self.phase = Phase::BodyLookup;
                Action::OpenBody { name: self.key.body_name() }
            },
        }
    }

    fn on_body_opened(&mut self, outcome: Probe) -> (action: Action<Vec<u8>>)
        ensures
            (final(self)@, action@) == after_body_opened(old(self)@, outcome),
    {
        match outcome {
            Probe::Found => {
                self.phase = Phase::BodyHit;
                Action::ServeBody { status: STATUS_OK, name: self.key.body_name() }
            },
            _ => {
                if self.target_ok {
                    self.phase = Phase::Forwarding;
                    Action::Forward {
                        target: copy_of(self.target.as_slice()),
                        within: self.patience,
                    }
                } else {
                    self.phase = Phase::UpstreamError;
                    let note = invalid_target_description();
                    Action::ServeError {
                        status: STATUS_BAD_GATEWAY,
                        body: error_body(note.as_slice()),
                    }
                }
            },
        }
    }

    fn begin_stream(&mut self) -> (action: Action<Vec<u8>>)
        ensures
            final(self)@ == (ExchangeView {
                phase: Phase::Streaming,
                tee: fresh_tee(old(self)@.ticket is Some),
                ..old(self)@
            }),
            action@ == (Action::BeginStream { status: STATUS_OK, pending: pending_of(old(self)@) }),
    {
        let pending = self.pending();
        self.tee = Tee::new(self.ticket.is_some());
        self.phase = Phase::Streaming;
        Action::BeginStream { status: STATUS_OK, pending }
    }

    fn on_upstream_replied(&mut self, status: u16, location: Option<Vec<u8>>) -> (action: Action<
        Vec<u8>,
    >)
        ensures
            (final(self)@, action@) == after_upstream_replied(
                old(self)@,
                status,
                option_view(location),
            ),
    {
        match location {
            Some(value) => {
                if status_is_redirection(status) {
                    self.phase = Phase::RedirectStore;
                    Action::RelayRedirect { record: record(&self.key, value) }
                } else {
                    self.begin_stream()
                }
            },
            None => self.begin_stream(),
        }
    }

    fn carry_out(&mut self, routing: Routing) -> (action: Action<Vec<u8>>)
        ensures
            final(self)@ == (ExchangeView {
                phase: carry_out(old(self)@, routing).0,
                ..old(self)@
            }),
            action@ == carry_out(old(self)@, routing).1,
    {
        match routing {
            Routing::Route { to_sink, to_client } => {
                self.phase = Phase::Streaming;
                Action::Route { to_sink, to_client }
            },
            Routing::DropSink => {
                self.phase = Phase::Streaming;
                match self.pending() {
                    Some(name) => Action::Discard { name },
                    None => Action::Idle,
                }
            },
            Routing::Idle => {
                self.phase = Phase::Streaming;
                Action::Idle
            },
            Routing::Complete { commit } => {
                match self.pending() {
                    Some(from) => {
                        if commit {
                            self.phase = Phase::Committed;
                            Action::Commit { from, to: self.key.body_name() }
                        } else {
                            self.phase = Phase::Abandoned;
                            Action::Finish
                        }
                    },
                    None => {
                        self.phase = Phase::Abandoned;
                        Action::Finish
                    },
                }
            },
            Routing::Abort { abandon_sink } => {
                self.phase = Phase::Abandoned;
                if abandon_sink {
                    Action::Abort { discard: self.pending() }
                } else {
                    Action::Abort { discard: None }
                }
            },
        }
    }

    fn on_stream_event(&mut self, event: Event<Vec<u8>>) -> (action: Action<Vec<u8>>)
        ensures
            (final(self)@, action@) == while_streaming(old(self)@, event@),
    {
        let flow = match event {
            Event::Chunk => Some(Flow::Chunk),
            Event::SinkFailed => Some(Flow::SinkFailed),
            Event::ClientGone => Some(Flow::ClientGone),
            Event::SourceEnded => Some(Flow::SourceEnded),
            Event::SourceFailed => Some(Flow::SourceFailed),
            _ => None,
        };
        match flow {
            Some(flow) => {
                let routing = self.tee.feed(flow);
                self.carry_out(routing)
            },
            None => Action::Idle,
        }
    }

    /// Takes the exchange one step on: `event` is what happened, the result
    /// is what to do next.
    pub fn step(&mut self, event: Event<Vec<u8>>) -> (action: Action<Vec<u8>>)
        ensures
            (final(self)@, action@) == next(old(self)@, event@),
    {
        match self.phase {
            Phase::Start => match event {
                Event::Arrived => {
                    self.phase = Phase::RedirectLookup;
                    Action::ReadRedirect { name: self.key.redirect_name() }
                },
                _ => Action::Idle,
            },
            Phase::RedirectLookup => match event {
                Event::RedirectRead(outcome) => self.on_redirect_read(outcome),
                _ => Action::Idle,
            },
            Phase::BodyLookup => match event {
                Event::BodyOpened(outcome) => self.on_body_opened(outcome),
                _ => Action::Idle,
            },
            Phase::Forwarding => match event {
                Event::UpstreamFailed { kind, description } => {
                    self.phase = Phase::UpstreamError;
                    Action::ServeError {
                        status: STATUS_BAD_GATEWAY,
                        body: error_body(description.as_slice()),
                    }
                },
                Event::UpstreamReplied { status, location } => self.on_upstream_replied(
                    status,
                    location,
                ),
                _ => Action::Idle,
            },
            Phase::Streaming => self.on_stream_event(event),
            _ => Action::Idle,
        }
    }
}

} // verus!
