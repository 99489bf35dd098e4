//! The vocabulary between the decision core and the program around it:
//! the events that the program reports, the actions that it is told to
//! perform, and the faults that an event can reveal.
//!
//! Events and actions carry byte strings. They are generic in the type of
//! those strings, so that the same definitions serve the running program
//! (`Vec<u8>`) and the contracts (`Seq<u8>`).

use crate::octets::option_view;
use crate::wire::{header_value_is_text, is_header_text};
use vstd::prelude::*;

verus! {

/// What reading an artifact gave.
#[derive(Debug, PartialEq, Eq)]
pub enum Lookup<B> {
    /// The artifact exists; these are its contents.
    Found(B),
    /// There is no such artifact.
    Absent,
    /// The medium failed in another way than by having no such artifact.
    Failed,
}

/// What opening an artifact for reading gave.
#[derive(Debug, Clone, Copy, PartialEq, Eq)]
pub enum Probe {
    /// The artifact exists and is open.
    Found,
    /// There is no such artifact.
    Absent,
    /// The medium failed in another way than by having no such artifact.
    Failed,
}

/// How asking upstream failed before any answer came.
#[derive(Debug, Clone, Copy, PartialEq, Eq)]
pub enum UpstreamFailure {
    /// No connection: refused, unreachable, handshake failed, timed out.
    Connect,
    /// A connection, but no well-formed answer.
    Protocol,
}

/// The kinds of fault that an event can reveal.
#[derive(Debug, Clone, Copy, PartialEq, Eq)]
pub enum Fault {
    /// Upstream could not be reached.
    UpstreamConnect,
    /// Upstream answered badly or broke off.
    UpstreamProtocol,
    /// The cache holds no such entry: a miss, and no error.
    CacheEntryAbsent,
    /// The cache could not be read, or what it held was unusable.
    CacheRead,
    /// The cache could not be written.
    CacheWrite,
    /// The client went away while its answer was streaming.
    ClientStreamTerminated,
}

/// What the program around the core reports.
#[derive(Debug, PartialEq, Eq)]
pub enum Event<B> {
    /// A request has arrived.
    Arrived,
    /// The redirect artifact was read.
    RedirectRead(Lookup<B>),
    /// The body artifact was opened.
    BodyOpened(Probe),
    /// Upstream gave no answer.
    UpstreamFailed { kind: UpstreamFailure, description: B },
    /// Upstream answered with this status and this `Location` value, if any.
    UpstreamReplied { status: u16, location: Option<B> },
    /// A chunk of the upstream body has arrived.
    Chunk,
    /// Creating the pending artifact, writing to it, or flushing it when
    /// the upstream body had ended, failed.
    SinkFailed,
    /// The client went away.
    ClientGone,
    /// The upstream body ended, and what was written to the pending
    /// artifact has reached the medium.
    SourceEnded,
    /// The upstream body broke off.
    SourceFailed,
}

/// An artifact to be written in one piece.
#[derive(Debug, PartialEq, Eq)]
pub struct Entry<B> {
    pub name: B,
    pub content: B,
}

/// What the program around the core is told to do.
#[derive(Debug, PartialEq, Eq)]
pub enum Action<B> {
    /// Read the redirect artifact `name` and report `RedirectRead`.
    ReadRedirect { name: B },
    /// Open the body artifact `name` and report `BodyOpened`.
    OpenBody { name: B },
    /// Answer with `status`, a `Location` header of `location` and no body.
    ServeRedirect { status: u16, location: B },
    /// Answer with `status` and the contents of the body artifact `name`.
    ServeBody { status: u16, name: B },
    /// Ask upstream for `target`, with the method, headers and body of the
    /// request, and report `UpstreamReplied`, or `UpstreamFailed` if no
    /// answer has begun after `within` seconds.
    Forward { target: B, within: u64 },
    /// Answer with `status` and `body`.
    ServeError { status: u16, body: B },
    /// Hand upstream's answer to the client as it is; write `record`, if
    /// any, in one piece.
    RelayRedirect { record: Option<Entry<B>> },
    /// Create the pending artifact, if any, empty, start an answer with
    /// `status`, and report the chunks of the upstream body as they come.
    BeginStream { status: u16, pending: Option<B> },
    /// Append the chunk to the pending artifact if `to_sink`, and send it to
    /// the client if `to_client`.
    Route { to_sink: bool, to_client: bool },
    /// Remove the pending artifact `name`; go on streaming to the client.
    Discard { name: B },
    /// End the answer; make the pending artifact `from` visible as `to`,
    /// unless `to` exists already, and remove `from`.
    Commit { from: B, to: B },
    /// End the answer; there is nothing to store.
    Finish,
    /// Stop reading upstream and break the answer off, so that the client
    /// cannot take it for complete; remove the pending artifact, if any.
    Abort { discard: Option<B> },
    /// Nothing to do.
    Idle,
}

impl View for Lookup<Vec<u8>> {
    type V = Lookup<Seq<u8>>;

    open spec fn view(&self) -> Lookup<Seq<u8>> {
        match *self {
            Lookup::Found(content) => Lookup::Found(content@),
            Lookup::Absent => Lookup::Absent,
            Lookup::Failed => Lookup::Failed,
        }
    }
}

impl View for Event<Vec<u8>> {
    type V = Event<Seq<u8>>;

    open spec fn view(&self) -> Event<Seq<u8>> {
        match *self {
            Event::Arrived => Event::Arrived,
            Event::RedirectRead(outcome) => Event::RedirectRead(outcome@),
            Event::BodyOpened(outcome) => Event::BodyOpened(outcome),
            Event::UpstreamFailed { kind, description } => Event::UpstreamFailed {
                kind,
                description: description@,
            },
            Event::UpstreamReplied { status, location } => Event::UpstreamReplied {
                status,
                location: option_view(location),
            },
            Event::Chunk => Event::Chunk,
            Event::SinkFailed => Event::SinkFailed,
            Event::ClientGone => Event::ClientGone,
            Event::SourceEnded => Event::SourceEnded,
            Event::SourceFailed => Event::SourceFailed,
        }
    }
}

impl View for Entry<Vec<u8>> {
    type V = Entry<Seq<u8>>;

    open spec fn view(&self) -> Entry<Seq<u8>> {
        Entry { name: self.name@, content: self.content@ }
    }
}

impl View for Action<Vec<u8>> {
    type V = Action<Seq<u8>>;

    open spec fn view(&self) -> Action<Seq<u8>> {
        match *self {
            Action::ReadRedirect { name } => Action::ReadRedirect { name: name@ },
            Action::OpenBody { name } => Action::OpenBody { name: name@ },
            Action::ServeRedirect { status, location } => Action::ServeRedirect {
                status,
                location: location@,
            },
            Action::ServeBody { status, name } => Action::ServeBody { status, name: name@ },
            Action::Forward { target, within } => Action::Forward { target: target@, within },
            Action::ServeError { status, body } => Action::ServeError { status, body: body@ },
            Action::RelayRedirect { record } => Action::RelayRedirect {
                record: match record {
                    None => None,
                    Some(entry) => Some(entry@),
                },
            },
            Action::BeginStream { status, pending } => Action::BeginStream {
                status,
                pending: option_view(pending),
            },
            Action::Route { to_sink, to_client } => Action::Route { to_sink, to_client },
            Action::Discard { name } => Action::Discard { name: name@ },
            Action::Commit { from, to } => Action::Commit { from: from@, to: to@ },
            Action::Finish => Action::Finish,
            Action::Abort { discard } => Action::Abort { discard: option_view(discard) },
            Action::Idle => Action::Idle,
        }
    }
}

/// The fault that an event reveals, whatever the state of the request.
/// A stored `Location` that cannot be read as text counts as unreadable.
pub open spec fn fault_of(event: Event<Seq<u8>>) -> Option<Fault> {
    match event {
        Event::RedirectRead(Lookup::Found(location)) => if is_header_text(location) {
            None
        } else {
            Some(Fault::CacheRead)
        },
        Event::RedirectRead(Lookup::Absent) => Some(Fault::CacheEntryAbsent),
        Event::RedirectRead(Lookup::Failed) => Some(Fault::CacheRead),
        Event::BodyOpened(Probe::Absent) => Some(Fault::CacheEntryAbsent),
        Event::BodyOpened(Probe::Failed) => Some(Fault::CacheRead),
        Event::UpstreamFailed { kind: UpstreamFailure::Connect, .. } => Some(
            Fault::UpstreamConnect,
        ),
        Event::UpstreamFailed { kind: UpstreamFailure::Protocol, .. } => Some(
            Fault::UpstreamProtocol,
        ),
        Event::SinkFailed => Some(Fault::CacheWrite),
        Event::ClientGone => Some(Fault::ClientStreamTerminated),
        Event::SourceFailed => Some(Fault::UpstreamProtocol),
        _ => None,
    }
}

/// Faults that are worth a line in the log: all but a plain miss.
pub open spec fn is_anomaly(fault: Fault) -> bool {
    fault != Fault::CacheEntryAbsent
}

/// Classifies what an event reveals.
pub fn classify(event: &Event<Vec<u8>>) -> (fault: Option<Fault>)
    ensures
        fault == fault_of(event@),
{
    match event {
        Event::RedirectRead(Lookup::Found(location)) => {
            if header_value_is_text(location.as_slice()) {
                None
            } else {
                Some(Fault::CacheRead)
            }
        },
        Event::RedirectRead(Lookup::Absent) => Some(Fault::CacheEntryAbsent),
        Event::RedirectRead(Lookup::Failed) => Some(Fault::CacheRead),
        Event::BodyOpened(Probe::Absent) => Some(Fault::CacheEntryAbsent),
        Event::BodyOpened(Probe::Failed) => Some(Fault::CacheRead),
        Event::UpstreamFailed { kind: UpstreamFailure::Connect, .. } => Some(
            Fault::UpstreamConnect,
        ),
        Event::UpstreamFailed { kind: UpstreamFailure::Protocol, .. } => Some(
            Fault::UpstreamProtocol,
        ),
        Event::SinkFailed => Some(Fault::CacheWrite),
        Event::ClientGone => Some(Fault::ClientStreamTerminated),
        Event::SourceFailed => Some(Fault::UpstreamProtocol),
        _ => None,
    }
}

/// Whether a fault is worth a line in the log.
pub fn worth_logging(fault: Fault) -> (r: bool)
    ensures
        r == is_anomaly(fault),
{
    match fault {
        Fault::CacheEntryAbsent => false,
        _ => true,
    }
}

} // verus!
