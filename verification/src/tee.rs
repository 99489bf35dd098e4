//! The streaming tee.
//!
//! A tee stands between one source of chunks and two takers: a sink that
//! keeps the chunks, and a client that they are sent on to. It holds no
//! chunk itself. For every chunk it says where the chunk goes, and it says
//! how the stream ends. The two takers are independent: a sink that fails is
//! dropped and the client still gets every chunk; a client that goes away
//! is left and the sink still gets every chunk. Only a source that breaks
//! off, or the loss of both takers, stops the stream, and then the sink is
//! abandoned and the client is not led to take what it got for the whole.

use vstd::prelude::*;

verus! {

/// What can happen to a stream.
#[derive(Debug, Clone, Copy, PartialEq, Eq)]
pub enum Flow {
    /// A chunk has arrived from the source.
    Chunk,
    /// Writing to the sink failed.
    SinkFailed,
    /// The client went away.
    ClientGone,
    /// The source ended.
    SourceEnded,
    /// The source broke off.
    SourceFailed,
}

/// What the tee asks for.
#[derive(Debug, Clone, Copy, PartialEq, Eq)]
pub enum Routing {
    /// Write the chunk to the sink if `to_sink`; send it to the client if
    /// `to_client`.
    Route { to_sink: bool, to_client: bool },
    /// Abandon the sink and go on.
    DropSink,
    /// Go on; there is nothing to do.
    Idle,
    /// The stream is complete: end the client's stream, and commit the sink
    /// if `commit`.
    Complete { commit: bool },
    /// Stop reading the source and break the client's stream off; abandon
    /// the sink if `abandon_sink`.
    Abort { abandon_sink: bool },
}

/// The state of a tee.
pub struct TeeView {
    /// Whether the stream is still going.
    pub running: bool,
    /// Whether the sink still takes chunks.
    pub sink_open: bool,
    /// Whether the client still takes chunks.
    pub client_open: bool,
}

/// A tee before its first chunk.
pub open spec fn fresh_tee(sink_open: bool) -> TeeView {
    TeeView { running: true, sink_open, client_open: true }
}

/// The transition function of the tee.
pub open spec fn tee_next(t: TeeView, flow: Flow) -> (TeeView, Routing) {
    if !t.running {
        (t, Routing::Idle)
    } else {
        match flow {
            Flow::Chunk => (t, Routing::Route { to_sink: t.sink_open, to_client: t.client_open }),
            Flow::SinkFailed => if !t.sink_open {
                (t, Routing::Idle)
            } else if t.client_open {
                (TeeView { sink_open: false, ..t }, Routing::DropSink)
            } else {
                (
                    TeeView { running: false, sink_open: false, ..t },
                    Routing::Abort { abandon_sink: true },
                )
            },
            Flow::ClientGone => if !t.client_open {
                (t, Routing::Idle)
            } else if t.sink_open {
                (TeeView { client_open: false, ..t }, Routing::Idle)
            } else {
                (
                    TeeView { running: false, client_open: false, ..t },
                    Routing::Abort { abandon_sink: false },
                )
            },
            Flow::SourceEnded => (
                TeeView { running: false, ..t },
                Routing::Complete { commit: t.sink_open },
            ),
            Flow::SourceFailed => (
                TeeView { running: false, sink_open: false, ..t },
                Routing::Abort { abandon_sink: t.sink_open },
            ),
        }
    }
}

/// A tee.
#[derive(Debug)]
pub struct Tee {
    running: bool,
    sink_open: bool,
    client_open: bool,
}

impl Tee {
    /// The state of the tee.
    pub closed spec fn view(&self) -> TeeView {
        TeeView {
            running: self.running,
            sink_open: self.sink_open,
            client_open: self.client_open,
        }
    }

    /// A tee before its first chunk, with or without a sink.
    pub fn new(sink_open: bool) -> (tee: Tee)
        ensures
            tee@ == fresh_tee(sink_open),
    {
        Tee { running: true, sink_open, client_open: true }
    }

    /// Whether the stream is still going.
    pub fn is_running(&self) -> (running: bool)
        ensures
            running == self@.running,
    {
        self.running
    }

    /// Tells the tee what happened; the result is what to do.
    pub fn feed(&mut self, flow: Flow) -> (routing: Routing)
        ensures
            (final(self)@, routing) == tee_next(old(self)@, flow),
    {
        if !self.running {
            return Routing::Idle;
        }
        match flow {
            Flow::Chunk => Routing::Route { to_sink: self.sink_open, to_client: self.client_open },
            Flow::SinkFailed => {
                if !self.sink_open {
                    Routing::Idle
                } else if self.client_open {
                    self.sink_open = false;
                    Routing::DropSink
                } else {
                    self.sink_open = false;
                    self.running = false;
                    Routing::Abort { abandon_sink: true }
                }
            },
            Flow::ClientGone => {
                if !self.client_open {
                    Routing::Idle
                } else if self.sink_open {
                    self.client_open = false;
                    Routing::Idle
                } else {
                    self.client_open = false;
                    self.running = false;
                    Routing::Abort { abandon_sink: false }
                }
            },
            Flow::SourceEnded => {
                self.running = false;
                Routing::Complete { commit: self.sink_open }
            },
            Flow::SourceFailed => {
                let abandon_sink = self.sink_open;
                self.sink_open = false;
                self.running = false;
                Routing::Abort { abandon_sink }
            },
        }
    }
}

/// What reaches a tee, with the bytes of each chunk.
pub enum Signal {
    Chunk(Seq<u8>),
    SinkFailed,
    ClientGone,
    SourceEnded,
    SourceFailed,
}

/// What the tee is told of a signal.
pub open spec fn flow_of(signal: Signal) -> Flow {
    match signal {
        Signal::Chunk(_) => Flow::Chunk,
        Signal::SinkFailed => Flow::SinkFailed,
        Signal::ClientGone => Flow::ClientGone,
        Signal::SourceEnded => Flow::SourceEnded,
        Signal::SourceFailed => Flow::SourceFailed,
    }
}

/// The bytes that a signal brings.
pub open spec fn bytes_of(signal: Signal) -> Seq<u8> {
    match signal {
        Signal::Chunk(bytes) => bytes,
        _ => Seq::empty(),
    }
}

/// The chunks that a run of signals brings, in order.
pub open spec fn chunks_of(signals: Seq<Signal>) -> Seq<Seq<u8>>
    decreases signals.len(),
{
    if signals.len() == 0 {
        Seq::empty()
    } else {
        match signals.last() {
            Signal::Chunk(bytes) => chunks_of(signals.drop_last()).push(bytes),
            _ => chunks_of(signals.drop_last()),
        }
    }
}

/// The signals of these chunks and nothing else.
pub open spec fn chunk_signals(chunks: Seq<Seq<u8>>) -> Seq<Signal> {
    Seq::new(chunks.len(), |i: int| Signal::Chunk(chunks[i]))
}

/// What a tee has let through so far.
pub struct Passage {
    pub tee: TeeView,
    /// The chunks written to the sink, in order.
    pub written: Seq<Seq<u8>>,
    /// The chunks sent to the client, in order.
    pub sent: Seq<Seq<u8>>,
    /// What the tee asked for last.
    pub last: Routing,
}

/// A tee that has let nothing through yet.
pub open spec fn begin_passage(sink_open: bool) -> Passage {
    Passage {
        tee: fresh_tee(sink_open),
        written: Seq::empty(),
        sent: Seq::empty(),
        last: Routing::Idle,
    }
}

/// The passage after one more signal, the routing of the tee obeyed.
pub open spec fn pass(p: Passage, signal: Signal) -> Passage {
    let (tee, routing) = tee_next(p.tee, flow_of(signal));
    Passage {
        tee,
        written: match routing {
            Routing::Route { to_sink: true, .. } => p.written.push(bytes_of(signal)),
            _ => p.written,
        },
        sent: match routing {
            Routing::Route { to_client: true, .. } => p.sent.push(bytes_of(signal)),
            _ => p.sent,
        },
        last: routing,
    }
}

/// The passage after a run of signals.
pub open spec fn pass_all(p: Passage, signals: Seq<Signal>) -> Passage
    decreases signals.len(),
{
    if signals.len() == 0 {
        p
    } else {
        pass(pass_all(p, signals.drop_last()), signals.last())
    }
}

/// The chunks of the signals of chunks.
pub proof fn lemma_chunks_of_chunk_signals(chunks: Seq<Seq<u8>>)
    ensures
        chunks_of(chunk_signals(chunks)) == chunks,
    decreases chunks.len(),
{
    if chunks.len() == 0 {
        assert(chunks_of(chunk_signals(chunks)) =~= chunks);
    } else {
        lemma_chunks_of_chunk_signals(chunks.drop_last());
        assert(chunk_signals(chunks).drop_last() =~= chunk_signals(chunks.drop_last()));
        assert(chunk_signals(chunks).last() == Signal::Chunk(chunks.last()));
        assert(chunks.drop_last().push(chunks.last()) =~= chunks);
    }
}

/// The client gets everything. As long as the client is there and the
/// source neither ended nor broke off, the chunks sent to the client are
/// the chunks that arrived, in order and unchanged, whether the sink failed
/// in between or not.
pub proof fn lemma_client_gets_all(p: Passage, signals: Seq<Signal>)
    requires
        p.tee.running,
        p.tee.client_open,
        forall|i: int|
            0 <= i < signals.len() ==> (#[trigger] signals[i]) is Chunk || signals[i]
                is SinkFailed,
    ensures
        pass_all(p, signals).sent == p.sent + chunks_of(signals),
        pass_all(p, signals).tee.running,
        pass_all(p, signals).tee.client_open,
    decreases signals.len(),
{
    if signals.len() == 0 {
        assert(p.sent + chunks_of(signals) =~= p.sent);
    } else {
        let rest = signals.drop_last();
        assert forall|i: int| 0 <= i < rest.len() implies (#[trigger] rest[i]) is Chunk
            || rest[i] is SinkFailed by {
            assert(rest[i] == signals[i]);
        }
        lemma_client_gets_all(p, rest);
        assert(signals.last() == signals[signals.len() - 1]);
        assert(pass_all(p, signals).sent =~= p.sent + chunks_of(signals));
    }
}

/// The sink gets everything. As long as the sink takes chunks and the
/// source neither ended nor broke off, the chunks written to the sink are
/// the chunks that arrived, in order and unchanged, whether the client went
/// away in between or not.
pub proof fn lemma_sink_gets_all(p: Passage, signals: Seq<Signal>)
    requires
        p.tee.running,
        p.tee.sink_open,
        forall|i: int|
            0 <= i < signals.len() ==> (#[trigger] signals[i]) is Chunk || signals[i]
                is ClientGone,
    ensures
        pass_all(p, signals).written == p.written + chunks_of(signals),
        pass_all(p, signals).tee.running,
        pass_all(p, signals).tee.sink_open,
    decreases signals.len(),
{
    if signals.len() == 0 {
        assert(p.written + chunks_of(signals) =~= p.written);
    } else {
        let rest = signals.drop_last();
        assert forall|i: int| 0 <= i < rest.len() implies (#[trigger] rest[i]) is Chunk
            || rest[i] is ClientGone by {
            assert(rest[i] == signals[i]);
        }
        lemma_sink_gets_all(p, rest);
        assert(signals.last() == signals[signals.len() - 1]);
        assert(pass_all(p, signals).written =~= p.written + chunks_of(signals));
    }
}

/// A sink is committed only whole. Whatever reaches a tee, if it asks to
/// commit the sink, then the source has ended, the sink never failed, and
/// the sink holds every chunk that arrived, in order and unchanged.
pub proof fn lemma_commit_means_whole(sink_open: bool, signals: Seq<Signal>)
    requires
        pass_all(begin_passage(sink_open), signals).last == (Routing::Complete { commit: true }),
    ensures
        signals.len() > 0,
        signals.last() is SourceEnded,
        pass_all(begin_passage(sink_open), signals).written == chunks_of(signals),
{
    let start = begin_passage(sink_open);
    if signals.len() == 0 {
    } else {
        let rest = signals.drop_last();
        lemma_running_sink_is_whole(sink_open, rest);
        assert(start.written + chunks_of(rest) =~= chunks_of(rest));
    }
}

/// While a tee runs with its sink open, the sink holds every chunk that
/// arrived.
proof fn lemma_running_sink_is_whole(sink_open: bool, signals: Seq<Signal>)
    ensures
        ({
            let p = pass_all(begin_passage(sink_open), signals);
            p.tee.running && p.tee.sink_open ==> p.written == chunks_of(signals)
        }),
    decreases signals.len(),
{
    let start = begin_passage(sink_open);
    if signals.len() == 0 {
        assert(start.written =~= chunks_of(signals));
    } else {
        lemma_running_sink_is_whole(sink_open, signals.drop_last());
    }
}

/// A tee stops once. After the stream has ended or was stopped, the tee
/// asks for nothing more, whatever it is told.
pub proof fn lemma_stopped_tee_is_idle(t: TeeView, flow: Flow)
    requires
        !t.running,
    ensures
        tee_next(t, flow) == (t, Routing::Idle),
{
}

} // verus!
