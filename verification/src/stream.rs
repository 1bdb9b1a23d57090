//! The streaming orchestrator: binds a stream reassembler, a provider
//! adapter and a handler sink, and drives one request's chunk sequence
//! through the state machine `Open -> Receiving -> {Terminating | Closed |
//! Failed}`.

use vstd::prelude::*;

use crate::{AIError, MutHandler};
use crate::clients::claude::{claude_decode, claude_signal};
use crate::clients::gai::AdapterKind;
use crate::clients::gemini::{gemini_decode, gemini_signal};
use crate::clients::openai::{openai_decode, openai_signal};
use crate::sse::{
    chunk_outcome, FrameView, ParseOutcome, ReaderView, SseResponse, SseStreamError,
    SseStreamReader, views_of, REASSEMBLY_LIMIT,
};

verus! {

/// What a provider adapter makes of one frame: a normalized text fragment,
/// an explicit end-of-stream signal, or nothing of interest.
#[derive(Debug, Clone, PartialEq)]
pub enum AdapterSignal {
    Delta(String),
    Done,
    Skip,
}

/// The mathematical model of an adapter signal.
pub enum SignalView {
    Delta(Seq<char>),
    Done,
    Skip,
}

impl View for AdapterSignal {
    type V = SignalView;

    open spec fn view(&self) -> SignalView {
        match self {
            AdapterSignal::Delta(s) => SignalView::Delta(s@),
            AdapterSignal::Done => SignalView::Done,
            AdapterSignal::Skip => SignalView::Skip,
        }
    }
}

/// What the adapter of each provider makes of a frame.
pub open spec fn decode_spec(kind: AdapterKind, f: FrameView) -> SignalView {
    match kind {
        AdapterKind::Claude => claude_signal(f),
        AdapterKind::OpenAi => openai_signal(f),
        AdapterKind::Gemini => gemini_signal(f),
    }
}

/// Decode one frame through the adapter of the given provider.
pub fn decode(kind: AdapterKind, frame: SseResponse) -> (r: AdapterSignal)
    ensures
        r@ == decode_spec(kind, frame@),
{
    match kind {
        AdapterKind::Claude => claude_decode(frame),
        AdapterKind::OpenAi => openai_decode(frame),
        AdapterKind::Gemini => gemini_decode(frame),
    }
}

/// Every adapter ignores frames that carry no payload: for a frame other
/// than `Data`, each of the three providers' adapters signals a skip.
pub proof fn lemma_adapters_skip_non_data(kind: AdapterKind, f: FrameView)
    ensures
        !(f is Data) ==> decode_spec(kind, f) is Skip,
{
}

/// The deltas an adapter yields for a frame batch, in order, up to but not
/// including an explicit termination signal.
pub open spec fn deltas_of(fs: Seq<FrameView>, kind: AdapterKind) -> Seq<Seq<char>>
    decreases fs.len(),
{
    if fs.len() == 0 {
        Seq::empty()
    } else {
        match decode_spec(kind, fs[0]) {
            SignalView::Skip => deltas_of(fs.skip(1), kind),
            SignalView::Done => Seq::empty(),
            SignalView::Delta(s) => seq![s] + deltas_of(fs.skip(1), kind),
        }
    }
}

/// Whether a frame batch carries an explicit termination signal.
pub open spec fn terminated(fs: Seq<FrameView>, kind: AdapterKind) -> bool
    decreases fs.len(),
{
    if fs.len() == 0 {
        false
    } else {
        match decode_spec(kind, fs[0]) {
            SignalView::Done => true,
            _ => terminated(fs.skip(1), kind),
        }
    }
}

/// The deltas of a batch, concatenated in delivery order.
pub open spec fn concat_all(ds: Seq<Seq<char>>) -> Seq<char>
    decreases ds.len(),
{
    if ds.len() == 0 {
        Seq::empty()
    } else {
        ds[0] + concat_all(ds.skip(1))
    }
}

proof fn lemma_concat_all_snoc(ds: Seq<Seq<char>>, s: Seq<char>)
    ensures
        concat_all(ds.push(s)) == concat_all(ds) + s,
    decreases ds.len(),
{
    if ds.len() == 0 {
        assert(ds.push(s)[0] == s);
        assert(ds.push(s).skip(1) =~= Seq::<Seq<char>>::empty());
        assert(concat_all(Seq::<Seq<char>>::empty()) =~= Seq::<char>::empty());
        assert(concat_all(ds.push(s)) =~= s);
        assert(concat_all(ds) + s =~= s);
    } else {
        assert(ds.push(s)[0] == ds[0]);
        assert(ds.push(s).skip(1) =~= ds.skip(1).push(s));
        lemma_concat_all_snoc(ds.skip(1), s);
        assert(ds[0] + (concat_all(ds.skip(1)) + s) =~= (ds[0] + concat_all(ds.skip(1))) + s);
    }
}

/// The state machine of one streaming request.
#[derive(Debug, Clone, Copy, PartialEq, Eq, Structural)]
pub enum StreamPhase {
    /// Created, no chunk seen yet.
    Open,
    /// Consuming chunks; self-loops on each chunk.
    Receiving,
    /// An adapter termination signal arrived; nothing more is delivered.
    Terminating,
    /// The request finished: transport end or after termination.
    Closed,
    /// A hard parse failure, the reassembly limit, or a sink failure ended
    /// the request; terminal.
    Failed,
}

/// The sink accepted exactly the first `k` deltas of the batch and then
/// rejected the `k`-th: its content grew by that prefix alone, and the
/// sink state holding that prefix is one that may reject the next delta.
/// A sink that rejects nothing therefore admits no such `k`.
pub open spec fn delivery_rejected_at<M: MutHandler>(
    pre_sink: M,
    post_sink: M,
    ds: Seq<Seq<char>>,
    k: int,
) -> bool {
    0 <= k < ds.len() && post_sink.content() == pre_sink.content() + concat_all(ds.take(k))
        && (exists|mid: M|
        mid.content() == pre_sink.content() + concat_all(ds.take(k)) && #[trigger] mid.may_reject(
            ds[k],
        ))
}

/// How one complete processing step relates the parsed text to the result,
/// the sink, and the session state after the call.
pub open spec fn session_step<M: MutHandler>(
    text: Seq<char>,
    merges: int,
    kind: AdapterKind,
    r: Result<(), AIError>,
    pre_sink: M,
    post_sink: M,
    post_reader: ReaderView,
    post_phase: StreamPhase,
) -> bool {
    match chunk_outcome(text) {
        ParseOutcome::Malformed(_) => r is Err && post_phase is Failed && post_reader.tail is None
            && post_sink.content() == pre_sink.content(),
        ParseOutcome::Incomplete => r is Ok && post_phase is Receiving && post_reader.tail == Some(
            text,
        ) && post_reader.attempts == merges && post_sink.content() == pre_sink.content(),
        ParseOutcome::Frames(fs) => (r is Ok ==> post_sink.content() == pre_sink.content()
            + concat_all(deltas_of(fs, kind)) && post_phase == (if terminated(fs, kind) {
            StreamPhase::Terminating
        } else {
            StreamPhase::Receiving
        }) && post_reader.tail is None) && (r is Err ==> post_phase is Failed && post_reader.tail
            is None && exists|k: int|
            delivery_rejected_at(pre_sink, post_sink, deltas_of(fs, kind), k)) && (deltas_of(
            fs,
            kind,
        ).len() == 0 ==> r is Ok),
    }
}

/// One streaming request: a reassembler, the bound provider adapter, and
/// the request's phase.  The handler sink is passed to each step.
pub struct StreamSession {
    reader: SseStreamReader,
    adapter: AdapterKind,
    phase: StreamPhase,
}

impl StreamSession {
    pub closed spec fn reader_view(&self) -> ReaderView {
        self.reader@
    }

    pub closed spec fn adapter(&self) -> AdapterKind {
        self.adapter
    }

    pub closed spec fn phase(&self) -> StreamPhase {
        self.phase
    }

    /// Open a session speaking through the given provider's adapter.
    pub fn new(adapter: AdapterKind) -> (r: StreamSession)
        ensures
            r.phase() is Open,
            r.adapter() == adapter,
            r.reader_view().tail is None,
            r.reader_view().attempts == 0,
    {
        StreamSession { reader: SseStreamReader::new(), adapter, phase: StreamPhase::Open }
    }

    pub fn current_phase(&self) -> (r: StreamPhase)
        ensures
            r == self.phase(),
    {
        self.phase
    }

    /// End the request normally: the transport closed, or an adapter
    /// termination signal was seen.  Anything still buffered is discarded;
    /// no partial frame is ever delivered.
    pub fn close(&mut self)
        requires
            !(old(self).phase() is Failed),
            !(old(self).phase() is Closed),
        ensures
            final(self).phase() is Closed,
            final(self).adapter() == old(self).adapter(),
            final(self).reader_view().tail is None,
            final(self).reader_view().attempts == 0,
    {
        self.reader = SseStreamReader::new();
        self.phase = StreamPhase::Closed;
    }

    /// Feed one transport chunk and deliver the resulting deltas to the
    /// sink.  Frames are processed in order; an adapter termination signal
    /// ends the request without delivering that frame; a hard parse
    /// failure, the reassembly limit, or a sink failure is fatal.  When a
    /// delivery fails the pass stops at once: the sink holds exactly the
    /// batch's deltas before the rejected one, and nothing after the
    /// rejected delta is handed to it.
    #[verifier::loop_isolation(false)]
    pub fn on_chunk<M: MutHandler>(&mut self, chunk: &str, sink: &mut M) -> (r: Result<
        (),
        AIError,
    >)
        requires
            old(self).phase() is Open || old(self).phase() is Receiving,
        ensures
            final(self).adapter() == old(self).adapter(),
            match old(self).reader_view().tail {
                Some(t) => if old(self).reader_view().attempts >= REASSEMBLY_LIMIT as int {
                    r is Err && final(self).phase() is Failed && final(self).reader_view().tail
                        is None && final(sink).content() == old(sink).content()
                } else {
                    session_step(
                        t + chunk@,
                        old(self).reader_view().attempts + 1,
                        old(self).adapter(),
                        r,
                        *old(sink),
                        *final(sink),
                        final(self).reader_view(),
                        final(self).phase(),
                    )
                },
                None => session_step(
                    chunk@,
                    1,
                    old(self).adapter(),
                    r,
                    *old(sink),
                    *final(sink),
                    final(self).reader_view(),
                    final(self).phase(),
                ),
            },
    {
        let kind = self.adapter;
        match self.reader.maybe_parse(chunk) {
            Err(SseStreamError::Malformed(_)) => {
                self.phase = StreamPhase::Failed;
                Err(AIError::new("malformed stream record".to_owned()))
            },
            Err(SseStreamError::LimitExceeded) => {
                self.phase = StreamPhase::Failed;
                Err(AIError::new("reassembly limit exceeded".to_owned()))
            },
            Ok(None) => {
                self.phase = StreamPhase::Receiving;
                Ok(())
            },
            Ok(Some(frames)) => {
                let ghost fsv = views_of(frames@);
                let ghost pre_content = sink.content();
                let mut rest = frames;
                let ghost mut delivered: Seq<Seq<char>> = Seq::empty();
                proof {
                    assert(pre_content + concat_all(delivered) =~= pre_content);
                }
                while rest.len() > 0
                    invariant
                        kind == self.adapter,
                        self.phase == old(self).phase,
                        self.reader@.tail is None,
                        self.reader@.attempts == 0,
                        deltas_of(fsv, kind) == delivered + deltas_of(views_of(rest@), kind),
                        terminated(fsv, kind) == terminated(views_of(rest@), kind),
                        sink.content() == pre_content + concat_all(delivered),
                    decreases rest@.len(),
                {
                    let ghost prev = views_of(rest@);
                    let f = rest.remove(0);
                    proof {
                        assert(prev[0] == f@);
                        assert forall|t: int| 0 <= t < rest@.len() implies views_of(rest@)[t]
                            == prev.skip(1)[t] by {
                        }
                        assert(views_of(rest@) =~= prev.skip(1));
                    }
                    match decode(kind, f) {
                        AdapterSignal::Skip => {
                            proof {
                                assert(deltas_of(prev, kind) == deltas_of(prev.skip(1), kind));
                            }
                        },
                        AdapterSignal::Done => {
                            self.phase = StreamPhase::Terminating;
                            proof {
                                assert(deltas_of(prev, kind) =~= Seq::<Seq<char>>::empty());
                                assert(delivered + Seq::<Seq<char>>::empty() =~= delivered);
                                assert(deltas_of(fsv, kind) == delivered);
                                assert(terminated(fsv, kind));
                            }
                            return Ok(());
                        },
                        AdapterSignal::Delta(s) => {
                            let ghost mid = *sink;
                            match sink.handle_mut(s.as_str()) {
                                Ok(_) => {
                                    proof {
                                        assert(deltas_of(prev, kind) == seq![s@] + deltas_of(
                                            prev.skip(1),
                                            kind,
                                        ));
                                        lemma_concat_all_snoc(delivered, s@);
                                        assert(delivered + (seq![s@] + deltas_of(
                                            prev.skip(1),
                                            kind,
                                        )) =~= delivered.push(s@) + deltas_of(prev.skip(1), kind));
                                        delivered = delivered.push(s@);
                                    }
                                },
                                Err(_) => {
                                    self.phase = StreamPhase::Failed;
                                    proof {
                                        assert(deltas_of(prev, kind) == seq![s@] + deltas_of(
                                            prev.skip(1),
                                            kind,
                                        ));
                                        assert(deltas_of(fsv, kind).len() >= delivered.len() + 1);
                                        assert(deltas_of(fsv, kind).take(delivered.len() as int)
                                            =~= delivered);
                                        assert(deltas_of(fsv, kind)[delivered.len() as int]
                                            == s@);
                                        assert(mid.may_reject(s@));
                                        assert(delivery_rejected_at(
                                            *old(sink),
                                            *sink,
                                            deltas_of(fsv, kind),
                                            delivered.len() as int,
                                        ));
                                    }
                                    return Err(AIError::new("handler failed".to_owned()));
                                },
                            }
                        },
                    }
                }
                proof {
                    assert(views_of(rest@) =~= Seq::<FrameView>::empty());
                    assert(deltas_of(fsv, kind) == delivered);
                    assert(!terminated(fsv, kind));
                }
                self.phase = StreamPhase::Receiving;
                Ok(())
            },
        }
    }
}

} // verus!
