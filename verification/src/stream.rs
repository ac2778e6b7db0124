//! The streaming decode engine: network bytes in, ordered events out.
//!
//! The engine owns the frame splitter, the first-fragment bookkeeping and
//! the reconnect-delay hint.  Each feeding of newly arrived bytes drains
//! every complete frame, parses its field lines, decodes its data payload,
//! and yields the resulting events in order: one token event per text
//! fragment, carrying whether it is the stream's first, and one end event
//! per graceful end.  A malformed frame yields nothing and the stream goes
//! on; only the whole engine state says what the next frame means.

use vstd::prelude::*;

use crate::decode::{decode, spec_decode};
use crate::frame::{parse_frame, parse_frame_spec};
use crate::sse::{frames_of, rest_of, SSEIterator};

verus! {

/// One event handed toward the interface loop.
#[derive(Debug)]
pub enum StreamEvent {
    /// A text fragment of the assistant's reply, and whether it is the
    /// stream's first.
    Token {
        /// The fragment.
        text: String,
        /// Whether no fragment came before it.
        first: bool,
    },
    /// The stream ended gracefully.
    End,
}

/// The mathematical image of a [`StreamEvent`].
pub enum EventV {
    /// A text fragment, and whether it is the stream's first.
    Token(Seq<char>, bool),
    /// The stream ended gracefully.
    End,
}

impl View for StreamEvent {
    type V = EventV;

    open spec fn view(&self) -> EventV {
        match self {
            StreamEvent::Token { text, first } => EventV::Token(text@, *first),
            StreamEvent::End => EventV::End,
        }
    }
}

/// The image of a run of events.
pub open spec fn events_view(evs: Seq<StreamEvent>) -> Seq<EventV> {
    evs.map_values(|e: StreamEvent| e@)
}

/// The events one frame yields, given whether a fragment was already
/// emitted: nothing for a malformed payload; an end event for the sentinel
/// or an empty chunk; otherwise a token event for the fragment, if any, and
/// an end event after it when the chunk is terminal.  Also whether a
/// fragment has been emitted once the frame is handled.
pub open spec fn frame_events(started: bool, raw: Seq<u8>) -> (Seq<EventV>, bool) {
    match spec_decode(parse_frame_spec(raw).0.data) {
        Err(_) => (Seq::empty(), started),
        Ok(None) => (seq![EventV::End], started),
        Ok(Some(d)) => {
            let toks = match d.content {
                Some(t) => seq![EventV::Token(t, !started)],
                None => Seq::empty(),
            };
            let ns = started || d.content is Some;
            match d.finish_reason {
                Some(_) => (toks + seq![EventV::End], ns),
                None => (toks, ns),
            }
        },
    }
}

/// The reconnect-delay hint after one frame: the frame's own, or else the
/// standing one.
pub open spec fn frame_hint(retry: Option<u64>, raw: Seq<u8>) -> Option<u64> {
    match parse_frame_spec(raw).1 {
        Some(ms) => Some(ms),
        None => retry,
    }
}

/// The events of a run of frames, in order, with the bookkeeping threaded
/// through.
pub open spec fn fold_frames(started: bool, retry: Option<u64>, frames: Seq<Seq<u8>>) -> (
    Seq<EventV>,
    bool,
    Option<u64>,
)
    decreases frames.len(),
{
    if frames.len() == 0 {
        (Seq::empty(), started, retry)
    } else {
        let (evs, ns) = frame_events(started, frames[0]);
        let nr = frame_hint(retry, frames[0]);
        let (evs2, ns2, nr2) = fold_frames(ns, nr, frames.skip(1));
        (evs + evs2, ns2, nr2)
    }
}

/// Whether any event of the run is a token event.
pub open spec fn has_token(evs: Seq<EventV>) -> bool {
    exists|k: int| 0 <= k < evs.len() && evs[k] is Token
}

/// One frame yields at most one token event, always ahead of any end event;
/// its flag says the stream had not started, and afterwards it has.
proof fn lemma_frame_events_shape(started: bool, raw: Seq<u8>)
    ensures
        ({
            let (evs, ns) = frame_events(started, raw);
            &&& forall|k: int| 0 < k < evs.len() ==> !(evs[k] is Token)
            &&& has_token(evs) == (evs.len() > 0 && evs[0] is Token)
            &&& ns == (started || has_token(evs))
            &&& evs.len() > 0 && evs[0] is Token ==> evs[0]->Token_1 == !started
        }),
{
    let (evs, ns) = frame_events(started, raw);
    match spec_decode(parse_frame_spec(raw).0.data) {
        Err(_) => {
            assert(!has_token(evs));
        },
        Ok(None) => {
            assert(!(evs[0] is Token));
            assert(!has_token(evs));
        },
        Ok(Some(d)) => {
            if d.content is Some {
                assert(evs[0] is Token);
                assert(has_token(evs));
            } else {
                assert(forall|k: int| 0 <= k < evs.len() ==> !(evs[k] is Token));
                assert(!has_token(evs));
            }
        },
    }
}

/// The first/continuation flag is truthful: over any run of frames, a token
/// event is flagged as the stream's first exactly when the stream had not
/// started and no earlier event of the run is a token; and the stream
/// counts as started afterwards exactly when it was before or some token
/// was emitted.
pub proof fn lemma_token_flags(started: bool, retry: Option<u64>, frames: Seq<Seq<u8>>)
    ensures
        ({
            let (evs, ns, _) = fold_frames(started, retry, frames);
            &&& ns == (started || has_token(evs))
            &&& forall|k: int|
                0 <= k < evs.len() && evs[k] is Token ==> (evs[k]->Token_1 <==> (!started
                    && forall|j: int| 0 <= j < k ==> !(evs[j] is Token)))
        }),
    decreases frames.len(),
{
    if frames.len() == 0 {
        let (evs, ns, _) = fold_frames(started, retry, frames);
        assert(!has_token(evs));
    } else {
        let (evs, ns, _) = fold_frames(started, retry, frames);
        let (evs_f, ns_f) = frame_events(started, frames[0]);
        let nr = frame_hint(retry, frames[0]);
        let (evs_r, ns_r, _) = fold_frames(ns_f, nr, frames.skip(1));
        lemma_frame_events_shape(started, frames[0]);
        lemma_token_flags(ns_f, nr, frames.skip(1));
        assert(evs == evs_f + evs_r);
        assert(forall|k: int| 0 <= k < evs_f.len() ==> evs[k] == evs_f[k]);
        assert(forall|k: int|
            evs_f.len() <= k < evs.len() ==> evs[k] == evs_r[k - evs_f.len()]);
        // The run has a token exactly when the frame or the rest has one.
        assert(has_token(evs) == (has_token(evs_f) || has_token(evs_r))) by {
            if has_token(evs_f) {
                assert(evs[0] is Token);
            }
            if has_token(evs_r) {
                let j = choose|j: int| 0 <= j < evs_r.len() && evs_r[j] is Token;
                assert(evs[evs_f.len() + j] is Token);
            }
            if has_token(evs) {
                let k = choose|k: int| 0 <= k < evs.len() && evs[k] is Token;
                if k < evs_f.len() {
                    assert(has_token(evs_f));
                } else {
                    assert(evs_r[k - evs_f.len()] is Token);
                    assert(has_token(evs_r));
                }
            }
        }
        assert forall|k: int| 0 <= k < evs.len() && evs[k] is Token implies (evs[k]->Token_1 <==> (
        !started && forall|j: int| 0 <= j < k ==> !(evs[j] is Token))) by {
            if k < evs_f.len() {
                assert(k == 0);
                assert(evs[k]->Token_1 == !started);
            } else {
                let kr = k - evs_f.len();
                assert(evs_r[kr] is Token);
                assert(evs_r[kr]->Token_1 <==> (!ns_f && forall|j: int|
                    0 <= j < kr ==> !(evs_r[j] is Token)));
                // No token before `k` in the whole run exactly when the
                // frame is token-free and none precedes `kr` in the rest.
                assert((forall|j: int| 0 <= j < k ==> !(evs[j] is Token)) <==> (!has_token(evs_f)
                    && forall|j: int| 0 <= j < kr ==> !(evs_r[j] is Token))) by {
                    if has_token(evs_f) {
                        assert(evs[0] is Token);
                    }
                    if forall|j: int| 0 <= j < k ==> !(evs[j] is Token) {
                        assert forall|j: int| 0 <= j < kr implies !(evs_r[j] is Token) by {
                            assert(evs[evs_f.len() + j] == evs_r[j]);
                        }
                    }
                    if (!has_token(evs_f) && forall|j: int|
                        0 <= j < kr ==> !(evs_r[j] is Token)) {
                        assert forall|j: int| 0 <= j < k implies !(evs[j] is Token) by {
                            if j < evs_f.len() {
                                if evs[j] is Token {
                                    assert(has_token(evs_f));
                                }
                            } else {
                                assert(evs[j] == evs_r[j - evs_f.len()]);
                            }
                        }
                    }
                }
            }
        }
    }
}

/// A frame whose payload is malformed is skipped whole: it yields no event,
/// the first-fragment bookkeeping is untouched, and every later frame means
/// exactly what it would have meant; only the frame's own reconnect-delay
/// hint, if it carried one, is kept.
pub proof fn lemma_malformed_frame_is_skipped(
    started: bool,
    retry: Option<u64>,
    frames: Seq<Seq<u8>>,
)
    requires
        frames.len() > 0,
        spec_decode(parse_frame_spec(frames[0]).0.data) is Err,
    ensures
        fold_frames(started, retry, frames) == fold_frames(
            started,
            frame_hint(retry, frames[0]),
            frames.skip(1),
        ),
{
    let rest = fold_frames(started, frame_hint(retry, frames[0]), frames.skip(1));
    assert(Seq::<EventV>::empty() + rest.0 =~= rest.0);
}

/// Turns arriving response bytes into ordered stream events.
pub struct StreamEngine {
    splitter: SSEIterator,
    started: bool,
    retry_hint: Option<u64>,
}

impl StreamEngine {
    /// The bytes buffered and not yet framed.
    pub closed spec fn buf(&self) -> Seq<u8> {
        self.splitter.buf()
    }

    /// Whether a fragment has been emitted on this stream.
    pub closed spec fn spec_started(&self) -> bool {
        self.started
    }

    /// The reconnect-delay hint, in milliseconds, if any frame set one.
    pub closed spec fn spec_retry(&self) -> Option<u64> {
        self.retry_hint
    }

    /// An engine with nothing buffered and nothing emitted.
    pub fn new() -> (e: StreamEngine)
        ensures
            e.buf() == Seq::<u8>::empty(),
            !e.spec_started(),
            e.spec_retry() is None,
    {
        StreamEngine { splitter: SSEIterator::new(), started: false, retry_hint: None }
    }

    /// The reconnect-delay hint, in milliseconds, if any frame set one.
    pub fn retry_hint(&self) -> (r: Option<u64>)
        ensures
            r == self.spec_retry(),
    {
        self.retry_hint
    }

    /// Feeds newly arrived bytes and yields the events of every frame they
    /// complete, in order.  However the stream is cut into slices, the
    /// events come out the same, since they are the fold of the frames of
    /// the concatenated bytes.
    pub fn feed(&mut self, bytes: Vec<u8>) -> (evs: Vec<StreamEvent>)
        ensures
            ({
                let whole = old(self).buf() + bytes@;
                let (evs_s, ns, nr) = fold_frames(
                    old(self).spec_started(),
                    old(self).spec_retry(),
                    frames_of(whole),
                );
                &&& events_view(evs@) == evs_s
                &&& final(self).buf() == rest_of(whole)
                &&& final(self).spec_started() == ns
                &&& final(self).spec_retry() == nr
            }),
    {
        self.splitter.push(bytes);
        let frames = self.splitter.take_frames();
        let ghost whole = old(self).buf() + bytes@;
        let ghost fseq = frames_of(whole);
        let ghost full = fold_frames(old(self).spec_started(), old(self).spec_retry(), fseq);
        let mut out: Vec<StreamEvent> = Vec::new();
        let n = frames.len();
        let mut i: usize = 0;
        proof {
            assert(frames.deep_view() == fseq);
            assert(fseq.skip(0) =~= fseq);
            assert(events_view(out@) + fold_frames(self.started, self.retry_hint, fseq.skip(0)).0
                =~= full.0);
        }
        while i < n
            invariant
                n == frames@.len(),
                0 <= i <= n,
                frames.deep_view() == fseq,
                fseq.len() == n,
                self.splitter.buf() == rest_of(whole),
                ({
                    let rest = fold_frames(self.started, self.retry_hint, fseq.skip(i as int));
                    &&& events_view(out@) + rest.0 == full.0
                    &&& rest.1 == full.1
                    &&& rest.2 == full.2
                }),
            decreases n - i,
        {
            let ghost started0 = self.started;
            let ghost retry0 = self.retry_hint;
            let ghost raw = fseq[i as int];
            proof {
                assert(frames.deep_view()[i as int] == frames@[i as int].deep_view());
                assert(frames@[i as int]@ =~= raw);
                assert(fseq.skip(i as int)[0] == raw);
                assert(fseq.skip(i as int).skip(1) =~= fseq.skip(i + 1));
            }
            let (frame, hint) = parse_frame(frames[i].as_slice());
            match hint {
                Some(ms) => {
                    self.retry_hint = Some(ms);
                },
                None => {},
            }
            let ghost evs_before = events_view(out@);
            match decode(frame.data.as_slice()) {
                Err(_) => {
                    proof {
                        assert(frame_events(started0, raw).0 =~= Seq::<EventV>::empty());
                        assert(events_view(out@) =~= evs_before + frame_events(started0, raw).0);
                    }
                },
                Ok(None) => {
                    out.push(StreamEvent::End);
                    proof {
                        assert(events_view(out@) =~= evs_before + frame_events(started0, raw).0);
                    }
                },
                Ok(Some(delta)) => {
                    let crate::decode::Delta { content, finish_reason } = delta;
                    match content {
                        Some(t) => {
                            let fir = !self.started;
                            out.push(StreamEvent::Token { text: t, first: fir });
                            self.started = true;
                        },
                        None => {},
                    }
                    match finish_reason {
                        Some(_) => {
                            out.push(StreamEvent::End);
                        },
                        None => {},
                    }
                    proof {
                        assert(events_view(out@) =~= evs_before + frame_events(started0, raw).0);
                        assert(self.started == frame_events(started0, raw).1);
                    }
                },
            }
            proof {
                assert(self.retry_hint == frame_hint(retry0, raw));
                assert(events_view(out@) + fold_frames(
                    self.started,
                    self.retry_hint,
                    fseq.skip(i + 1),
                ).0 =~= full.0);
            }
            i = i + 1;
        }
        proof {
            assert(fseq.skip(n as int).len() == 0);
            assert(events_view(out@) + Seq::<EventV>::empty() =~= events_view(out@));
        }
        out
    }
}

} // verus!
