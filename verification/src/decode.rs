//! Decoding one frame's data payload into a completion-chunk delta.
//!
//! A payload is expected to be a JSON object whose `choices` array's first
//! element carries an optional `delta.content` text fragment and an optional
//! `finish_reason`.  The literal sentinel payload `[DONE]` marks a graceful
//! end of the stream.  A payload that is neither the sentinel nor such an
//! object is malformed: the caller skips the frame and the stream goes on.

use vstd::prelude::*;
use vstd::string::StringExecFns;

use crate::json::{obj_get, parse_json, json_of, Json, JsonV};
use crate::sse::LF;

verus! {

/// One decoded chunk: an optional text fragment to append to the assistant's
/// reply, and an optional terminal marker.
#[derive(Debug, PartialEq)]
pub struct Delta {
    /// Text to append to the in-progress assistant message.
    pub content: Option<String>,
    /// The reason the stream finished, when this chunk is terminal.
    pub finish_reason: Option<String>,
}

/// The mathematical image of a [`Delta`].
pub struct DeltaV {
    /// Text to append to the in-progress assistant message.
    pub content: Option<Seq<char>>,
    /// The reason the stream finished, when this chunk is terminal.
    pub finish_reason: Option<Seq<char>>,
}

impl View for Delta {
    type V = DeltaV;

    open spec fn view(&self) -> DeltaV {
        DeltaV {
            content: match self.content {
                Some(ref s) => Some(s@),
                None => None,
            },
            finish_reason: match self.finish_reason {
                Some(ref s) => Some(s@),
                None => None,
            },
        }
    }
}

/// Why a payload failed to decode.
#[derive(Clone, Copy, Debug, PartialEq, Eq, Structural)]
pub enum DecodeError {
    /// The payload is not the sentinel and not a well-formed chunk object.
    Malformed,
}

/// A payload with one trailing line feed removed: field parsing leaves each
/// data line with a line-feed separator, and the last one is no payload
/// byte.
pub open spec fn strip_trailing_lf(p: Seq<u8>) -> Seq<u8> {
    if p.len() > 0 && p.last() == LF {
        p.drop_last()
    } else {
        p
    }
}

/// Whether `p` is the end-of-stream sentinel payload `[DONE]`.
pub open spec fn is_done_sentinel(p: Seq<u8>) -> bool {
    &&& p.len() == 6
    &&& p[0] == 91  // [
    &&& p[1] == 68  // D
    &&& p[2] == 79  // O
    &&& p[3] == 78  // N
    &&& p[4] == 69  // E
    &&& p[5] == 93  // ]
}

/// The delta a parsed chunk object carries: the first choice's optional
/// `delta.content` text and optional `finish_reason` text.  Anything without
/// a non-empty `choices` array whose first element is an object is
/// malformed.
pub open spec fn chunk_delta(m: JsonV) -> Result<DeltaV, DecodeError> {
    match m {
        JsonV::Obj(fs) => match obj_get(fs, "choices"@) {
            Some(JsonV::Arr(cs)) => if cs.len() > 0 {
                match cs[0] {
                    JsonV::Obj(cfs) => Ok(
                        DeltaV {
                            content: match obj_get(cfs, "delta"@) {
                                Some(JsonV::Obj(dfs)) => match obj_get(dfs, "content"@) {
                                    Some(JsonV::Text(t)) => Some(t),
                                    _ => None,
                                },
                                _ => None,
                            },
                            finish_reason: match obj_get(cfs, "finish_reason"@) {
                                Some(JsonV::Text(t)) => Some(t),
                                _ => None,
                            },
                        },
                    ),
                    _ => Err(DecodeError::Malformed),
                }
            } else {
                Err(DecodeError::Malformed)
            },
            _ => Err(DecodeError::Malformed),
        },
        _ => Err(DecodeError::Malformed),
    }
}

/// What decoding a data payload yields: nothing but a graceful end for the
/// sentinel, and likewise for a well-formed chunk that carries neither text
/// nor a terminal marker; the delta of any other well-formed chunk; and an
/// error for everything else.
pub open spec fn spec_decode(payload: Seq<u8>) -> Result<Option<DeltaV>, DecodeError> {
    let p = strip_trailing_lf(payload);
    if is_done_sentinel(p) {
        Ok(None)
    } else {
        match json_of(p) {
            None => Err(DecodeError::Malformed),
            Some(m) => match chunk_delta(m) {
                Err(e) => Err(e),
                Ok(d) => if d.content is None && d.finish_reason is None {
                    Ok(None)
                } else {
                    Ok(Some(d))
                },
            },
        }
    }
}

/// A frame whose payload is the end-of-stream sentinel decodes to a
/// graceful end: there is no delta, so nothing of it can ever be appended
/// to a transcript as text.
pub proof fn lemma_done_sentinel_yields_no_text(payload: Seq<u8>)
    requires
        is_done_sentinel(strip_trailing_lf(payload)),
    ensures
        spec_decode(payload) == Ok::<Option<DeltaV>, DecodeError>(None),
{
}

/// Decodes one frame's data payload.  `Ok(None)` says the stream has ended
/// gracefully and nothing is to be appended; `Ok(Some(delta))` hands out the
/// chunk's text fragment and terminal marker; `Err` flags a malformed
/// payload, which the caller skips without aborting the stream.
pub fn decode(payload: &[u8]) -> (r: Result<Option<Delta>, DecodeError>)
    ensures
        match (r, spec_decode(payload@)) {
            (Ok(None), Ok(None)) => true,
            (Ok(Some(d)), Ok(Some(dv))) => d@ == dv,
            (Err(e), Err(ev)) => e == ev,
            _ => false,
        },
{
    let n = payload.len();
    let end = if n > 0 && payload[n - 1] == LF {
        n - 1
    } else {
        n
    };
    let p = vstd::slice::slice_subrange(payload, 0, end);
    proof {
        assert(p@ =~= strip_trailing_lf(payload@));
    }
    if p.len() == 6 && p[0] == 91 && p[1] == 68 && p[2] == 79 && p[3] == 78 && p[4] == 69 && p[5]
        == 93 {
        return Ok(None);
    }
    proof {
        assert(!is_done_sentinel(p@));
    }
    match parse_json(p) {
        None => Err(DecodeError::Malformed),
        Some(j) => {
            let key_choices = String::from_str("choices");
            match j.get(&key_choices) {
                Some(choices) => match choices {
                    Json::Arr(items) => {
                        if items.len() > 0 {
                            proof {
                                crate::json::lemma_json_view_arr(items@);
                            }
                            let first = &items[0];
                            match first {
                                Json::Obj(_) => {
                                    let key_delta = String::from_str("delta");
                                    let key_content = String::from_str("content");
                                    let key_finish = String::from_str("finish_reason");
                                    let content: Option<String> = match first.get(&key_delta) {
                                        Some(d) => match d.get(&key_content) {
                                            Some(c) => match c {
                                                Json::Text(s) => Some(s.clone()),
                                                _ => None,
                                            },
                                            None => None,
                                        },
                                        None => None,
                                    };
                                    let finish_reason: Option<String> = match first.get(
                                        &key_finish,
                                    ) {
                                        Some(f) => match f {
                                            Json::Text(s) => Some(s.clone()),
                                            _ => None,
                                        },
                                        None => None,
                                    };
                                    if content.is_none() && finish_reason.is_none() {
                                        Ok(None)
                                    } else {
                                        Ok(Some(Delta { content, finish_reason }))
                                    }
                                },
                                _ => Err(DecodeError::Malformed),
                            }
                        } else {
                            Err(DecodeError::Malformed)
                        }
                    },
                    _ => Err(DecodeError::Malformed),
                },
                None => Err(DecodeError::Malformed),
            }
        },
    }
}

} // verus!
