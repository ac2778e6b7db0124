//! The conversation transcript and its accumulator.
//!
//! The transcript is an ordered run of messages; it only ever grows, and
//! only the most recently begun assistant message is mutable, while a stream
//! is in progress.  Stream fragments arrive in order through
//! [`History::push_stream`]: the first fragment begins a new assistant
//! message, every later one extends it in place through the accumulator
//! string.  [`History::clear_message`] ends the stream and freezes the
//! message.

use vstd::prelude::*;
use vstd::pervasive::VecAdditionalExecFns;
use vstd::string::StringExecFns;

use crate::api::{ChatMessage, MsgV, Role};
use crate::config::Prompt;

verus! {

/// The message a configured prompt denotes.
pub open spec fn prompt_msg(p: Prompt) -> MsgV {
    MsgV {
        content: p.content@,
        role: crate::api::spec_role_of_prompt(p.role),
        name: None,
    }
}

/// The (role name, text) pairs of a transcript, which fix its token count.
pub open spec fn token_pairs(msgs: Seq<ChatMessage>) -> Seq<(Seq<char>, Seq<char>)> {
    msgs.map_values(|m: ChatMessage| (m.role.spec_name(), m.content@))
}

/// The token count that the tokenizer keyed by `model` assigns to the given
/// (role name, text) pairs, absent when the model has no supported
/// tokenizer.  The count depends on the model name and the pairs alone.
pub uninterp spec fn token_count_of(
    model: Seq<char>,
    msgs: Seq<(Seq<char>, Seq<char>)>,
) -> Option<usize>;

/// Relies on tiktoken_rs::num_tokens_from_messages: the count is computed
/// from the model name and each message's role name and text, through
/// tokenizer tables compiled into that crate, and on nothing else.  Author
/// names are not handed over; no message of this crate's making carries one.
#[verifier::external_body]
fn count_tokens(model: &str, msgs: &Vec<ChatMessage>) -> (r: Option<usize>)
    ensures
        r == token_count_of(model@, token_pairs(msgs@)),
{
    let reqs: Vec<tiktoken_rs::ChatCompletionRequestMessage> = msgs
        .iter()
        .map(|m| tiktoken_rs::ChatCompletionRequestMessage {
            role: m.role.as_str().to_string(),
            content: Some(m.content.clone()),
            name: None,
            function_call: None,
            tool_calls: Vec::new(),
            refusal: None,
        })
        .collect();
    tiktoken_rs::num_tokens_from_messages(model, &reqs).ok()
}

/// What one stream fragment does to the transcript: the first fragment of a
/// stream appends a fresh assistant message holding it, and every later one
/// extends that message in place through the accumulator.  A continuation
/// arriving with no stream in progress, or into an empty transcript, is
/// treated as a first fragment.
pub open spec fn push_stream_spec(
    msgs: Seq<MsgV>,
    cur: Seq<char>,
    streaming: bool,
    text: Seq<char>,
    first: bool,
) -> (Seq<MsgV>, Seq<char>, bool) {
    if first || !streaming || msgs.len() == 0 {
        (msgs.push(MsgV { content: text, role: Role::Assistant, name: None }), text, true)
    } else {
        let grown = cur + text;
        (
            msgs.update(
                msgs.len() - 1,
                MsgV { content: grown, role: Role::Assistant, name: None },
            ),
            grown,
            true,
        )
    }
}

/// The accumulator's bookkeeping is well formed: while a stream is in
/// progress, the transcript ends with the one in-progress assistant message
/// and the accumulator holds exactly its text; while none is, the
/// accumulator is empty.
pub open spec fn stream_wf(msgs: Seq<MsgV>, cur: Seq<char>, streaming: bool) -> bool {
    &&& streaming ==> {
        &&& msgs.len() > 0
        &&& msgs.last().role == Role::Assistant
        &&& msgs.last().content == cur
        &&& msgs.last().name is None
    }
    &&& !streaming ==> cur.len() == 0
}

/// Applying a stream fragment keeps the bookkeeping well formed.
pub proof fn lemma_push_stream_preserves_wf(
    msgs: Seq<MsgV>,
    cur: Seq<char>,
    streaming: bool,
    text: Seq<char>,
    first: bool,
)
    ensures
        ({
            let (m, c, s) = push_stream_spec(msgs, cur, streaming, text, first);
            stream_wf(m, c, s)
        }),
{
}

/// A run of fragments, one after the other.
pub open spec fn concat_frags(frags: Seq<Seq<char>>) -> Seq<char>
    decreases frags.len(),
{
    if frags.len() == 0 {
        Seq::empty()
    } else {
        frags[0] + concat_frags(frags.skip(1))
    }
}

/// Applying a whole run of stream fragments in order, the first marked as
/// the stream's first exactly when `first` says so.
pub open spec fn apply_stream(
    msgs: Seq<MsgV>,
    cur: Seq<char>,
    streaming: bool,
    frags: Seq<Seq<char>>,
    first: bool,
) -> (Seq<MsgV>, Seq<char>, bool)
    decreases frags.len(),
{
    if frags.len() == 0 {
        (msgs, cur, streaming)
    } else {
        let (m, c, s) = push_stream_spec(msgs, cur, streaming, frags[0], first);
        apply_stream(m, c, s, frags.skip(1), false)
    }
}

/// Continuations only grow the one in-progress message: applied to a
/// transcript whose last message is the in-progress one, they append their
/// texts to it, in order, and touch nothing else.
proof fn lemma_stream_extends(msgs: Seq<MsgV>, cur: Seq<char>, frags: Seq<Seq<char>>)
    requires
        msgs.len() > 0,
        msgs.last() == (MsgV { content: cur, role: Role::Assistant, name: None }),
    ensures
        ({
            let (m, c, s) = apply_stream(msgs, cur, true, frags, false);
            &&& m.len() == msgs.len()
            &&& m.last() == (MsgV {
                content: cur + concat_frags(frags),
                role: Role::Assistant,
                name: None,
            })
            &&& c == cur + concat_frags(frags)
            &&& s
            &&& forall|k: int| 0 <= k < msgs.len() - 1 ==> m[k] == msgs[k]
        }),
    decreases frags.len(),
{
    if frags.len() == 0 {
        assert(cur + concat_frags(frags) =~= cur);
    } else {
        let grown = cur + frags[0];
        let step = push_stream_spec(msgs, cur, true, frags[0], false);
        assert(step.0.last() == (MsgV { content: grown, role: Role::Assistant, name: None }));
        lemma_stream_extends(step.0, grown, frags.skip(1));
        assert(grown + concat_frags(frags.skip(1)) =~= cur + concat_frags(frags));
    }
}

/// Fragments applied in order accumulate: a first fragment and then any run
/// of continuations add exactly one assistant message, whose text is the
/// fragments one after the other; every message already in the transcript
/// is left as it was.
pub proof fn lemma_stream_accumulates(
    msgs: Seq<MsgV>,
    cur: Seq<char>,
    streaming: bool,
    frags: Seq<Seq<char>>,
)
    requires
        frags.len() > 0,
    ensures
        ({
            let (m, c, s) = apply_stream(msgs, cur, streaming, frags, true);
            &&& m.len() == msgs.len() + 1
            &&& m.last() == (MsgV {
                content: concat_frags(frags),
                role: Role::Assistant,
                name: None,
            })
            &&& c == concat_frags(frags)
            &&& s
            &&& forall|k: int| 0 <= k < msgs.len() ==> m[k] == msgs[k]
        }),
{
    let step = push_stream_spec(msgs, cur, streaming, frags[0], true);
    lemma_stream_extends(step.0, frags[0], frags.skip(1));
    assert(frags[0] + concat_frags(frags.skip(1)) =~= concat_frags(frags));
}

/// A first fragment and then a continuation leave a transcript whose last
/// message carries both texts, one after the other, and the continuation
/// adds no message.
pub proof fn lemma_first_then_continuation(
    msgs: Seq<MsgV>,
    cur: Seq<char>,
    streaming: bool,
    t1: Seq<char>,
    t2: Seq<char>,
)
    ensures
        ({
            let (m1, c1, s1) = push_stream_spec(msgs, cur, streaming, t1, true);
            let (m2, c2, s2) = push_stream_spec(m1, c1, s1, t2, false);
            &&& m2.len() == m1.len()
            &&& m2.len() == msgs.len() + 1
            &&& m2.last().content == t1 + t2
            &&& m2.last().role == Role::Assistant
        }),
{
}

/// The conversation transcript, the in-progress assistant reply, and a
/// running token count.
pub struct History {
    history: Vec<ChatMessage>,
    current_response: String,
    streaming: bool,
    tokens: usize,
}

impl History {
    /// The transcript, in conversation order.
    pub closed spec fn transcript(&self) -> Seq<MsgV> {
        self.history@.map_values(|m: ChatMessage| m@)
    }

    /// The in-progress assistant reply.
    pub closed spec fn accumulator(&self) -> Seq<char> {
        self.current_response@
    }

    /// Whether a stream is in progress.
    pub closed spec fn spec_streaming(&self) -> bool {
        self.streaming
    }

    /// The running token count.
    pub closed spec fn spec_tokens(&self) -> usize {
        self.tokens
    }

    /// An empty transcript with no stream in progress.
    pub fn new() -> (h: History)
        ensures
            h.transcript() == Seq::<MsgV>::empty(),
            h.accumulator() == Seq::<char>::empty(),
            !h.spec_streaming(),
            h.spec_tokens() == 0,
    {
        let h = History {
            history: Vec::new(),
            current_response: String::new(),
            streaming: false,
            tokens: 0,
        };
        proof {
            assert(h.transcript() =~= Seq::<MsgV>::empty());
        }
        h
    }

    /// Appends a finalized message for a configured prompt; any stream
    /// bookkeeping is closed out first, so the new message is immutable.
    pub fn push(&mut self, prompt: Prompt)
        ensures
            final(self).transcript() == old(self).transcript().push(prompt_msg(prompt)),
            final(self).accumulator() == Seq::<char>::empty(),
            !final(self).spec_streaming(),
            final(self).spec_tokens() == old(self).spec_tokens(),
    {
        let ghost p = prompt;
        self.streaming = false;
        self.current_response = String::new();
        self.history.push(ChatMessage::from(prompt));
        proof {
            assert(final(self).transcript() =~= old(self).transcript().push(prompt_msg(p)));
        }
    }

    /// Appends one finalized message for each configured prompt, in order.
    pub fn extend(&mut self, prompts: Vec<Prompt>)
        ensures
            final(self).transcript() == old(self).transcript() + prompts@.map_values(
                |p: Prompt| prompt_msg(p),
            ),
            final(self).accumulator() == Seq::<char>::empty(),
            !final(self).spec_streaming(),
            final(self).spec_tokens() == old(self).spec_tokens(),
    {
        self.streaming = false;
        self.current_response = String::new();
        let ghost all = prompts@;
        let mut rest = prompts;
        let n = rest.len();
        let mut i: usize = 0;
        proof {
            assert(old(self).transcript() + all.map_values(|p: Prompt| prompt_msg(p)).take(0)
                =~= old(self).transcript());
        }
        while i < n
            invariant
                n == all.len(),
                0 <= i <= n,
                rest@ == all,
                !self.streaming,
                self.current_response@ == Seq::<char>::empty(),
                self.tokens == old(self).spec_tokens(),
                self.transcript() == old(self).transcript() + all.map_values(
                    |p: Prompt| prompt_msg(p),
                ).take(i as int),
            decreases n - i,
        {
            let ghost before = self.transcript();
            let p = rest[i].clone();
            proof {
                // A prompt's clone denotes the same message: the role is
                // copied and the text's clone is spec-equal.
                assert(prompt_msg(p) == prompt_msg(all[i as int]));
            }
            self.history.push(ChatMessage::from(p));
            proof {
                assert(self.transcript() =~= before.push(prompt_msg(all[i as int])));
                assert(before.push(prompt_msg(all[i as int])) =~= old(self).transcript()
                    + all.map_values(|q: Prompt| prompt_msg(q)).take(i + 1));
            }
            i = i + 1;
        }
        proof {
            assert(all.map_values(|p: Prompt| prompt_msg(p)).take(n as int) =~= all.map_values(
                |p: Prompt| prompt_msg(p),
            ));
        }
    }

    /// Applies one stream fragment, as [`push_stream_spec`] says: a first
    /// fragment begins a new assistant message, a continuation extends the
    /// last one in place.
    pub fn push_stream(&mut self, text: &str, first: bool)
        ensures
            ({
                let (m, c, s) = push_stream_spec(
                    old(self).transcript(),
                    old(self).accumulator(),
                    old(self).spec_streaming(),
                    text@,
                    first,
                );
                &&& final(self).transcript() == m
                &&& final(self).accumulator() == c
                &&& final(self).spec_streaming() == s
            }),
            final(self).spec_tokens() == old(self).spec_tokens(),
    {
        if first || !self.streaming || self.history.len() == 0 {
            self.current_response = String::from_str(text);
            self.streaming = true;
            self.history.push(
                ChatMessage::new(String::from_str(text), Role::Assistant),
            );
            proof {
                assert(final(self).transcript() =~= old(self).transcript().push(
                    MsgV { content: text@, role: Role::Assistant, name: None },
                ));
            }
        } else {
            self.current_response.append(text);
            let idx = self.history.len() - 1;
            self.history.set(
                idx,
                ChatMessage::new(self.current_response.clone(), Role::Assistant),
            );
            proof {
                assert(final(self).transcript() =~= old(self).transcript().update(
                    old(self).transcript().len() - 1,
                    MsgV {
                        content: old(self).accumulator() + text@,
                        role: Role::Assistant,
                        name: None,
                    },
                ));
            }
        }
    }

    /// Whether the transcript holds no message yet.
    pub fn is_empty(&self) -> (r: bool)
        ensures
            r == (self.transcript().len() == 0),
    {
        self.history.len() == 0
    }

    /// Ends the stream: clears the accumulator and freezes the current
    /// assistant message.  The transcript is untouched.
    pub fn clear_message(&mut self)
        ensures
            final(self).transcript() == old(self).transcript(),
            final(self).accumulator() == Seq::<char>::empty(),
            !final(self).spec_streaming(),
            final(self).spec_tokens() == old(self).spec_tokens(),
    {
        self.current_response = String::new();
        self.streaming = false;
    }

    /// The token count the tokenizer for `model` assigns to the transcript,
    /// absent when that model has none.  Best effort: the transcript itself
    /// is never touched.
    pub fn num_tokens(&self, model: &str) -> (r: Option<usize>)
        ensures
            r == token_count_of(model@, token_pairs_of(self.transcript())),
    {
        proof {
            assert(token_pairs(self.history@) =~= token_pairs_of(self.transcript()));
        }
        count_tokens(model, &self.history)
    }

    /// The most recent message, if any.
    pub fn last(&self) -> (r: Option<&ChatMessage>)
        ensures
            match r {
                Some(m) => self.transcript().len() > 0 && m@ == self.transcript().last(),
                None => self.transcript().len() == 0,
            },
    {
        if self.history.len() == 0 {
            None
        } else {
            Some(&self.history[self.history.len() - 1])
        }
    }

    /// The transcript's messages, in conversation order.
    pub fn messages(&self) -> (r: &Vec<ChatMessage>)
        ensures
            r@.map_values(|m: ChatMessage| m@) == self.transcript(),
    {
        &self.history
    }

    /// Whether a stream is in progress; at most one ever is.
    pub fn is_streaming(&self) -> (r: bool)
        ensures
            r == self.spec_streaming(),
    {
        self.streaming
    }

    /// The running token count.
    pub fn tokens(&self) -> (r: usize)
        ensures
            r == self.spec_tokens(),
    {
        self.tokens
    }

    /// Grows the running token count, stopping at the largest count rather
    /// than wrapping.
    pub fn add_tokens(&mut self, n: usize)
        ensures
            final(self).spec_tokens() == if old(self).spec_tokens() + n <= usize::MAX {
                old(self).spec_tokens() + n
            } else {
                usize::MAX as int
            },
            final(self).transcript() == old(self).transcript(),
            final(self).accumulator() == old(self).accumulator(),
            final(self).spec_streaming() == old(self).spec_streaming(),
    {
        if n <= usize::MAX - self.tokens {
            self.tokens = self.tokens + n;
        } else {
            self.tokens = usize::MAX;
        }
    }
}

/// The (role name, text) pairs of a transcript image.
pub open spec fn token_pairs_of(msgs: Seq<MsgV>) -> Seq<(Seq<char>, Seq<char>)> {
    msgs.map_values(|m: MsgV| (m.role.spec_name(), m.content))
}

impl Default for History {
    /// An empty transcript with no stream in progress.
    fn default() -> (h: History)
        ensures
            h.transcript() == Seq::<MsgV>::empty(),
            h.accumulator() == Seq::<char>::empty(),
            !h.spec_streaming(),
            h.spec_tokens() == 0,
    {
        History::new()
    }
}

} // verus!
