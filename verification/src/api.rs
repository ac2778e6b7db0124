//! The chat-completion data model: message roles, transcript messages, and
//! the request/response shapes of the completion endpoint.

use vstd::prelude::*;

use crate::config::Prompt;

verus! {

/// The author of a chat message.
#[derive(Debug, Clone, Copy, PartialEq, Eq, Structural)]
pub enum Role {
    /// The system prompt's author.
    System,
    /// The human user.
    User,
    /// The model.
    Assistant,
}

impl Role {
    /// The role's lower-case wire name.
    pub open spec fn spec_name(self) -> Seq<char> {
        match self {
            Role::System => "system"@,
            Role::User => "user"@,
            Role::Assistant => "assistant"@,
        }
    }

    /// The role's lower-case wire name.
    pub fn as_str(&self) -> (r: &'static str)
        ensures
            r@ == self.spec_name(),
    {
        match self {
            Role::System => "system",
            Role::User => "user",
            Role::Assistant => "assistant",
        }
    }
}

/// A role of a configured prompt, carried onto the message model.
pub open spec fn spec_role_of_prompt(r: crate::config::Role) -> Role {
    match r {
        crate::config::Role::User => Role::User,
        crate::config::Role::Assistant => Role::Assistant,
        crate::config::Role::System => Role::System,
    }
}

/// Carries a configured prompt's role onto the message model.
pub fn role_of_prompt(r: crate::config::Role) -> (out: Role)
    ensures
        out == spec_role_of_prompt(r),
{
    match r {
        crate::config::Role::User => Role::User,
        crate::config::Role::Assistant => Role::Assistant,
        crate::config::Role::System => Role::System,
    }
}

/// One transcript message: its text, its author, and an optional author
/// name.
#[derive(Debug, Clone)]
pub struct ChatMessage {
    /// The message text.
    pub content: String,
    /// The message's author.
    pub role: Role,
    /// An optional author name.
    pub name: Option<String>,
}

/// The mathematical image of a [`ChatMessage`].
pub struct MsgV {
    /// The message text.
    pub content: Seq<char>,
    /// The message's author.
    pub role: Role,
    /// An optional author name.
    pub name: Option<Seq<char>>,
}

impl View for ChatMessage {
    type V = MsgV;

    open spec fn view(&self) -> MsgV {
        MsgV {
            content: self.content@,
            role: self.role,
            name: match self.name {
                Some(ref s) => Some(s@),
                None => None,
            },
        }
    }
}

impl ChatMessage {
    /// Creates a message with no author name.
    pub fn new(content: String, role: Role) -> (m: Self)
        ensures
            m@ == (MsgV { content: content@, role, name: None::<Seq<char>> }),
    {
        ChatMessage { content, role, name: None }
    }
}

impl From<Prompt> for ChatMessage {
    /// A configured prompt becomes a message with no author name.
    fn from(prompt: Prompt) -> (m: Self) {
        ChatMessage { content: prompt.content, role: role_of_prompt(prompt.role), name: None }
    }
}

impl vstd::std_specs::convert::FromSpecImpl<Prompt> for ChatMessage {
    open spec fn obeys_from_spec() -> bool {
        true
    }

    open spec fn from_spec(prompt: Prompt) -> Self {
        ChatMessage {
            content: prompt.content,
            role: spec_role_of_prompt(prompt.role),
            name: None,
        }
    }
}

/// One choice of a non-streaming completion response.
#[derive(Debug, Clone)]
pub struct ChatCompletionChoice {
    /// The choice's position among its siblings.
    pub index: i32,
    /// The full message of this choice.
    pub message: ChatMessage,
    /// Log probabilities; never consumed.
    pub logprobs: Option<()>,
    /// Why generation stopped, if it did.
    pub finish_reason: Option<String>,
}

/// Token accounting attached to a completion response.
#[derive(Debug, Clone, Copy, PartialEq, Eq, Structural)]
pub struct ChatCompletionUsage {
    /// Tokens spent on the prompt.
    pub prompt_tokens: i32,
    /// Tokens spent on the completion.
    pub completion_tokens: i32,
    /// Both together.
    pub total_tokens: i32,
}

/// A non-streaming completion response.
#[derive(Debug, Clone)]
pub struct ChatCompletionResponse {
    /// The response id.
    pub id: String,
    /// The response's object tag.
    pub object: String,
    /// Creation time, in seconds since the epoch.
    pub created: i64,
    /// The model that answered.
    pub model: String,
    /// The backend configuration fingerprint.
    pub system_fingerprint: String,
    /// The answer.
    pub choices: ChatCompletionChoice,
    /// Token accounting.
    pub usage: ChatCompletionUsage,
}

/// The delta object of one streaming choice.
#[derive(Debug, Clone)]
pub struct ChatCompletionDelta {
    /// A fragment of the reply text.
    pub content: Option<String>,
    /// The author, sent with the first fragment.
    pub role: Option<Role>,
}

/// One choice of a streaming completion chunk.
#[derive(Debug, Clone)]
pub struct ChatCompletionStreamChoice {
    /// The choice's position among its siblings.
    pub index: i32,
    /// The fragment this chunk carries.
    pub delta: ChatCompletionDelta,
    /// Log probabilities; never consumed.
    pub logprobs: Option<()>,
    /// Why generation stopped, if it did.
    pub finish_reason: Option<String>,
}

/// One frame's worth of a streaming completion response.
#[derive(Debug, Clone)]
pub struct ChatCompletionChunk {
    /// The response id.
    pub id: String,
    /// The response's object tag.
    pub object: String,
    /// Creation time, in seconds since the epoch.
    pub created: i64,
    /// The model that answers.
    pub model: String,
    /// The backend configuration fingerprint.
    pub system_fingerprint: String,
    /// The choices, each with its fragment.
    pub choices: Vec<ChatCompletionStreamChoice>,
}

} // verus!
