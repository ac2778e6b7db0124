use gptrs::api::{ChatMessage, Role};
use gptrs::chat::History;
use gptrs::config::{Prompt, Role as PromptRole};

#[test]
fn push_keeps_conversation_order() {
    let mut h = History::new();
    assert!(h.is_empty());
    h.push(Prompt {
        role: PromptRole::System,
        content: String::from("be brief"),
    });
    h.push(Prompt {
        role: PromptRole::User,
        content: String::from("hi"),
    });
    assert!(!h.is_empty());
    let msgs = h.messages();
    assert_eq!(msgs.len(), 2);
    assert_eq!(msgs[0].role, Role::System);
    assert_eq!(msgs[0].content, String::from("be brief"));
    assert_eq!(msgs[1].role, Role::User);
    assert_eq!(msgs[1].content, String::from("hi"));
}

#[test]
fn extend_appends_all_prompts() {
    let mut h = History::new();
    h.extend(vec![
        Prompt {
            role: PromptRole::System,
            content: String::from("a"),
        },
        Prompt {
            role: PromptRole::Assistant,
            content: String::from("b"),
        },
    ]);
    let msgs = h.messages();
    assert_eq!(msgs.len(), 2);
    assert_eq!(msgs[1].role, Role::Assistant);
    assert_eq!(msgs[1].content, String::from("b"));
}

#[test]
fn first_then_continuation_grows_one_message() {
    let mut h = History::new();
    h.push(Prompt {
        role: PromptRole::User,
        content: String::from("hi"),
    });
    h.push_stream("Hello", true);
    let len_after_first = h.messages().len();
    h.push_stream(" world", false);
    assert_eq!(h.messages().len(), len_after_first);
    let last = h.last().unwrap();
    assert_eq!(last.content, String::from("Hello world"));
    assert_eq!(last.role, Role::Assistant);
    assert!(h.is_streaming());
}

#[test]
fn continuation_without_first_begins_a_message() {
    let mut h = History::new();
    h.push_stream("orphan", false);
    assert_eq!(h.messages().len(), 1);
    assert_eq!(h.last().unwrap().content, String::from("orphan"));
}

#[test]
fn clear_message_freezes_the_reply() {
    let mut h = History::new();
    h.push_stream("done", true);
    h.clear_message();
    assert!(!h.is_streaming());
    // The next fragment begins a new message instead of extending the old.
    h.push_stream("next", false);
    assert_eq!(h.messages().len(), 2);
    assert_eq!(h.last().unwrap().content, String::from("next"));
}

#[test]
fn token_counter_saturates() {
    let mut h = History::new();
    assert_eq!(h.tokens(), 0);
    h.add_tokens(5);
    h.add_tokens(7);
    assert_eq!(h.tokens(), 12);
    h.add_tokens(usize::MAX);
    assert_eq!(h.tokens(), usize::MAX);
}

#[test]
fn num_tokens_counts_for_known_models() {
    let mut h = History::new();
    h.push(Prompt {
        role: PromptRole::User,
        content: String::from("Hello there"),
    });
    let n = h.num_tokens("gpt-3.5-turbo").expect("a supported model has a count");
    assert!(n > 0);
    // A longer transcript never counts fewer tokens.
    h.push(Prompt {
        role: PromptRole::Assistant,
        content: String::from("General Kenobi"),
    });
    let m = h.num_tokens("gpt-3.5-turbo").unwrap();
    assert!(m > n);
    assert_eq!(h.num_tokens("no-such-model"), None);
}

#[test]
fn message_from_prompt_keeps_text() {
    let m = ChatMessage::from(Prompt {
        role: PromptRole::User,
        content: String::from("text"),
    });
    assert_eq!(m.content, String::from("text"));
    assert_eq!(m.role, Role::User);
    assert_eq!(m.name, None);
    let m2 = ChatMessage::new(String::from("x"), Role::System);
    assert_eq!(m2.role, Role::System);
}

#[test]
fn role_names() {
    assert_eq!(Role::System.as_str(), "system");
    assert_eq!(Role::User.as_str(), "user");
    assert_eq!(Role::Assistant.as_str(), "assistant");
}
