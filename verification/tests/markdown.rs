use gptrs::markdown::parser::{Parser, Span, SpanStyle};
use gptrs::markdown::tokenizer::{Token, TokenType, Tokenizer};

#[test]
fn bold() {
    let mut tokenizer = Tokenizer::new("**bold**");
    let expected = vec![
        Token {
            token_type: TokenType::Bold,
            value: String::from("**"),
        },
        Token {
            token_type: TokenType::Text,
            value: String::from("bold"),
        },
        Token {
            token_type: TokenType::Bold,
            value: String::from("**"),
        },
        Token {
            token_type: TokenType::Eof,
            value: String::from(""),
        },
    ];
    assert_eq!(tokenizer.tokenize(), expected);
}

#[test]
fn italic() {
    let mut tokenizer = Tokenizer::new("_italic_");
    let expected = vec![
        Token {
            token_type: TokenType::Italic,
            value: String::from("_"),
        },
        Token {
            token_type: TokenType::Text,
            value: String::from("italic"),
        },
        Token {
            token_type: TokenType::Italic,
            value: String::from("_"),
        },
        Token {
            token_type: TokenType::Eof,
            value: String::from(""),
        },
    ];
    assert_eq!(tokenizer.tokenize(), expected);
}

#[test]
fn inline_code() {
    let mut tokenizer = Tokenizer::new("`inline code`");
    let expected = vec![
        Token {
            token_type: TokenType::InlineCode,
            value: String::from("`"),
        },
        Token {
            token_type: TokenType::Text,
            value: String::from("inline code"),
        },
        Token {
            token_type: TokenType::InlineCode,
            value: String::from("`"),
        },
        Token {
            token_type: TokenType::Eof,
            value: String::from(""),
        },
    ];
    assert_eq!(tokenizer.tokenize(), expected);
}

#[test]
fn codeblock() {
    let mut tokenizer = Tokenizer::new("```\ncodeblock\n```");
    let expected = vec![
        Token {
            token_type: TokenType::CodeBlock,
            value: String::from("```"),
        },
        Token {
            token_type: TokenType::Newline,
            value: String::from("\n"),
        },
        Token {
            token_type: TokenType::Text,
            value: String::from("codeblock"),
        },
        Token {
            token_type: TokenType::Newline,
            value: String::from("\n"),
        },
        Token {
            token_type: TokenType::CodeBlock,
            value: String::from("```"),
        },
        Token {
            token_type: TokenType::Eof,
            value: String::from(""),
        },
    ];
    assert_eq!(tokenizer.tokenize(), expected);
}

#[test]
fn inline_math() {
    let mut tokenizer = Tokenizer::new("$inline math$");
    let expected = vec![
        Token {
            token_type: TokenType::InlineMath,
            value: String::from("$"),
        },
        Token {
            token_type: TokenType::Text,
            value: String::from("inline math"),
        },
        Token {
            token_type: TokenType::InlineMath,
            value: String::from("$"),
        },
        Token {
            token_type: TokenType::Eof,
            value: String::from(""),
        },
    ];
    assert_eq!(tokenizer.tokenize(), expected);
}

#[test]
fn math_block() {
    let mut tokenizer = Tokenizer::new("$$\nmath block\n$$");
    let expected = vec![
        Token {
            token_type: TokenType::MathBlock,
            value: String::from("$$"),
        },
        Token {
            token_type: TokenType::Newline,
            value: String::from("\n"),
        },
        Token {
            token_type: TokenType::Text,
            value: String::from("math block"),
        },
        Token {
            token_type: TokenType::Newline,
            value: String::from("\n"),
        },
        Token {
            token_type: TokenType::MathBlock,
            value: String::from("$$"),
        },
        Token {
            token_type: TokenType::Eof,
            value: String::from(""),
        },
    ];
    assert_eq!(tokenizer.tokenize(), expected);
}

#[test]
fn empty_input_is_just_the_end() {
    let mut tokenizer = Tokenizer::new("");
    let expected = vec![Token {
        token_type: TokenType::Eof,
        value: String::from(""),
    }];
    assert_eq!(tokenizer.tokenize(), expected);
}

#[test]
fn lone_asterisk_at_end_is_dropped() {
    let mut tokenizer = Tokenizer::new("a*");
    let expected = vec![
        Token {
            token_type: TokenType::Text,
            value: String::from("a"),
        },
        Token {
            token_type: TokenType::Eof,
            value: String::from(""),
        },
    ];
    assert_eq!(tokenizer.tokenize(), expected);
}

#[test]
fn codeblock_language_is_swallowed() {
    let mut tokenizer = Tokenizer::new("```rust\ncode\n```");
    let toks = tokenizer.tokenize();
    assert_eq!(toks[0].token_type, TokenType::CodeBlock);
    assert_eq!(toks[1].token_type, TokenType::Newline);
    assert_eq!(toks[2].value, String::from("code"));
}

#[test]
fn unterminated_codeblock_fence_stops_at_end() {
    let mut tokenizer = Tokenizer::new("```rust");
    let expected = vec![
        Token {
            token_type: TokenType::CodeBlock,
            value: String::from("```"),
        },
        Token {
            token_type: TokenType::Eof,
            value: String::from(""),
        },
    ];
    assert_eq!(tokenizer.tokenize(), expected);
}

#[test]
fn parse_styles_bold_section() {
    let mut tokenizer = Tokenizer::new("**bold** plain");
    let tokens = tokenizer.tokenize();
    let mut parser = Parser::new(&tokens);
    let spans = parser.parse();
    let expected = vec![
        Span {
            text: String::from("**"),
            style: SpanStyle::Bold,
        },
        Span {
            text: String::from("bold"),
            style: SpanStyle::Bold,
        },
        Span {
            text: String::from("**"),
            style: SpanStyle::Bold,
        },
        Span {
            text: String::from(" plain"),
            style: SpanStyle::Plain,
        },
    ];
    assert_eq!(spans, expected);
}

#[test]
fn parse_styles_code_section() {
    let mut tokenizer = Tokenizer::new("`code`");
    let tokens = tokenizer.tokenize();
    let mut parser = Parser::new(&tokens);
    let spans = parser.parse();
    let expected = vec![
        Span {
            text: String::from("`"),
            style: SpanStyle::Plain,
        },
        Span {
            text: String::from("code"),
            style: SpanStyle::Bold,
        },
        Span {
            text: String::from("`"),
            style: SpanStyle::Plain,
        },
    ];
    assert_eq!(spans, expected);
}

#[test]
fn parse_unclosed_section_runs_to_end() {
    let mut tokenizer = Tokenizer::new("_oops");
    let tokens = tokenizer.tokenize();
    let mut parser = Parser::new(&tokens);
    let spans = parser.parse();
    let expected = vec![
        Span {
            text: String::from("_"),
            style: SpanStyle::Italic,
        },
        Span {
            text: String::from("oops"),
            style: SpanStyle::Italic,
        },
        Span {
            text: String::from(""),
            style: SpanStyle::Italic,
        },
    ];
    assert_eq!(spans, expected);
}
