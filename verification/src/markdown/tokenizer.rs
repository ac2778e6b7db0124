//! A small tokenizer for the markdown subset the chat display styles:
//! emphasis and bold markers, inline code and code blocks, inline math and
//! math blocks, newlines, and plain text runs between them.

use vstd::prelude::*;
use vstd::string::{StrSliceExecFns, StringExecFns};

verus! {

/// What a token is.
#[derive(Debug, Clone, Copy, PartialEq, Eq, Structural)]
pub enum TokenType {
    /// A bullet list marker.
    Bullet,
    /// A numbered list marker.
    Numbered,
    /// A bold marker, two asterisks.
    Bold,
    /// An emphasis marker, one underscore.
    Italic,
    /// An inline code fence, one backtick.
    InlineCode,
    /// A code block fence, three backticks.
    CodeBlock,
    /// An inline math fence, one dollar sign.
    InlineMath,
    /// A math block fence, two dollar signs.
    MathBlock,
    /// A run of plain text.
    Text,
    /// A line break.
    Newline,
    /// The end of the input.
    Eof,
}

/// One token: its kind and the text it covers.
#[derive(Debug, PartialEq)]
pub struct Token {
    /// The token's kind.
    pub token_type: TokenType,
    /// The text the token covers.
    pub value: String,
}

/// A token's mathematical image.
pub open spec fn token_model(t: Token) -> (TokenType, Seq<char>) {
    (t.token_type, t.value@)
}

/// Whether `c` starts a marker (or breaks a text run).
pub open spec fn is_special(c: char) -> bool {
    c == '*' || c == '`' || c == '$' || c == '_' || c == '\n'
}

/// The end of the plain-text run starting at `i`: the first special
/// character at or after `i`, or the end of the input.
pub open spec fn text_end(s: Seq<char>, i: int) -> int
    decreases s.len() - i,
{
    if i >= s.len() {
        i
    } else if is_special(s[i]) {
        i
    } else {
        text_end(s, i + 1)
    }
}

/// The run's end never moves backward and never leaves the input.
pub proof fn lemma_text_end_range(s: Seq<char>, i: int)
    requires
        i <= s.len(),
    ensures
        i <= text_end(s, i) <= s.len(),
    decreases s.len() - i,
{
    if i < s.len() && !is_special(s[i]) {
        lemma_text_end_range(s, i + 1);
    }
}

/// The run's end is wherever the first special character sits.
pub proof fn lemma_text_end_exact(s: Seq<char>, i: int, j: int)
    requires
        0 <= i <= j <= s.len(),
        forall|k: int| i <= k < j ==> !is_special(s[k]),
        j == s.len() || is_special(s[j]),
    ensures
        text_end(s, i) == j,
    decreases j - i,
{
    if i < j {
        lemma_text_end_exact(s, i + 1, j);
    }
}

/// The first line break at or after `i`, or the end of the input.
pub open spec fn line_break(s: Seq<char>, i: int) -> int
    decreases s.len() - i,
{
    if i >= s.len() {
        i
    } else if s[i] == '\n' {
        i
    } else {
        line_break(s, i + 1)
    }
}

/// The line break never moves backward and never leaves the input.
pub proof fn lemma_line_break_range(s: Seq<char>, i: int)
    requires
        i <= s.len(),
    ensures
        i <= line_break(s, i) <= s.len(),
    decreases s.len() - i,
{
    if i < s.len() && s[i] != '\n' {
        lemma_line_break_range(s, i + 1);
    }
}

/// The line break is wherever the first line feed sits.
pub proof fn lemma_line_break_exact(s: Seq<char>, i: int, j: int)
    requires
        0 <= i <= j <= s.len(),
        forall|k: int| i <= k < j ==> s[k] != '\n',
        j == s.len() || s[j] == '\n',
    ensures
        line_break(s, i) == j,
    decreases j - i,
{
    if i < j {
        lemma_line_break_exact(s, i + 1, j);
    }
}

/// The tokens of `s` from position `i` on: markers as their kind, text runs
/// whole, and a final end-of-input token.  A lone trailing asterisk is
/// consumed silently; a code-block fence swallows the language name after it,
/// up to the line break.
pub open spec fn spec_tokens(s: Seq<char>, i: int) -> Seq<(TokenType, Seq<char>)>
    decreases s.len() - i, 0int,
    via spec_tokens_dec
{
    if i >= s.len() {
        seq![(TokenType::Eof, ""@)]
    } else if s[i] == '_' {
        seq![(TokenType::Italic, "_"@)] + spec_tokens(s, i + 1)
    } else if s[i] == '*' {
        if i + 1 < s.len() {
            if s[i + 1] == '*' {
                seq![(TokenType::Bold, "**"@)] + spec_tokens(s, i + 2)
            } else {
                seq![(TokenType::Text, "*"@)] + spec_tokens(s, i + 1)
            }
        } else {
            spec_tokens(s, i + 1)
        }
    } else if s[i] == '`' {
        if i + 1 < s.len() && s[i + 1] == '`' {
            if i + 2 < s.len() && s[i + 2] == '`' {
                seq![(TokenType::CodeBlock, "```"@)] + spec_tokens(s, line_break(s, i + 2))
            } else {
                seq![(TokenType::InlineCode, "`"@), (TokenType::InlineCode, "`"@)] + spec_tokens(
                    s,
                    i + 2,
                )
            }
        } else {
            seq![(TokenType::InlineCode, "`"@)] + spec_tokens(s, i + 1)
        }
    } else if s[i] == '$' {
        if i + 1 < s.len() && s[i + 1] == '$' {
            seq![(TokenType::MathBlock, "$$"@)] + spec_tokens(s, i + 2)
        } else {
            seq![(TokenType::InlineMath, "$"@)] + spec_tokens(s, i + 1)
        }
    } else if s[i] == '\n' {
        seq![(TokenType::Newline, "\n"@)] + spec_tokens(s, i + 1)
    } else {
        seq![(TokenType::Text, s.subrange(i, text_end(s, i)))] + spec_tokens(s, text_end(s, i))
    }
}

#[via_fn]
proof fn spec_tokens_dec(s: Seq<char>, i: int) {
    if i < s.len() {
        if i + 2 < s.len() {
            lemma_line_break_range(s, i + 2);
        }
        if !is_special(s[i]) && i + 1 <= s.len() {
            lemma_text_end_range(s, i + 1);
        }
    }
}

/// Walks the input one character at a time, one character of lookahead.
pub struct Tokenizer<'a> {
    input: &'a str,
    pos: usize,
}

impl<'a> Tokenizer<'a> {
    /// The whole input.
    pub closed spec fn text(&self) -> Seq<char> {
        self.input@
    }

    /// The position of the character under the cursor.
    pub closed spec fn at(&self) -> int {
        self.pos as int
    }

    /// A tokenizer with its cursor on the first character.
    pub fn new(input: &'a str) -> (t: Self)
        ensures
            t.text() == input@,
            t.at() == 0,
    {
        Tokenizer { input, pos: 0 }
    }

    /// The character under the cursor, if the input has not run out.
    pub fn cursor(&self) -> (r: Option<char>)
        ensures
            r == if self.at() < self.text().len() {
                Some(self.text()[self.at()])
            } else {
                None::<char>
            },
    {
        let n = self.input.unicode_len();
        if self.pos < n {
            Some(self.input.get_char(self.pos))
        } else {
            None
        }
    }

    /// Moves the cursor one character on; at the end of the input it stays.
    pub fn advance(&mut self)
        ensures
            final(self).text() == old(self).text(),
            final(self).at() == if old(self).at() < old(self).text().len() {
                old(self).at() + 1
            } else {
                old(self).at()
            },
    {
        let n = self.input.unicode_len();
        if self.pos < n {
            self.pos = self.pos + 1;
        }
    }

    /// The character after the cursor, if any.
    pub fn peek(&self) -> (r: Option<char>)
        ensures
            r == if self.at() + 1 < self.text().len() {
                Some(self.text()[self.at() + 1])
            } else {
                None::<char>
            },
    {
        let n = self.input.unicode_len();
        if self.pos < n && self.pos + 1 < n {
            Some(self.input.get_char(self.pos + 1))
        } else {
            None
        }
    }

    /// Tokenizes from the cursor to the end of the input, as
    /// [`spec_tokens`] says, leaving the cursor there.
    pub fn tokenize(&mut self) -> (r: Vec<Token>)
        ensures
            r@.map_values(|t: Token| token_model(t)) == spec_tokens(
                old(self).text(),
                old(self).at(),
            ),
            final(self).text() == old(self).text(),
    {
        let s = self.input;
        let ghost sv = s@;
        let n = s.unicode_len();
        let mut toks: Vec<Token> = Vec::new();
        if self.pos >= n {
            toks.push(Token { token_type: TokenType::Eof, value: String::from_str("") });
            proof {
                assert(toks@.map_values(|t: Token| token_model(t)) =~= spec_tokens(
                    sv,
                    old(self).at(),
                ));
            }
            return toks;
        }
        while self.pos < n
            invariant
                self.input@ == sv,
                s@ == sv,
                n == sv.len(),
                0 <= self.pos <= n,
                toks@.map_values(|t: Token| token_model(t)) + spec_tokens(sv, self.at())
                    == spec_tokens(sv, old(self).at()),
            ensures
                self.input@ == sv,
                self.pos == n,
                toks@.map_values(|t: Token| token_model(t)) + spec_tokens(sv, self.at())
                    == spec_tokens(sv, old(self).at()),
            decreases n - self.pos,
        {
            let ghost p0 = self.at();
            let ghost m0 = toks@.map_values(|t: Token| token_model(t));
            let c = s.get_char(self.pos);
            if c == '_' {
                self.pos = self.pos + 1;
                toks.push(Token { token_type: TokenType::Italic, value: String::from_str("_") });
                proof {
                    assert(toks@.map_values(|t: Token| token_model(t)) =~= m0 + seq![
                        (TokenType::Italic, "_"@),
                    ]);
                    assert(m0 + seq![(TokenType::Italic, "_"@)] + spec_tokens(sv, self.at()) =~= m0
                        + spec_tokens(sv, p0));
                }
            } else if c == '*' {
                if self.pos + 1 < n {
                    if s.get_char(self.pos + 1) == '*' {
                        self.pos = self.pos + 2;
                        toks.push(
                            Token { token_type: TokenType::Bold, value: String::from_str("**") },
                        );
                        proof {
                            assert(toks@.map_values(|t: Token| token_model(t)) =~= m0 + seq![
                                (TokenType::Bold, "**"@),
                            ]);
                            assert(m0 + seq![(TokenType::Bold, "**"@)] + spec_tokens(sv, self.at())
                                =~= m0 + spec_tokens(sv, p0));
                        }
                    } else {
                        self.pos = self.pos + 1;
                        toks.push(
                            Token { token_type: TokenType::Text, value: String::from_str("*") },
                        );
                        proof {
                            assert(toks@.map_values(|t: Token| token_model(t)) =~= m0 + seq![
                                (TokenType::Text, "*"@),
                            ]);
                            assert(m0 + seq![(TokenType::Text, "*"@)] + spec_tokens(sv, self.at())
                                =~= m0 + spec_tokens(sv, p0));
                        }
                    }
                } else {
                    self.pos = self.pos + 1;
                    proof {
                        assert(toks@.map_values(|t: Token| token_model(t)) + spec_tokens(
                            sv,
                            self.at(),
                        ) =~= m0 + spec_tokens(sv, p0));
                    }
                }
            } else if c == '`' {
                if self.pos + 1 < n && s.get_char(self.pos + 1) == '`' {
                    if self.pos + 2 < n && s.get_char(self.pos + 2) == '`' {
                        let mut j = self.pos + 2;
                        while j < n && s.get_char(j) != '\n'
                            invariant
                                self.input@ == sv,
                                s@ == sv,
                                n == sv.len(),
                                p0 + 2 <= j <= n,
                                forall|k: int| p0 + 2 <= k < j ==> sv[k] != '\n',
                            decreases n - j,
                        {
                            j = j + 1;
                        }
                        proof {
                            lemma_line_break_exact(sv, p0 + 2, j as int);
                        }
                        self.pos = j;
                        toks.push(
                            Token {
                                token_type: TokenType::CodeBlock,
                                value: String::from_str("```"),
                            },
                        );
                        proof {
                            assert(toks@.map_values(|t: Token| token_model(t)) =~= m0 + seq![
                                (TokenType::CodeBlock, "```"@),
                            ]);
                            assert(m0 + seq![(TokenType::CodeBlock, "```"@)] + spec_tokens(
                                sv,
                                self.at(),
                            ) =~= m0 + spec_tokens(sv, p0));
                        }
                    } else {
                        self.pos = self.pos + 2;
                        toks.push(
                            Token {
                                token_type: TokenType::InlineCode,
                                value: String::from_str("`"),
                            },
                        );
                        toks.push(
                            Token {
                                token_type: TokenType::InlineCode,
                                value: String::from_str("`"),
                            },
                        );
                        proof {
                            assert(toks@.map_values(|t: Token| token_model(t)) =~= m0 + seq![
                                (TokenType::InlineCode, "`"@),
                                (TokenType::InlineCode, "`"@),
                            ]);
                            assert(m0 + seq![
                                (TokenType::InlineCode, "`"@),
                                (TokenType::InlineCode, "`"@),
                            ] + spec_tokens(sv, self.at()) =~= m0 + spec_tokens(sv, p0));
                        }
                    }
                } else {
                    self.pos = self.pos + 1;
                    toks.push(
                        Token { token_type: TokenType::InlineCode, value: String::from_str("`") },
                    );
                    proof {
                        assert(toks@.map_values(|t: Token| token_model(t)) =~= m0 + seq![
                            (TokenType::InlineCode, "`"@),
                        ]);
                        assert(m0 + seq![(TokenType::InlineCode, "`"@)] + spec_tokens(
                            sv,
                            self.at(),
                        ) =~= m0 + spec_tokens(sv, p0));
                    }
                }
            } else if c == '$' {
                if self.pos + 1 < n && s.get_char(self.pos + 1) == '$' {
                    self.pos = self.pos + 2;
                    toks.push(
                        Token { token_type: TokenType::MathBlock, value: String::from_str("$$") },
                    );
                    proof {
                        assert(toks@.map_values(|t: Token| token_model(t)) =~= m0 + seq![
                            (TokenType::MathBlock, "$$"@),
                        ]);
                        assert(m0 + seq![(TokenType::MathBlock, "$$"@)] + spec_tokens(
                            sv,
                            self.at(),
                        ) =~= m0 + spec_tokens(sv, p0));
                    }
                } else {
                    self.pos = self.pos + 1;
                    toks.push(
                        Token { token_type: TokenType::InlineMath, value: String::from_str("$") },
                    );
                    proof {
                        assert(toks@.map_values(|t: Token| token_model(t)) =~= m0 + seq![
                            (TokenType::InlineMath, "$"@),
                        ]);
                        assert(m0 + seq![(TokenType::InlineMath, "$"@)] + spec_tokens(
                            sv,
                            self.at(),
                        ) =~= m0 + spec_tokens(sv, p0));
                    }
                }
            } else if c == '\n' {
                self.pos = self.pos + 1;
                toks.push(Token { token_type: TokenType::Newline, value: String::from_str("\n") });
                proof {
                    assert(toks@.map_values(|t: Token| token_model(t)) =~= m0 + seq![
                        (TokenType::Newline, "\n"@),
                    ]);
                    assert(m0 + seq![(TokenType::Newline, "\n"@)] + spec_tokens(sv, self.at()) =~=
                        m0 + spec_tokens(sv, p0));
                }
            } else {
                proof {
                    assert(!is_special(sv[p0]));
                }
                let mut j = self.pos;
                while j < n && !is_special_char(s.get_char(j))
                    invariant
                        self.input@ == sv,
                        s@ == sv,
                        n == sv.len(),
                        p0 <= j <= n,
                        forall|k: int| p0 <= k < j ==> !is_special(sv[k]),
                    decreases n - j,
                {
                    j = j + 1;
                }
                proof {
                    lemma_text_end_exact(sv, p0, j as int);
                }
                let value = String::from_str(s.substring_char(self.pos, j));
                self.pos = j;
                toks.push(Token { token_type: TokenType::Text, value });
                proof {
                    assert(toks@.map_values(|t: Token| token_model(t)) =~= m0 + seq![
                        (TokenType::Text, sv.subrange(p0, text_end(sv, p0))),
                    ]);
                    assert(m0 + seq![(TokenType::Text, sv.subrange(p0, text_end(sv, p0)))]
                        + spec_tokens(sv, self.at()) =~= m0 + spec_tokens(sv, p0));
                }
            }
        }
        toks.push(Token { token_type: TokenType::Eof, value: String::from_str("") });
        proof {
            assert(spec_tokens(sv, self.at()) =~= seq![(TokenType::Eof, ""@)]);
            assert(toks@.map_values(|t: Token| token_model(t)) =~= spec_tokens(
                sv,
                old(self).at(),
            ));
        }
        toks
    }
}

/// Whether `c` starts a marker (or breaks a text run).
fn is_special_char(c: char) -> (r: bool)
    ensures
        r == is_special(c),
{
    c == '*' || c == '`' || c == '$' || c == '_' || c == '\n'
}

} // verus!
