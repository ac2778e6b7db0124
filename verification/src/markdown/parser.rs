//! Styling markdown tokens into display spans.
//!
//! A marker token opens a styled section that runs to the next token of the
//! same kind: emphasis and bold sections style their text like their
//! markers, code and math sections embolden their text and leave the fences
//! plain.  Text and newlines outside any section stay plain, and an
//! unclosed section runs to the end of the input.

use vstd::prelude::*;

use crate::markdown::tokenizer::{token_model, Token, TokenType};

verus! {

/// How a span is styled.
#[derive(Debug, Clone, Copy, PartialEq, Eq, Structural)]
pub enum SpanStyle {
    /// No styling.
    Plain,
    /// Bold text.
    Bold,
    /// Italic text.
    Italic,
}

/// One styled span of display text.
#[derive(Debug, PartialEq)]
pub struct Span {
    /// The text.
    pub text: String,
    /// Its styling.
    pub style: SpanStyle,
}

/// A span's mathematical image.
pub open spec fn span_model(sp: Span) -> (Seq<char>, SpanStyle) {
    (sp.text@, sp.style)
}

/// Whether a token opens a styled section.
pub open spec fn is_marker(t: TokenType) -> bool {
    ||| t == TokenType::Bold
    ||| t == TokenType::Italic
    ||| t == TokenType::InlineCode
    ||| t == TokenType::CodeBlock
    ||| t == TokenType::InlineMath
    ||| t == TokenType::MathBlock
}

/// The styles a section marker assigns: to the section's text, and to the
/// marker itself.
pub open spec fn spec_marker_styles(t: TokenType) -> (SpanStyle, SpanStyle) {
    match t {
        TokenType::Bold => (SpanStyle::Bold, SpanStyle::Bold),
        TokenType::Italic => (SpanStyle::Italic, SpanStyle::Italic),
        _ => (SpanStyle::Bold, SpanStyle::Plain),
    }
}

/// The first token of kind `end` at or after `i`, or the end of the run.
pub open spec fn sect_end(toks: Seq<(TokenType, Seq<char>)>, i: int, end: TokenType) -> int
    decreases toks.len() - i,
{
    if i >= toks.len() {
        i
    } else if toks[i].0 == end {
        i
    } else {
        sect_end(toks, i + 1, end)
    }
}

/// The section's end never moves backward and never leaves the run.
pub proof fn lemma_sect_end_range(toks: Seq<(TokenType, Seq<char>)>, i: int, end: TokenType)
    requires
        i <= toks.len(),
    ensures
        i <= sect_end(toks, i, end) <= toks.len(),
    decreases toks.len() - i,
{
    if i < toks.len() && toks[i].0 != end {
        lemma_sect_end_range(toks, i + 1, end);
    }
}

/// The section's end is wherever the first closing token sits.
pub proof fn lemma_sect_end_exact(
    toks: Seq<(TokenType, Seq<char>)>,
    i: int,
    j: int,
    end: TokenType,
)
    requires
        0 <= i <= j <= toks.len(),
        forall|k: int| i <= k < j ==> toks[k].0 != end,
        j == toks.len() || toks[j].0 == end,
    ensures
        sect_end(toks, i, end) == j,
    decreases j - i,
{
    if i < j {
        lemma_sect_end_exact(toks, i + 1, j, end);
    }
}

/// The values of the tokens in `[i, j)`, each under the one style.
pub open spec fn styled_run(
    toks: Seq<(TokenType, Seq<char>)>,
    i: int,
    j: int,
    style: SpanStyle,
) -> Seq<(Seq<char>, SpanStyle)>
    decreases j - i,
{
    if i >= j {
        Seq::empty()
    } else {
        seq![(toks[i].1, style)] + styled_run(toks, i + 1, j, style)
    }
}

/// Extending a styled run by one token appends one span.
pub proof fn lemma_styled_run_snoc(
    toks: Seq<(TokenType, Seq<char>)>,
    i: int,
    j: int,
    style: SpanStyle,
)
    requires
        i <= j,
    ensures
        styled_run(toks, i, j + 1, style) == styled_run(toks, i, j, style) + seq![
            (toks[j].1, style),
        ],
    decreases j - i,
{
    if i < j {
        lemma_styled_run_snoc(toks, i + 1, j, style);
        assert(styled_run(toks, i, j + 1, style) =~= styled_run(toks, i, j, style) + seq![
            (toks[j].1, style),
        ]);
    } else {
        assert(styled_run(toks, i + 1, j + 1, style) =~= Seq::<(Seq<char>, SpanStyle)>::empty());
        assert(styled_run(toks, i, j + 1, style) =~= seq![(toks[j].1, style)]);
        assert(styled_run(toks, i, j, style) =~= Seq::<(Seq<char>, SpanStyle)>::empty());
        assert(styled_run(toks, i, j, style) + seq![(toks[j].1, style)] =~= seq![
            (toks[j].1, style),
        ]);
    }
}

/// The styled spans of the tokens from `i` on: each section's marker, its
/// text, and its closing marker if it has one; plain spans between
/// sections; nothing at or after the end-of-input token.
pub open spec fn spec_parse(toks: Seq<(TokenType, Seq<char>)>, i: int) -> Seq<
    (Seq<char>, SpanStyle),
>
    decreases toks.len() - i, 0int,
    via spec_parse_dec
{
    if i >= toks.len() {
        Seq::empty()
    } else if toks[i].0 == TokenType::Eof {
        Seq::empty()
    } else if is_marker(toks[i].0) {
        let (ts, ms) = spec_marker_styles(toks[i].0);
        let e = sect_end(toks, i + 1, toks[i].0);
        let head = seq![(toks[i].1, ms)] + styled_run(toks, i + 1, e, ts);
        if e < toks.len() {
            head + seq![(toks[e].1, ms)] + spec_parse(toks, e + 1)
        } else {
            head
        }
    } else {
        seq![(toks[i].1, SpanStyle::Plain)] + spec_parse(toks, i + 1)
    }
}

#[via_fn]
proof fn spec_parse_dec(toks: Seq<(TokenType, Seq<char>)>, i: int) {
    if i < toks.len() {
        lemma_sect_end_range(toks, i + 1, toks[i].0);
    }
}

/// Whether a token opens a styled section.
fn is_marker_token(t: TokenType) -> (r: bool)
    ensures
        r == is_marker(t),
{
    match t {
        TokenType::Bold => true,
        TokenType::Italic => true,
        TokenType::InlineCode => true,
        TokenType::CodeBlock => true,
        TokenType::InlineMath => true,
        TokenType::MathBlock => true,
        _ => false,
    }
}

/// The styles a section marker assigns: to the section's text, and to the
/// marker itself.
fn marker_styles(t: TokenType) -> (r: (SpanStyle, SpanStyle))
    ensures
        r == spec_marker_styles(t),
{
    match t {
        TokenType::Bold => (SpanStyle::Bold, SpanStyle::Bold),
        TokenType::Italic => (SpanStyle::Italic, SpanStyle::Italic),
        _ => (SpanStyle::Bold, SpanStyle::Plain),
    }
}

/// Walks a run of tokens, one token under the cursor.
pub struct Parser<'a> {
    tokens: &'a Vec<Token>,
    pos: usize,
}

impl<'a> Parser<'a> {
    /// The images of all tokens.
    pub closed spec fn toks(&self) -> Seq<(TokenType, Seq<char>)> {
        self.tokens@.map_values(|t: Token| token_model(t))
    }

    /// The position of the token under the cursor.
    pub closed spec fn at(&self) -> int {
        self.pos as int
    }

    /// A parser with its cursor on the first token.
    pub fn new(tokens: &'a Vec<Token>) -> (p: Self)
        ensures
            p.toks() == tokens@.map_values(|t: Token| token_model(t)),
            p.at() == 0,
    {
        Parser { tokens, pos: 0 }
    }

    /// Moves the cursor one token on; at the end of the run it stays.
    pub fn advance(&mut self)
        ensures
            final(self).toks() == old(self).toks(),
            final(self).at() == if old(self).at() < old(self).toks().len() {
                old(self).at() + 1
            } else {
                old(self).at()
            },
    {
        if self.pos < self.tokens.len() {
            self.pos = self.pos + 1;
        }
    }

    /// Styles the tokens from the cursor on into display spans, as
    /// [`spec_parse`] says, leaving the cursor where it stopped.
    pub fn parse(&mut self) -> (r: Vec<Span>)
        ensures
            r@.map_values(|sp: Span| span_model(sp)) == spec_parse(
                old(self).toks(),
                old(self).at(),
            ),
            final(self).toks() == old(self).toks(),
    {
        let tv = self.tokens;
        let ghost toks = self.toks();
        let n = tv.len();
        let mut spans: Vec<Span> = Vec::new();
        if self.pos >= n {
            proof {
                assert(spans@.map_values(|sp: Span| span_model(sp)) =~= spec_parse(
                    toks,
                    old(self).at(),
                ));
            }
            return spans;
        }
        proof {
            assert(spans@.map_values(|sp: Span| span_model(sp)) + spec_parse(toks, self.at()) =~=
                spec_parse(toks, old(self).at()));
        }
        while self.pos < n
            invariant
                self.tokens == tv,
                n == tv@.len(),
                toks == tv@.map_values(|t: Token| token_model(t)),
                toks == self.toks(),
                toks.len() == n,
                0 <= self.pos <= n,
                spans@.map_values(|sp: Span| span_model(sp)) + spec_parse(toks, self.at())
                    == spec_parse(toks, old(self).at()),
            ensures
                self.tokens == tv,
                spans@.map_values(|sp: Span| span_model(sp)) + spec_parse(toks, self.at())
                    == spec_parse(toks, old(self).at()),
                self.pos >= n || tv@[self.at()].token_type == TokenType::Eof,
            decreases n - self.pos,
        {
            let ghost p0 = self.at();
            let ghost m0 = spans@.map_values(|sp: Span| span_model(sp));
            let kind = tv[self.pos].token_type;
            if kind == TokenType::Eof {
                break ;
            }
            if is_marker_token(kind) {
                let (ts, ms) = marker_styles(kind);
                spans.push(Span { text: tv[self.pos].value.clone(), style: ms });
                self.pos = self.pos + 1;
                let ghost start = self.at();
                proof {
                    assert(styled_run(toks, start, start, ts) =~= Seq::<
                        (Seq<char>, SpanStyle),
                    >::empty());
                    assert(spans@.map_values(|sp: Span| span_model(sp)) =~= m0 + seq![
                        (toks[p0].1, ms),
                    ]);
                    assert(spans@.map_values(|sp: Span| span_model(sp)) =~= m0 + (seq![
                        (toks[p0].1, ms),
                    ] + styled_run(toks, start, start, ts)));
                }
                while self.pos < n && tv[self.pos].token_type != kind
                    invariant
                        self.tokens == tv,
                        n == tv@.len(),
                        toks == tv@.map_values(|t: Token| token_model(t)),
                        toks == self.toks(),
                        toks.len() == n,
                        start <= self.pos <= n,
                        forall|k: int| start <= k < self.at() ==> toks[k].0 != kind,
                        spans@.map_values(|sp: Span| span_model(sp)) =~= m0 + (seq![
                            (toks[p0].1, ms),
                        ] + styled_run(toks, start, self.at(), ts)),
                    decreases n - self.pos,
                {
                    let ghost before = self.at();
                    let ghost mprev = spans@.map_values(|sp: Span| span_model(sp));
                    spans.push(Span { text: tv[self.pos].value.clone(), style: ts });
                    self.pos = self.pos + 1;
                    proof {
                        lemma_styled_run_snoc(toks, start, before, ts);
                        assert(toks[before] == token_model(tv@[before]));
                        assert(spans@.map_values(|sp: Span| span_model(sp)) =~= mprev.push(
                            (toks[before].1, ts),
                        ));
                        assert(m0 + (seq![(toks[p0].1, ms)] + styled_run(
                            toks,
                            start,
                            before + 1,
                            ts,
                        )) =~= mprev.push((toks[before].1, ts)));
                        assert(spans@.map_values(|sp: Span| span_model(sp)) =~= m0 + (seq![
                            (toks[p0].1, ms),
                        ] + styled_run(toks, start, self.at(), ts)));
                    }
                }
                proof {
                    lemma_sect_end_exact(toks, start, self.at(), kind);
                }
                if self.pos < n {
                    spans.push(Span { text: tv[self.pos].value.clone(), style: ms });
                    self.pos = self.pos + 1;
                    proof {
                        assert(spans@.map_values(|sp: Span| span_model(sp)) =~= m0 + (seq![
                            (toks[p0].1, ms),
                        ] + styled_run(toks, start, self.at() - 1, ts)) + seq![
                            (toks[self.at() - 1].1, ms),
                        ]);
                        assert(spans@.map_values(|sp: Span| span_model(sp)) + spec_parse(
                            toks,
                            self.at(),
                        ) =~= m0 + spec_parse(toks, p0));
                    }
                } else {
                    proof {
                        assert(spec_parse(toks, self.at()) =~= Seq::<(Seq<char>, SpanStyle)>::empty());
                        assert(spans@.map_values(|sp: Span| span_model(sp)) + spec_parse(
                            toks,
                            self.at(),
                        ) =~= m0 + spec_parse(toks, p0));
                    }
                }
            } else {
                spans.push(Span { text: tv[self.pos].value.clone(), style: SpanStyle::Plain });
                self.pos = self.pos + 1;
                proof {
                    assert(spans@.map_values(|sp: Span| span_model(sp)) =~= m0 + seq![
                        (toks[p0].1, SpanStyle::Plain),
                    ]);
                    assert(spans@.map_values(|sp: Span| span_model(sp)) + spec_parse(
                        toks,
                        self.at(),
                    ) =~= m0 + spec_parse(toks, p0));
                }
            }
        }
        proof {
            assert(spec_parse(toks, self.at()) =~= Seq::<(Seq<char>, SpanStyle)>::empty());
            assert(spans@.map_values(|sp: Span| span_model(sp)) + spec_parse(toks, self.at())
                =~= spans@.map_values(|sp: Span| span_model(sp)));
        }
        spans
    }
}

} // verus!
