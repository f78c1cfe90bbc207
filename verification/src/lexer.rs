//! Lexical analysis: source bytes to a stream of positioned tokens.
//!
//! Comments run from a semicolon to the end of the line; they and
//! intra-line whitespace (space, tab, carriage return) contribute no
//! tokens. Line feeds are statement separators and are tokens. Numeric
//! literals are decimal digit runs or `$`-prefixed hexadecimal runs and
//! must fit in 16 bits. The whole lexing is pinned by the spec function
//! [`lex_from`]; the executable [`lex`] returns exactly its value.

use vstd::prelude::*;
use crate::ast::{Span, NumberLiteralBase};

verus! {

/// One lexical token class. Identifier tokens carry no name: the name is
/// the source range of the token's span.
#[derive(Clone, Copy, PartialEq, Eq, Structural, Debug)]
pub enum TokenKind {
    /// An identifier: a letter or underscore, then letters, digits,
    /// underscores.
    Name,
    /// A numeric literal, already reduced to its 16-bit value and the
    /// literal form the source used.
    Number { value: u16, base: NumberLiteralBase },
    /// The immediate-operand sigil `#`.
    ImmediateMark,
    /// The label-assignment sigil `:=`.
    AssignMark,
    /// The label colon `:`.
    ColonMark,
    /// A line feed: the statement separator.
    LineBreak,
}

/// A token plus the byte-offset extent it was read from.
#[derive(Clone, Copy, PartialEq, Eq, Structural, Debug)]
pub struct Token {
    pub kind: TokenKind,
    pub span: Span,
}

/// A lexical fault, carrying the offending position or span.
#[derive(Clone, Copy, PartialEq, Eq, Structural, Debug)]
pub enum LexError {
    /// No token form starts at this byte offset.
    InvalidToken { position: usize },
    /// A numeric literal whose value does not fit in 16 bits.
    NumberTooLarge { span: Span },
}

/// Intra-line whitespace: space, tab, carriage return.
pub open spec fn is_line_ws(b: u8) -> bool {
    b == 32 || b == 9 || b == 13
}

/// A decimal digit byte.
pub open spec fn is_digit(b: u8) -> bool {
    48 <= b <= 57
}

/// A byte that can start an identifier.
pub open spec fn is_ident_start(b: u8) -> bool {
    (97 <= b <= 122) || (65 <= b <= 90) || b == 95
}

/// A byte that can continue an identifier.
pub open spec fn is_ident_continue(b: u8) -> bool {
    is_ident_start(b) || is_digit(b)
}

/// A hexadecimal digit byte, either case.
pub open spec fn is_hex_digit(b: u8) -> bool {
    is_digit(b) || (97 <= b <= 102) || (65 <= b <= 70)
}

/// The value of a digit byte (0 for non-digits below `'0'`).
pub open spec fn digit_value(b: u8) -> nat {
    if 48 <= b { (b - 48) as nat } else { 0 }
}

/// The value of a hexadecimal digit byte.
pub open spec fn hex_digit_value(b: u8) -> nat {
    if is_digit(b) {
        (b - 48) as nat
    } else if 97 <= b <= 102 {
        (b - 87) as nat
    } else if 65 <= b <= 70 {
        (b - 55) as nat
    } else {
        0
    }
}

/// The first offset at or after `i` that no whitespace or comment
/// covers: the scan consumes whitespace, and from a semicolon everything
/// up to (not including) the next line feed.
pub open spec fn trivia_end(s: Seq<u8>, i: int, in_comment: bool) -> int
    decreases s.len() - i,
{
    if i < 0 || i >= s.len() {
        i
    } else if in_comment {
        if s[i] == 10 {
            i
        } else {
            trivia_end(s, i + 1, true)
        }
    } else if is_line_ws(s[i]) {
        trivia_end(s, i + 1, false)
    } else if s[i] == 59 {
        trivia_end(s, i + 1, true)
    } else {
        i
    }
}

pub proof fn lemma_trivia_end_bounds(s: Seq<u8>, i: int, in_comment: bool)
    requires
        0 <= i <= s.len(),
    ensures
        i <= trivia_end(s, i, in_comment) <= s.len(),
    decreases s.len() - i,
{
    if i < s.len() {
        if in_comment {
            if s[i] != 10 {
                lemma_trivia_end_bounds(s, i + 1, true);
            }
        } else if is_line_ws(s[i]) {
            lemma_trivia_end_bounds(s, i + 1, false);
        } else if s[i] == 59 {
            lemma_trivia_end_bounds(s, i + 1, true);
        }
    }
}

/// The first offset at or after `i` whose byte does not continue an
/// identifier.
pub open spec fn ident_end(s: Seq<u8>, i: int) -> int
    decreases s.len() - i,
{
    if 0 <= i < s.len() && is_ident_continue(s[i]) {
        ident_end(s, i + 1)
    } else {
        i
    }
}

pub proof fn lemma_ident_end_bounds(s: Seq<u8>, i: int)
    requires
        0 <= i <= s.len(),
    ensures
        i <= ident_end(s, i) <= s.len(),
    decreases s.len() - i,
{
    if i < s.len() && is_ident_continue(s[i]) {
        lemma_ident_end_bounds(s, i + 1);
    }
}

/// The first offset at or after `i` whose byte is no decimal digit.
pub open spec fn dec_end(s: Seq<u8>, i: int) -> int
    decreases s.len() - i,
{
    if 0 <= i < s.len() && is_digit(s[i]) {
        dec_end(s, i + 1)
    } else {
        i
    }
}

pub proof fn lemma_dec_end_bounds(s: Seq<u8>, i: int)
    requires
        0 <= i <= s.len(),
    ensures
        i <= dec_end(s, i) <= s.len(),
    decreases s.len() - i,
{
    if i < s.len() && is_digit(s[i]) {
        lemma_dec_end_bounds(s, i + 1);
    }
}

/// The first offset at or after `i` whose byte is no hexadecimal digit.
pub open spec fn hex_end(s: Seq<u8>, i: int) -> int
    decreases s.len() - i,
{
    if 0 <= i < s.len() && is_hex_digit(s[i]) {
        hex_end(s, i + 1)
    } else {
        i
    }
}

pub proof fn lemma_hex_end_bounds(s: Seq<u8>, i: int)
    requires
        0 <= i <= s.len(),
    ensures
        i <= hex_end(s, i) <= s.len(),
    decreases s.len() - i,
{
    if i < s.len() && is_hex_digit(s[i]) {
        lemma_hex_end_bounds(s, i + 1);
    }
}

/// The value of the decimal digit run `s[start..end)`.
pub open spec fn dec_value(s: Seq<u8>, start: int, end: int) -> nat
    decreases end - start,
{
    if end <= start {
        0
    } else {
        dec_value(s, start, end - 1) * 10 + digit_value(s[end - 1])
    }
}

/// The value of the hexadecimal digit run `s[start..end)`.
pub open spec fn hex_value(s: Seq<u8>, start: int, end: int) -> nat
    decreases end - start,
{
    if end <= start {
        0
    } else {
        hex_value(s, start, end - 1) * 16 + hex_digit_value(s[end - 1])
    }
}

/// Prepends a token to the token stream of a lexing that may have
/// failed; a failure stands.
pub open spec fn cons_token(t: Token, r: Result<Seq<Token>, LexError>) -> Result<
    Seq<Token>,
    LexError,
> {
    match r {
        Ok(rest) => Ok(seq![t] + rest),
        Err(e) => Err(e),
    }
}

/// The token stream of `s` from offset `i` on, or the first lexical
/// fault. This is the whole lexing, pinned: one token per leading
/// non-trivia form, longest match for identifiers and digit runs, `:=`
/// before `:`, and a 16-bit bound on every numeric literal.
pub open spec fn lex_from(s: Seq<u8>, i: int) -> Result<Seq<Token>, LexError>
    decreases s.len() - i,
    via lex_from_decreases
{
    if i < 0 {
        Ok(Seq::empty())
    } else {
        let j = trivia_end(s, i, false);
        if j >= s.len() {
            Ok(Seq::empty())
        } else {
            let b = s[j];
            if b == 10 {
                cons_token(
                    Token { kind: TokenKind::LineBreak, span: spec_span(j, j + 1) },
                    lex_from(s, j + 1),
                )
            } else if b == 35 {
                cons_token(
                    Token { kind: TokenKind::ImmediateMark, span: spec_span(j, j + 1) },
                    lex_from(s, j + 1),
                )
            } else if b == 58 {
                if j + 1 < s.len() && s[j + 1] == 61 {
                    cons_token(
                        Token { kind: TokenKind::AssignMark, span: spec_span(j, j + 2) },
                        lex_from(s, j + 2),
                    )
                } else {
                    cons_token(
                        Token { kind: TokenKind::ColonMark, span: spec_span(j, j + 1) },
                        lex_from(s, j + 1),
                    )
                }
            } else if is_ident_start(b) {
                let e = ident_end(s, j + 1);
                cons_token(Token { kind: TokenKind::Name, span: spec_span(j, e) }, lex_from(s, e))
            } else if is_digit(b) {
                let e = dec_end(s, j);
                let v = dec_value(s, j, e);
                if v > 0xffff {
                    Err(LexError::NumberTooLarge { span: spec_span(j, e) })
                } else {
                    cons_token(
                        Token {
                            kind: TokenKind::Number {
                                value: v as u16,
                                base: NumberLiteralBase::Decimal,
                            },
                            span: spec_span(j, e),
                        },
                        lex_from(s, e),
                    )
                }
            } else if b == 36 {
                let e = hex_end(s, j + 1);
                if e == j + 1 {
                    Err(LexError::InvalidToken { position: j as usize })
                } else {
                    let v = hex_value(s, j + 1, e);
                    if v > 0xffff {
                        Err(LexError::NumberTooLarge { span: spec_span(j, e) })
                    } else {
                        cons_token(
                            Token {
                                kind: TokenKind::Number {
                                    value: v as u16,
                                    base: NumberLiteralBase::Hexadecimal,
                                },
                                span: spec_span(j, e),
                            },
                            lex_from(s, e),
                        )
                    }
                }
            } else {
                Err(LexError::InvalidToken { position: j as usize })
            }
        }
    }
}

#[via_fn]
proof fn lex_from_decreases(s: Seq<u8>, i: int) {
    if 0 <= i <= s.len() {
        lemma_trivia_end_bounds(s, i, false);
        let j = trivia_end(s, i, false);
        if j < s.len() {
            lemma_ident_end_bounds(s, j + 1);
            lemma_dec_end_bounds(s, j + 1);
            lemma_hex_end_bounds(s, j + 1);
            if is_digit(s[j]) {
                assert(dec_end(s, j) == dec_end(s, j + 1));
            }
        }
    }
}

/// A span built in spec position from scan offsets.
pub open spec fn spec_span(start: int, end: int) -> Span {
    Span { start: start as usize, end: end as usize }
}

/// The token stream of the whole source, or the first lexical fault.
pub open spec fn lex_spec(s: Seq<u8>) -> Result<Seq<Token>, LexError> {
    lex_from(s, 0)
}

/// Well-formedness of one token against a source of `n` bytes: a
/// token covers at least one byte and lies within the source.
pub open spec fn token_wf(t: Token, n: int) -> bool {
    t.span.start < t.span.end <= n
}

/// Well-formedness of a token stream: every token well formed, and the
/// stream in source order, extents not overlapping.
pub open spec fn tokens_wf(ts: Seq<Token>, n: int) -> bool {
    &&& forall|k: int| 0 <= k < ts.len() ==> #[trigger] token_wf(ts[k], n)
    &&& forall|k: int| 0 < k < ts.len() ==> ts[k - 1].span.end <= #[trigger] ts[k].span.start
}

/// The loop relation of the executable lexer: what was emitted so far,
/// plus the lexing of the rest, is the lexing of the whole.
pub open spec fn lex_partial(s: Seq<u8>, i: int, done: Seq<Token>) -> bool {
    match lex_from(s, i) {
        Ok(rest) => lex_from(s, 0) == Ok::<Seq<Token>, LexError>(done + rest),
        Err(e) => lex_from(s, 0) == Err::<Seq<Token>, LexError>(e),
    }
}

fn byte_is_line_ws(b: u8) -> (r: bool)
    ensures
        r == is_line_ws(b),
{
    b == 32 || b == 9 || b == 13
}

fn byte_is_digit(b: u8) -> (r: bool)
    ensures
        r == is_digit(b),
{
    48 <= b && b <= 57
}

fn byte_is_ident_start(b: u8) -> (r: bool)
    ensures
        r == is_ident_start(b),
{
    (97 <= b && b <= 122) || (65 <= b && b <= 90) || b == 95
}

fn byte_is_ident_continue(b: u8) -> (r: bool)
    ensures
        r == is_ident_continue(b),
{
    byte_is_ident_start(b) || byte_is_digit(b)
}

fn byte_is_hex_digit(b: u8) -> (r: bool)
    ensures
        r == is_hex_digit(b),
{
    byte_is_digit(b) || (97 <= b && b <= 102) || (65 <= b && b <= 70)
}

fn byte_hex_value(b: u8) -> (r: u8)
    requires
        is_hex_digit(b),
    ensures
        r as nat == hex_digit_value(b),
{
    if 48 <= b && b <= 57 {
        b - 48
    } else if 97 <= b {
        b - 87
    } else {
        b - 55
    }
}

/// Lexes the whole source. Returns exactly the token stream that
/// [`lex_spec`] gives, or exactly its fault; a returned stream is well
/// formed against the source length.
pub fn lex(src: &Vec<u8>) -> (r: Result<Vec<Token>, LexError>)
    ensures
        match r {
            Ok(tokens) => lex_spec(src@) == Ok::<Seq<Token>, LexError>(tokens@) && tokens_wf(
                tokens@,
                src@.len() as int,
            ),
            Err(e) => lex_spec(src@) == Err::<Seq<Token>, LexError>(e),
        },
{
    let n = src.len();
    let mut i: usize = 0;
    let mut tokens: Vec<Token> = Vec::new();
    let ghost s = src@;
    proof {
        if lex_from(s, 0) is Ok {
            assert(tokens@ + lex_from(s, 0)->Ok_0 =~= lex_from(s, 0)->Ok_0);
        }
        assert(lex_partial(s, 0, tokens@));
    }
    loop
        invariant
            n == s.len(),
            s == src@,
            i <= n,
            lex_partial(s, i as int, tokens@),
            tokens_wf(tokens@, n as int),
            tokens@.len() > 0 ==> tokens@.last().span.end <= i,
        decreases n - i,
    {
        let ghost ih = i as int;
        // Skip whitespace and comments.
        let mut in_comment = false;
        loop
            invariant
                n == s.len(),
                s == src@,
                ih <= i as int <= n,
                trivia_end(s, ih, false) == trivia_end(s, i as int, in_comment),
            ensures
                ih <= i as int <= n,
                trivia_end(s, ih, false) == i as int,
            decreases n - i,
        {
            if i >= n {
                break;
            }
            let b = src[i];
            if in_comment {
                if b == 10 {
                    break;
                }
                i = i + 1;
            } else if byte_is_line_ws(b) {
                i = i + 1;
            } else if b == 59 {
                in_comment = true;
                i = i + 1;
            } else {
                break;
            }
        }
        proof {
            assert(trivia_end(s, i as int, in_comment) == i as int);
            assert(trivia_end(s, ih, false) == i as int);
        }
        if i >= n {
            proof {
                assert(lex_from(s, ih) == Ok::<Seq<Token>, LexError>(Seq::empty()));
                assert(tokens@ + Seq::<Token>::empty() =~= tokens@);
            }
            return Ok(tokens);
        }
        let ghost j = i as int;
        let start = i;
        let b = src[i];
        let tok: Token;
        if b == 10 {
            i = i + 1;
            tok = Token { kind: TokenKind::LineBreak, span: Span { start, end: i } };
            proof {
                assert(lex_from(s, ih) == cons_token(tok, lex_from(s, i as int)));
            }
        } else if b == 35 {
            i = i + 1;
            tok = Token { kind: TokenKind::ImmediateMark, span: Span { start, end: i } };
            proof {
                assert(lex_from(s, ih) == cons_token(tok, lex_from(s, i as int)));
            }
        } else if b == 58 {
            if i + 1 < n && src[i + 1] == 61 {
                i = i + 2;
                tok = Token { kind: TokenKind::AssignMark, span: Span { start, end: i } };
            } else {
                i = i + 1;
                tok = Token { kind: TokenKind::ColonMark, span: Span { start, end: i } };
            }
            proof {
                assert(lex_from(s, ih) == cons_token(tok, lex_from(s, i as int)));
            }
        } else if byte_is_ident_start(b) {
            i = i + 1;
            loop
                invariant
                    n == s.len(),
                    s == src@,
                    j + 1 <= i as int <= n,
                    ident_end(s, j + 1) == ident_end(s, i as int),
                ensures
                    j + 1 <= i as int <= n,
                    ident_end(s, j + 1) == i as int,
                decreases n - i,
            {
                if i >= n {
                    break;
                }
                if !byte_is_ident_continue(src[i]) {
                    break;
                }
                i = i + 1;
            }
            proof {
                assert(ident_end(s, i as int) == i as int);
            }
            tok = Token { kind: TokenKind::Name, span: Span { start, end: i } };
            proof {
                assert(lex_from(s, ih) == cons_token(tok, lex_from(s, i as int)));
            }
        } else if byte_is_digit(b) {
            let mut value: u32 = 0;
            let mut too_big = false;
            loop
                invariant
                    n == s.len(),
                    s == src@,
                    j <= i as int <= n,
                    dec_end(s, j) == dec_end(s, i as int),
                    !too_big ==> value == dec_value(s, j, i as int) && value <= 0xffff,
                    too_big ==> dec_value(s, j, i as int) > 0xffff,
                ensures
                    j <= i as int <= n,
                    dec_end(s, j) == i as int,
                    !too_big ==> value == dec_value(s, j, i as int) && value <= 0xffff,
                    too_big ==> dec_value(s, j, i as int) > 0xffff,
                decreases n - i,
            {
                if i >= n {
                    break;
                }
                let c = src[i];
                if !byte_is_digit(c) {
                    break;
                }
                proof {
                    assert(dec_end(s, i as int) == dec_end(s, i as int + 1));
                    assert(dec_value(s, j, i as int + 1) == dec_value(s, j, i as int) * 10
                        + digit_value(c));
                }
                if too_big {
                    proof {
                        assert(dec_value(s, j, i as int) * 10 >= dec_value(s, j, i as int));
                    }
                } else {
                    let d: u32 = (c - 48) as u32;
                    let nv: u32 = value * 10 + d;
                    if nv > 0xffff {
                        too_big = true;
                    } else {
                        value = nv;
                    }
                }
                i = i + 1;
            }
            proof {
                assert(dec_end(s, i as int) == i as int);
                assert(dec_end(s, j) == i as int);
                assert(dec_end(s, j) == dec_end(s, j + 1));
                lemma_dec_end_bounds(s, j + 1);
            }
            if too_big {
                let err = LexError::NumberTooLarge { span: Span { start, end: i } };
                proof {
                    assert(lex_from(s, ih) == Err::<Seq<Token>, LexError>(err));
                }
                return Err(err);
            }
            tok = Token {
                kind: TokenKind::Number { value: value as u16, base: NumberLiteralBase::Decimal },
                span: Span { start, end: i },
            };
            proof {
                assert(lex_from(s, ih) == cons_token(tok, lex_from(s, i as int)));
            }
        } else if b == 36 {
            i = i + 1;
            let ghost ds = i as int;
            let mut value: u32 = 0;
            let mut too_big = false;
            loop
                invariant
                    n == s.len(),
                    s == src@,
                    ds <= i as int <= n,
                    ds == j + 1,
                    hex_end(s, ds) == hex_end(s, i as int),
                    !too_big ==> value == hex_value(s, ds, i as int) && value <= 0xffff,
                    too_big ==> hex_value(s, ds, i as int) > 0xffff,
                ensures
                    ds <= i as int <= n,
                    ds == j + 1,
                    hex_end(s, ds) == i as int,
                    !too_big ==> value == hex_value(s, ds, i as int) && value <= 0xffff,
                    too_big ==> hex_value(s, ds, i as int) > 0xffff,
                decreases n - i,
            {
                if i >= n {
                    break;
                }
                let c = src[i];
                if !byte_is_hex_digit(c) {
                    break;
                }
                proof {
                    assert(hex_end(s, i as int) == hex_end(s, i as int + 1));
                    assert(hex_value(s, ds, i as int + 1) == hex_value(s, ds, i as int) * 16
                        + hex_digit_value(c));
                }
                if too_big {
                    proof {
                        assert(hex_value(s, ds, i as int) * 16 >= hex_value(s, ds, i as int));
                    }
                } else {
                    let d: u32 = byte_hex_value(c) as u32;
                    let nv: u32 = value * 16 + d;
                    if nv > 0xffff {
                        too_big = true;
                    } else {
                        value = nv;
                    }
                }
                i = i + 1;
            }
            proof {
                assert(hex_end(s, i as int) == i as int);
                assert(hex_end(s, j + 1) == i as int);
            }
            if i == start + 1 {
                let err = LexError::InvalidToken { position: start };
                proof {
                    assert(lex_from(s, ih) == Err::<Seq<Token>, LexError>(err));
                }
                return Err(err);
            }
            if too_big {
                let err = LexError::NumberTooLarge { span: Span { start, end: i } };
                proof {
                    assert(lex_from(s, ih) == Err::<Seq<Token>, LexError>(err));
                }
                return Err(err);
            }
            tok = Token {
                kind: TokenKind::Number {
                    value: value as u16,
                    base: NumberLiteralBase::Hexadecimal,
                },
                span: Span { start, end: i },
            };
            proof {
                assert(lex_from(s, ih) == cons_token(tok, lex_from(s, i as int)));
            }
        } else {
            let err = LexError::InvalidToken { position: i };
            proof {
                assert(lex_from(s, ih) == Err::<Seq<Token>, LexError>(err));
            }
            return Err(err);
        }
        let ghost done_before = tokens@;
        tokens.push(tok);
        proof {
            assert forall|k: int| 0 <= k < tokens@.len() implies #[trigger] token_wf(
                tokens@[k],
                n as int,
            ) by {
                if k < tokens@.len() - 1 {
                    assert(token_wf(done_before[k], n as int));
                }
            }
            assert forall|k: int| 0 < k < tokens@.len() implies tokens@[k - 1].span.end
                <= #[trigger] tokens@[k].span.start by {
                if k < tokens@.len() - 1 {
                    assert(done_before[k - 1].span.end <= done_before[k].span.start);
                } else {
                    assert(tokens@[k] == tok);
                    assert(tokens@[k - 1] == done_before.last());
                    assert(done_before.last().span.end <= ih);
                    assert(tok.span.start >= ih);
                }
            }
            if lex_from(s, i as int) is Ok {
                let rest = lex_from(s, i as int)->Ok_0;
                assert(done_before + (seq![tok] + rest) =~= tokens@ + rest);
            }
            assert(lex_partial(s, i as int, tokens@));
        }
    }
}

} // verus!
