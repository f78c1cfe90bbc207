//! Grammar-driven tree construction: tokens to an ordered statement
//! sequence.
//!
//! One statement per logical line: an explicit label (`IDENT := expr`),
//! an implicit label (`IDENT :`), or an instruction (`IDENT` with an
//! optional operand, `# expr` for immediate or a bare expression for
//! direct). A statement must be followed by a line break or the end of
//! input. The whole parse is pinned by the spec function [`parse_from`];
//! the executable [`parse`] returns exactly its value.

use vstd::prelude::*;
use crate::ast::{
    Span, Identifier, SpecIdentifier, NumberLiteral, Expression, SpecExpression,
    InstructionOperandKind, SpecOperandKind, InstructionOperand, SpecOperand, Instruction,
    SpecInstruction, ImplicitLabel, SpecImplicitLabel, ExplicitLabel, SpecExplicitLabel, Statement,
    SpecStatement, subrange_vec, stmt_wf, expr_wf, stmt_nested,
};
use crate::lexer::{Token, TokenKind, tokens_wf, token_wf};

verus! {

/// A structured parse fault naming the unexpected token or position.
#[derive(Clone, Copy, PartialEq, Eq, Structural, Debug)]
pub enum ParseError {
    /// A token that no statement form allows at its position.
    UnexpectedToken { span: Span },
    /// The input ended where a statement needed one more token.
    UnexpectedEnd { position: usize },
}

/// The first token index at or after `i` that is no line break.
pub open spec fn skip_breaks(toks: Seq<Token>, i: int) -> int
    decreases toks.len() - i,
{
    if 0 <= i < toks.len() && toks[i].kind is LineBreak {
        skip_breaks(toks, i + 1)
    } else {
        i
    }
}

pub proof fn lemma_skip_breaks_bounds(toks: Seq<Token>, i: int)
    requires
        0 <= i <= toks.len(),
    ensures
        i <= skip_breaks(toks, i) <= toks.len(),
    decreases toks.len() - i,
{
    if i < toks.len() && toks[i].kind is LineBreak {
        lemma_skip_breaks_bounds(toks, i + 1);
    }
}

/// The identifier a `Name` token denotes: the token's source range plus
/// its span.
pub open spec fn spec_ident_of(src: Seq<u8>, t: Token) -> SpecIdentifier {
    SpecIdentifier {
        name: src.subrange(t.span.start as int, t.span.end as int),
        span: t.span,
    }
}

/// Whether a token can stand as an expression.
pub open spec fn is_expr_token(t: Token) -> bool {
    t.kind is Name || t.kind is Number
}

/// The expression an expression token denotes.
pub open spec fn spec_expr_of(src: Seq<u8>, t: Token) -> SpecExpression {
    match t.kind {
        TokenKind::Name => SpecExpression::Identifier(spec_ident_of(src, t)),
        TokenKind::Number { value, base } => SpecExpression::NumberLiteral(
            NumberLiteral { value, base, span: t.span },
        ),
        _ => SpecExpression::NumberLiteral(
            NumberLiteral { value: 0, base: crate::ast::NumberLiteralBase::Decimal, span: t.span },
        ),
    }
}

/// One statement parsed at token index `j`, together with the index of
/// the first token after it (where its separator must stand). Fails on
/// a start that is no identifier, or a missing or malformed operand or
/// label value.
pub open spec fn parse_one(src: Seq<u8>, toks: Seq<Token>, j: int) -> Result<
    (SpecStatement, int),
    ParseError,
> {
    if j < 0 || j >= toks.len() {
        Err(ParseError::UnexpectedEnd { position: src.len() as usize })
    } else if !(toks[j].kind is Name) {
        Err(ParseError::UnexpectedToken { span: toks[j].span })
    } else {
        let id = spec_ident_of(src, toks[j]);
        if j + 1 >= toks.len() || toks[j + 1].kind is LineBreak {
            let op = SpecOperand {
                kind: SpecOperandKind::Absent,
                span: Span { start: id.span.end, end: id.span.end },
            };
            Ok((SpecStatement::Instruction(SpecInstruction { mnemonic: id, operand: op }), j + 1))
        } else if toks[j + 1].kind is AssignMark {
            if j + 2 >= toks.len() {
                Err(ParseError::UnexpectedEnd { position: src.len() as usize })
            } else if is_expr_token(toks[j + 2]) {
                let st = SpecStatement::ExplicitLabel(
                    SpecExplicitLabel { identifier: id, value: spec_expr_of(src, toks[j + 2]) },
                );
                Ok((st, j + 3))
            } else {
                Err(ParseError::UnexpectedToken { span: toks[j + 2].span })
            }
        } else if toks[j + 1].kind is ColonMark {
            Ok((SpecStatement::ImplicitLabel(SpecImplicitLabel { identifier: id }), j + 2))
        } else if toks[j + 1].kind is ImmediateMark {
            if j + 2 >= toks.len() {
                Err(ParseError::UnexpectedEnd { position: src.len() as usize })
            } else if is_expr_token(toks[j + 2]) {
                let e = spec_expr_of(src, toks[j + 2]);
                let op = SpecOperand {
                    kind: SpecOperandKind::Immediate(e),
                    span: Span { start: toks[j + 1].span.start, end: toks[j + 2].span.end },
                };
                Ok((
                    SpecStatement::Instruction(SpecInstruction { mnemonic: id, operand: op }),
                    j + 3,
                ))
            } else {
                Err(ParseError::UnexpectedToken { span: toks[j + 2].span })
            }
        } else if is_expr_token(toks[j + 1]) {
            let e = spec_expr_of(src, toks[j + 1]);
            let op = SpecOperand { kind: SpecOperandKind::Direct(e), span: toks[j + 1].span };
            Ok((SpecStatement::Instruction(SpecInstruction { mnemonic: id, operand: op }), j + 2))
        } else {
            Err(ParseError::UnexpectedToken { span: toks[j + 1].span })
        }
    }
}

pub proof fn lemma_parse_one_bounds(src: Seq<u8>, toks: Seq<Token>, j: int)
    requires
        0 <= j < toks.len(),
    ensures
        parse_one(src, toks, j) is Ok ==> j < parse_one(src, toks, j)->Ok_0.1 <= toks.len(),
{
}

/// Prepends a statement to the statements of a parse that may have
/// failed; a failure stands.
pub open spec fn cons_stmt(st: SpecStatement, r: Result<Seq<SpecStatement>, ParseError>) -> Result<
    Seq<SpecStatement>,
    ParseError,
> {
    match r {
        Ok(rest) => Ok(seq![st] + rest),
        Err(e) => Err(e),
    }
}

/// The statement sequence of the token stream from index `i` on, or the
/// first parse fault: leading line breaks are skipped, one statement is
/// parsed, and a line break or the end of input must follow it.
pub open spec fn parse_from(src: Seq<u8>, toks: Seq<Token>, i: int) -> Result<
    Seq<SpecStatement>,
    ParseError,
>
    decreases toks.len() - i,
    via parse_from_decreases
{
    if i < 0 {
        Ok(Seq::empty())
    } else {
        let j = skip_breaks(toks, i);
        if j >= toks.len() {
            Ok(Seq::empty())
        } else {
            match parse_one(src, toks, j) {
                Err(e) => Err(e),
                Ok((st, k)) => {
                    if k >= toks.len() {
                        Ok(seq![st])
                    } else if toks[k].kind is LineBreak {
                        cons_stmt(st, parse_from(src, toks, k + 1))
                    } else {
                        Err(ParseError::UnexpectedToken { span: toks[k].span })
                    }
                },
            }
        }
    }
}

#[via_fn]
proof fn parse_from_decreases(src: Seq<u8>, toks: Seq<Token>, i: int) {
    if 0 <= i <= toks.len() {
        lemma_skip_breaks_bounds(toks, i);
        let j = skip_breaks(toks, i);
        if j < toks.len() {
            lemma_parse_one_bounds(src, toks, j);
        }
    } else if i > toks.len() {
        assert(skip_breaks(toks, i) == i);
    }
}

/// The statement sequence of the whole token stream, or the first parse
/// fault.
pub open spec fn parse_spec(src: Seq<u8>, toks: Seq<Token>) -> Result<
    Seq<SpecStatement>,
    ParseError,
> {
    parse_from(src, toks, 0)
}

/// The loop relation of the executable parser: what was built so far,
/// plus the parse of the rest, is the parse of the whole.
pub open spec fn parse_partial(
    src: Seq<u8>,
    toks: Seq<Token>,
    i: int,
    done: Seq<SpecStatement>,
) -> bool {
    match parse_from(src, toks, i) {
        Ok(rest) => parse_from(src, toks, 0) == Ok::<Seq<SpecStatement>, ParseError>(done + rest),
        Err(e) => parse_from(src, toks, 0) == Err::<Seq<SpecStatement>, ParseError>(e),
    }
}

/// Builds the expression an expression token denotes.
fn expr_of(src: &Vec<u8>, t: Token) -> (e: Expression)
    requires
        is_expr_token(t),
        t.span.start <= t.span.end <= src@.len(),
    ensures
        e@ == spec_expr_of(src@, t),
        expr_wf(e@, src@.len() as int),
{
    match t.kind {
        TokenKind::Name => {
            let name = subrange_vec(src, t.span.start, t.span.end);
            Expression::Identifier(Identifier { name, span: t.span })
        },
        TokenKind::Number { value, base } => Expression::NumberLiteral(
            NumberLiteral { value, base, span: t.span },
        ),
        _ => unreached(),
    }
}

/// Parses the whole token stream against the source it was lexed from.
/// Returns exactly the statement sequence that [`parse_spec`] gives, or
/// exactly its fault; returned statements are well formed against the
/// source length.
pub fn parse(src: &Vec<u8>, tokens: &Vec<Token>) -> (r: Result<Vec<Statement>, ParseError>)
    requires
        tokens_wf(tokens@, src@.len() as int),
    ensures
        match r {
            Ok(stmts) => parse_spec(src@, tokens@) == Ok::<Seq<SpecStatement>, ParseError>(
                stmts.deep_view(),
            ) && (forall|k: int|
                0 <= k < stmts.deep_view().len() ==> stmt_wf(
                    #[trigger] stmts.deep_view()[k],
                    src@.len() as int,
                )) && (forall|k: int|
                0 <= k < stmts.deep_view().len() ==> stmt_nested(
                    #[trigger] stmts.deep_view()[k],
                )),
            Err(e) => parse_spec(src@, tokens@) == Err::<Seq<SpecStatement>, ParseError>(e),
        },
{
    let n = tokens.len();
    let ghost t = tokens@;
    let ghost s = src@;
    let mut i: usize = 0;
    let mut stmts: Vec<Statement> = Vec::new();
    proof {
        assert(stmts.deep_view() =~= Seq::<SpecStatement>::empty());
        if parse_from(s, t, 0) is Ok {
            assert(stmts.deep_view() + parse_from(s, t, 0)->Ok_0 =~= parse_from(s, t, 0)->Ok_0);
        }
        assert(parse_partial(s, t, 0, stmts.deep_view()));
    }
    loop
        invariant
            t == tokens@,
            s == src@,
            n == t.len(),
            i <= n,
            tokens_wf(t, s.len() as int),
            parse_partial(s, t, i as int, stmts.deep_view()),
            forall|k: int|
                0 <= k < stmts.deep_view().len() ==> stmt_wf(
                    #[trigger] stmts.deep_view()[k],
                    s.len() as int,
                ),
            forall|k: int|
                0 <= k < stmts.deep_view().len() ==> stmt_nested(#[trigger] stmts.deep_view()[k]),
        decreases n - i,
    {
        let ghost ih = i as int;
        // Skip the line breaks between statements.
        loop
            invariant
                t == tokens@,
                n == t.len(),
                ih <= i as int <= n,
                skip_breaks(t, ih) == skip_breaks(t, i as int),
            ensures
                ih <= i as int <= n,
                skip_breaks(t, ih) == i as int,
            decreases n - i,
        {
            if i >= n {
                break;
            }
            match tokens[i].kind {
                TokenKind::LineBreak => {
                    i = i + 1;
                },
                _ => {
                    break;
                },
            }
        }
        if i >= n {
            proof {
                assert(parse_from(s, t, ih) == Ok::<Seq<SpecStatement>, ParseError>(Seq::empty()));
                assert(stmts.deep_view() + Seq::<SpecStatement>::empty() =~= stmts.deep_view());
            }
            return Ok(stmts);
        }
        let ghost j = i as int;
        let t0 = tokens[i];
        proof {
            assert(token_wf(t[j], s.len() as int));
        }
        let is_name = match t0.kind {
            TokenKind::Name => true,
            _ => false,
        };
        if !is_name {
            let err = ParseError::UnexpectedToken { span: t0.span };
            proof {
                assert(parse_one(s, t, j) == Err::<(SpecStatement, int), ParseError>(err));
                assert(parse_from(s, t, ih) == Err::<Seq<SpecStatement>, ParseError>(err));
            }
            return Err(err);
        }
        let name = subrange_vec(src, t0.span.start, t0.span.end);
        let id = Identifier { name, span: t0.span };
        proof {
            assert(id@ == spec_ident_of(s, t[j]));
        }
        let st: Statement;
        let k: usize;
        if i + 1 >= n {
            let op = InstructionOperand {
                kind: InstructionOperandKind::Absent,
                span: Span { start: t0.span.end, end: t0.span.end },
            };
            st = Statement::Instruction(Instruction { mnemonic: id, operand: op });
            k = i + 1;
        } else {
            let t1 = tokens[i + 1];
            proof {
                assert(token_wf(t[j + 1], s.len() as int));
            }
            match t1.kind {
                TokenKind::LineBreak => {
                    let op = InstructionOperand {
                        kind: InstructionOperandKind::Absent,
                        span: Span { start: t0.span.end, end: t0.span.end },
                    };
                    st = Statement::Instruction(Instruction { mnemonic: id, operand: op });
                    k = i + 1;
                },
                TokenKind::AssignMark => {
                    if i + 2 >= n {
                        let err = ParseError::UnexpectedEnd { position: src.len() };
                        proof {
                            assert(parse_one(s, t, j) == Err::<(SpecStatement, int), ParseError>(
                                err,
                            ));
                            assert(parse_from(s, t, ih) == Err::<Seq<SpecStatement>, ParseError>(
                                err,
                            ));
                        }
                        return Err(err);
                    }
                    let t2 = tokens[i + 2];
                    proof {
                        assert(token_wf(t[j + 2], s.len() as int));
                    }
                    let is_expr = match t2.kind {
                        TokenKind::Name => true,
                        TokenKind::Number { .. } => true,
                        _ => false,
                    };
                    if !is_expr {
                        let err = ParseError::UnexpectedToken { span: t2.span };
                        proof {
                            assert(parse_one(s, t, j) == Err::<(SpecStatement, int), ParseError>(
                                err,
                            ));
                            assert(parse_from(s, t, ih) == Err::<Seq<SpecStatement>, ParseError>(
                                err,
                            ));
                        }
                        return Err(err);
                    }
                    let value = expr_of(src, t2);
                    st = Statement::ExplicitLabel(ExplicitLabel { identifier: id, value });
                    k = i + 3;
                },
                TokenKind::ColonMark => {
                    st = Statement::ImplicitLabel(ImplicitLabel { identifier: id });
                    k = i + 2;
                },
                TokenKind::ImmediateMark => {
                    if i + 2 >= n {
                        let err = ParseError::UnexpectedEnd { position: src.len() };
                        proof {
                            assert(parse_one(s, t, j) == Err::<(SpecStatement, int), ParseError>(
                                err,
                            ));
                            assert(parse_from(s, t, ih) == Err::<Seq<SpecStatement>, ParseError>(
                                err,
                            ));
                        }
                        return Err(err);
                    }
                    let t2 = tokens[i + 2];
                    proof {
                        assert(token_wf(t[j + 2], s.len() as int));
                    }
                    let is_expr = match t2.kind {
                        TokenKind::Name => true,
                        TokenKind::Number { .. } => true,
                        _ => false,
                    };
                    if !is_expr {
                        let err = ParseError::UnexpectedToken { span: t2.span };
                        proof {
                            assert(parse_one(s, t, j) == Err::<(SpecStatement, int), ParseError>(
                                err,
                            ));
                            assert(parse_from(s, t, ih) == Err::<Seq<SpecStatement>, ParseError>(
                                err,
                            ));
                        }
                        return Err(err);
                    }
                    let e = expr_of(src, t2);
                    let op = InstructionOperand {
                        kind: InstructionOperandKind::Immediate(e),
                        span: Span { start: t1.span.start, end: t2.span.end },
                    };
                    proof {
                        assert(t[j + 1].span.end <= t[j + 2].span.start);
                    }
                    st = Statement::Instruction(Instruction { mnemonic: id, operand: op });
                    k = i + 3;
                },
                TokenKind::Name | TokenKind::Number { .. } => {
                    let e = expr_of(src, t1);
                    let op = InstructionOperand {
                        kind: InstructionOperandKind::Direct(e),
                        span: t1.span,
                    };
                    st = Statement::Instruction(Instruction { mnemonic: id, operand: op });
                    k = i + 2;
                },
            }
        }
        proof {
            if j + 1 < n {
                assert(t[j].span.end <= t[j + 1].span.start);
            }
            if j + 2 < n {
                assert(t[j + 1].span.end <= t[j + 2].span.start);
            }
            assert(parse_one(s, t, j) == Ok::<(SpecStatement, int), ParseError>((st@, k as int)));
            assert(stmt_wf(st@, s.len() as int));
            assert(stmt_nested(st@));
        }
        if k < n {
            let tk = tokens[k];
            let sep_ok = match tk.kind {
                TokenKind::LineBreak => true,
                _ => false,
            };
            if !sep_ok {
                let err = ParseError::UnexpectedToken { span: tk.span };
                proof {
                    assert(parse_from(s, t, ih) == Err::<Seq<SpecStatement>, ParseError>(err));
                }
                return Err(err);
            }
        }
        let ghost done_before = stmts.deep_view();
        stmts.push(st);
        proof {
            assert(stmts.deep_view() =~= done_before.push(st@));
        }
        if k >= n {
            proof {
                assert(parse_from(s, t, ih) == Ok::<Seq<SpecStatement>, ParseError>(seq![st@]));
                assert(done_before + seq![st@] =~= stmts.deep_view());
            }
            return Ok(stmts);
        }
        i = k + 1;
        proof {
            assert(parse_from(s, t, ih) == cons_stmt(st@, parse_from(s, t, i as int)));
            if parse_from(s, t, i as int) is Ok {
                let rest = parse_from(s, t, i as int)->Ok_0;
                assert(done_before + (seq![st@] + rest) =~= stmts.deep_view() + rest);
            }
            assert(parse_partial(s, t, i as int, stmts.deep_view()));
        }
    }
}

} // verus!
