use ca65_lint::ast::{NumberLiteralBase, Span};
use ca65_lint::lexer::{lex, Token, TokenKind};

fn kinds(source: &str) -> Vec<Token> {
    lex(&source.as_bytes().to_vec()).expect("source should lex")
}

#[test]
fn lexes_assignment_line() {
    let tokens = kinds("foo := $1f\n");
    assert_eq!(
        tokens,
        vec![
            Token { kind: TokenKind::Name, span: Span { start: 0, end: 3 } },
            Token { kind: TokenKind::AssignMark, span: Span { start: 4, end: 6 } },
            Token {
                kind: TokenKind::Number { value: 31, base: NumberLiteralBase::Hexadecimal },
                span: Span { start: 7, end: 10 },
            },
            Token { kind: TokenKind::LineBreak, span: Span { start: 10, end: 11 } },
        ]
    );
}

#[test]
fn assign_mark_wins_over_colon() {
    let tokens = kinds("a:=1\n");
    assert_eq!(tokens[1].kind, TokenKind::AssignMark);
    assert_eq!(tokens[1].span, Span { start: 1, end: 3 });
}

#[test]
fn colon_alone_is_label_mark() {
    let tokens = kinds("a:\n");
    assert_eq!(tokens[1].kind, TokenKind::ColonMark);
    assert_eq!(tokens[1].span, Span { start: 1, end: 2 });
}

#[test]
fn immediate_mark_and_decimal() {
    let tokens = kinds("LDA #65535\n");
    assert_eq!(tokens[1].kind, TokenKind::ImmediateMark);
    assert_eq!(
        tokens[2].kind,
        TokenKind::Number { value: 65535, base: NumberLiteralBase::Decimal }
    );
}

#[test]
fn comment_runs_to_line_end() {
    let tokens = kinds("a: ; b c d 100 $\nb:\n");
    let names = tokens
        .iter()
        .filter(|t| matches!(t.kind, TokenKind::Name))
        .count();
    assert_eq!(names, 2);
}

#[test]
fn underscore_starts_identifier() {
    let tokens = kinds("_tmp9:\n");
    assert_eq!(tokens[0].kind, TokenKind::Name);
    assert_eq!(tokens[0].span, Span { start: 0, end: 5 });
}
