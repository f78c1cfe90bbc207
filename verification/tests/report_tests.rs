use ca65_lint::ast::Span;
use ca65_lint::lexer::LexError;
use ca65_lint::parser::ParseError;
use ca65_lint::pipeline::{run, AnalysisError};
use ca65_lint::rules::{RuleViolation, RuleViolationKind};
use ca65_lint::render::render_report;

fn report_text(source: &str) -> String {
    let src = source.as_bytes().to_vec();
    let report = run(&src).expect("analysis should succeed");
    String::from_utf8(report).expect("report should be valid text")
}

#[test]
fn referenced_label_no_violations() {
    assert_eq!(report_text("start:\nLDA start\n"), "");
}

#[test]
fn decimal_address_and_unreferenced_label() {
    let expected = "rule violation: unreferenced label\n\
                    at line 1, position 0\n\
                    start:\n\
                    ^^^^^\n\
                    \n\
                    rule violation: memory referenced via decimal address\n\
                    at line 2, position 4\n\
                    LDA 100\n\
                    \u{20}   ^^^\n\
                    \n";
    assert_eq!(report_text("start:\nLDA 100\n"), expected);
}

#[test]
fn hexadecimal_literal_exempt() {
    let expected = "rule violation: unreferenced label\n\
                    at line 1, position 0\n\
                    start:\n\
                    ^^^^^\n\
                    \n";
    assert_eq!(report_text("start:\nLDA $64\n"), expected);
}

#[test]
fn immediate_operand_exempt() {
    let expected = "rule violation: unreferenced label\n\
                    at line 1, position 0\n\
                    foo := 5\n\
                    ^^^\n\
                    \n";
    assert_eq!(report_text("foo := 5\nLDA #5\n"), expected);
}

#[test]
fn malformed_immediate_fails_to_parse() {
    let src = b"LDA #\n".to_vec();
    let err = run(&src).expect_err("a bare immediate sigil cannot parse");
    assert_eq!(
        err,
        AnalysisError::Parse(ParseError::UnexpectedToken { span: Span { start: 5, end: 6 } })
    );
}

#[test]
fn crlf_line_mapping() {
    // The carriage return is stripped from the displayed line but
    // counted in offset arithmetic: the column is still 4.
    let expected = "rule violation: unreferenced label\n\
                    at line 1, position 0\n\
                    start:\n\
                    ^^^^^\n\
                    \n\
                    rule violation: memory referenced via decimal address\n\
                    at line 2, position 4\n\
                    LDA 100\n\
                    \u{20}   ^^^\n\
                    \n";
    assert_eq!(report_text("start:\r\nLDA 100\r\n"), expected);
}

#[test]
fn mixed_line_endings() {
    let expected = "rule violation: memory referenced via decimal address\n\
                    at line 3, position 4\n\
                    STA 12\n\
                    \u{20}   ^^\n\
                    \n";
    assert_eq!(report_text("start:\r\nLDA start\nSTA 12\r\n"), expected);
}

#[test]
fn duplicate_label_one_reference() {
    // One reference consumes the first positional match; the second
    // declaration alone is reported.
    let expected = "rule violation: unreferenced label\n\
                    at line 2, position 0\n\
                    dup:\n\
                    ^^^\n\
                    \n";
    assert_eq!(report_text("dup:\ndup:\nLDA dup\n"), expected);
}

#[test]
fn report_is_idempotent() {
    let src = b"start:\nLDA 100\n".to_vec();
    let first = run(&src).expect("analysis should succeed");
    let second = run(&src).expect("analysis should succeed");
    assert_eq!(first, second);
}

#[test]
fn number_too_large_is_lex_error() {
    let src = b"LDA 70000\n".to_vec();
    let err = run(&src).expect_err("a 17-bit literal cannot lex");
    assert_eq!(
        err,
        AnalysisError::Lex(LexError::NumberTooLarge { span: Span { start: 4, end: 9 } })
    );
}

#[test]
fn hex_number_too_large_is_lex_error() {
    let src = b"LDA $10000\n".to_vec();
    let err = run(&src).expect_err("a 17-bit literal cannot lex");
    assert_eq!(
        err,
        AnalysisError::Lex(LexError::NumberTooLarge { span: Span { start: 4, end: 10 } })
    );
}

#[test]
fn bare_dollar_is_invalid_token() {
    let src = b"LDA $\n".to_vec();
    let err = run(&src).expect_err("a hex sigil needs digits");
    assert_eq!(err, AnalysisError::Lex(LexError::InvalidToken { position: 4 }));
}

#[test]
fn invalid_character_is_lex_error() {
    let src = b"LDA @\n".to_vec();
    let err = run(&src).expect_err("no token starts with an at sign");
    assert_eq!(err, AnalysisError::Lex(LexError::InvalidToken { position: 4 }));
}

#[test]
fn comments_are_ignored() {
    assert_eq!(report_text("start: ; entry point\nLDA start ; load it\n"), "");
}

#[test]
fn explicit_label_value_is_no_reference() {
    // An identifier as a label's value is not a direct operand, so it
    // marks nothing as referenced.
    let expected = "rule violation: unreferenced label\n\
                    at line 1, position 0\n\
                    foo := 5\n\
                    ^^^\n\
                    \n\
                    rule violation: unreferenced label\n\
                    at line 2, position 0\n\
                    bar := foo\n\
                    ^^^\n\
                    \n";
    assert_eq!(report_text("foo := 5\nbar := foo\n"), expected);
}

#[test]
fn instruction_without_operand() {
    assert_eq!(report_text("begin:\nJMP begin\nRTS\n"), "");
}

#[test]
fn forward_reference_counts() {
    // The rules are order-independent over the whole program: a label
    // declared after the instruction that references it is referenced.
    assert_eq!(report_text("LDA start\nstart:\n"), "");
}

#[test]
fn label_and_instruction_cannot_share_a_line() {
    // The grammar keeps one statement per line and never fuses a label
    // with an instruction.
    let src = b"start: LDA #1\n".to_vec();
    let err = run(&src).expect_err("two statements on one line cannot parse");
    assert_eq!(
        err,
        AnalysisError::Parse(ParseError::UnexpectedToken { span: Span { start: 7, end: 10 } })
    );
}

#[test]
fn empty_source_has_no_violations() {
    assert_eq!(report_text(""), "");
}

#[test]
fn stable_sort_keeps_emission_order_on_ties() {
    let src = b"ab\n".to_vec();
    let violations = vec![
        RuleViolation { kind: RuleViolationKind::DecimalAddress, span: Span { start: 0, end: 2 } },
        RuleViolation {
            kind: RuleViolationKind::UnreferencedLabel,
            span: Span { start: 0, end: 1 },
        },
    ];
    let report = render_report(&src, &violations);
    let expected = "rule violation: memory referenced via decimal address\n\
                    at line 1, position 0\n\
                    ab\n\
                    ^^\n\
                    \n\
                    rule violation: unreferenced label\n\
                    at line 1, position 0\n\
                    ab\n\
                    ^\n\
                    \n";
    assert_eq!(String::from_utf8(report).unwrap(), expected);
}

#[test]
fn violations_sorted_by_span_start() {
    let src = b"x\ny\n".to_vec();
    let violations = vec![
        RuleViolation { kind: RuleViolationKind::DecimalAddress, span: Span { start: 2, end: 3 } },
        RuleViolation {
            kind: RuleViolationKind::UnreferencedLabel,
            span: Span { start: 0, end: 1 },
        },
    ];
    let report = render_report(&src, &violations);
    let expected = "rule violation: unreferenced label\n\
                    at line 1, position 0\n\
                    x\n\
                    ^\n\
                    \n\
                    rule violation: memory referenced via decimal address\n\
                    at line 2, position 0\n\
                    y\n\
                    ^\n\
                    \n";
    assert_eq!(String::from_utf8(report).unwrap(), expected);
}
