use ca65_lint::ast::{
    Expression, ExplicitLabel, Identifier, ImplicitLabel, Instruction, InstructionOperand,
    InstructionOperandKind, NumberLiteral, NumberLiteralBase, Span, Spanned, Statement,
};

fn ident(name: &str, start: usize, end: usize) -> Identifier {
    Identifier { name: name.as_bytes().to_vec(), span: Span { start, end } }
}

#[test]
fn identifier_span_and_text() {
    let id = ident("start", 0, 5);
    assert_eq!(id.span(), Span { start: 0, end: 5 });
    assert_eq!(id.text(), b"start".to_vec());
}

#[test]
fn number_literal_text_decimal() {
    let n = NumberLiteral {
        value: 100,
        base: NumberLiteralBase::Decimal,
        span: Span { start: 4, end: 7 },
    };
    assert_eq!(n.text(), b"100".to_vec());
    assert_eq!(n.span(), Span { start: 4, end: 7 });
}

#[test]
fn number_literal_text_hexadecimal() {
    let n = NumberLiteral {
        value: 255,
        base: NumberLiteralBase::Hexadecimal,
        span: Span { start: 4, end: 7 },
    };
    assert_eq!(n.text(), b"$ff".to_vec());
}

#[test]
fn number_literal_text_zero() {
    let dec =
        NumberLiteral { value: 0, base: NumberLiteralBase::Decimal, span: Span { start: 0, end: 1 } };
    let hex = NumberLiteral {
        value: 0,
        base: NumberLiteralBase::Hexadecimal,
        span: Span { start: 0, end: 2 },
    };
    assert_eq!(dec.text(), b"0".to_vec());
    assert_eq!(hex.text(), b"$0".to_vec());
}

#[test]
fn expression_span_follows_variant() {
    let e = Expression::Identifier(ident("foo", 7, 10));
    assert_eq!(e.span(), Span { start: 7, end: 10 });
    assert_eq!(e.text(), b"foo".to_vec());
}

#[test]
fn instruction_span_unions_children() {
    let ins = Instruction {
        mnemonic: ident("LDA", 0, 3),
        operand: InstructionOperand {
            kind: InstructionOperandKind::Direct(Expression::Identifier(ident("start", 4, 9))),
            span: Span { start: 4, end: 9 },
        },
    };
    assert_eq!(ins.span(), Span { start: 0, end: 9 });
    assert_eq!(ins.text(), b"LDA start".to_vec());
}

#[test]
fn immediate_operand_text_keeps_sigil() {
    let op = InstructionOperand {
        kind: InstructionOperandKind::Immediate(Expression::NumberLiteral(NumberLiteral {
            value: 5,
            base: NumberLiteralBase::Decimal,
            span: Span { start: 5, end: 6 },
        })),
        span: Span { start: 4, end: 6 },
    };
    assert_eq!(op.text(), b"#5".to_vec());
    assert_eq!(op.span(), Span { start: 4, end: 6 });
}

#[test]
fn absent_operand_text_is_empty() {
    let op =
        InstructionOperand { kind: InstructionOperandKind::Absent, span: Span { start: 3, end: 3 } };
    assert_eq!(op.text(), b"".to_vec());
}

#[test]
fn implicit_label_span_and_text() {
    let l = ImplicitLabel { identifier: ident("start", 0, 5) };
    assert_eq!(l.span(), Span { start: 0, end: 5 });
    assert_eq!(l.text(), b"start:".to_vec());
}

#[test]
fn explicit_label_span_runs_to_value_end() {
    let l = ExplicitLabel {
        identifier: ident("foo", 0, 3),
        value: Expression::NumberLiteral(NumberLiteral {
            value: 5,
            base: NumberLiteralBase::Decimal,
            span: Span { start: 7, end: 8 },
        }),
    };
    assert_eq!(l.span(), Span { start: 0, end: 8 });
    assert_eq!(l.text(), b"foo := 5".to_vec());
}

#[test]
fn statement_span_follows_variant() {
    let st = Statement::ImplicitLabel(ImplicitLabel { identifier: ident("start", 5, 10) });
    assert_eq!(st.span(), Span { start: 5, end: 10 });
    assert_eq!(st.text(), b"start:".to_vec());
}
