//! The span-annotated syntax tree shared by the parser and the rule
//! engine, together with its mathematical model.
//!
//! Every node carries the half-open byte-offset range (`Span`) of its
//! extent in the source text, either stored directly or computed as the
//! union of its children's spans. Exec nodes hold their identifier names
//! as byte vectors; each node kind has a spec-level mirror (`Spec...`)
//! holding byte sequences, reached through `View`, and all contracts are
//! stated over those mirrors.

use vstd::prelude::*;
use crate::digits::{dec_digits, hex_digits, push_dec, push_hex};

verus! {

/// A half-open byte-offset range `[start, end)` into the source text.
#[derive(Clone, Copy, PartialEq, Eq, Structural, Debug)]
pub struct Span {
    pub start: usize,
    pub end: usize,
}

/// Well-formedness of a span against a source of `n` bytes.
pub open spec fn span_wf(s: Span, n: int) -> bool {
    s.start <= s.end <= n
}

/// A node that exposes the byte-offset extent of its source text.
pub trait Spanned {
    /// The node's extent, as the contracts speak of it.
    spec fn spec_span(&self) -> Span;

    /// Returns the node's extent.
    fn span(&self) -> (s: Span)
        ensures
            s == self.spec_span(),
    ;
}

/// Appends all bytes of `more` to `out`.
pub fn push_all(out: &mut Vec<u8>, more: &Vec<u8>)
    ensures
        final(out)@ == old(out)@ + more@,
{
    let mut i: usize = 0;
    while i < more.len()
        invariant
            i <= more@.len(),
            out@ == old(out)@ + more@.subrange(0, i as int),
        decreases more@.len() - i,
    {
        out.push(more[i]);
        i = i + 1;
        assert(out@ =~= old(out)@ + more@.subrange(0, i as int));
    }
    assert(more@.subrange(0, more@.len() as int) =~= more@);
}

/// Returns a copy of `v`.
pub fn copy_bytes(v: &Vec<u8>) -> (r: Vec<u8>)
    ensures
        r@ == v@,
{
    let mut r: Vec<u8> = Vec::new();
    push_all(&mut r, v);
    assert(r@ =~= v@);
    r
}

/// Returns the bytes of `src` in the range `[from, to)`.
pub fn subrange_vec(src: &Vec<u8>, from: usize, to: usize) -> (r: Vec<u8>)
    requires
        from <= to <= src@.len(),
    ensures
        r@ == src@.subrange(from as int, to as int),
{
    let mut r: Vec<u8> = Vec::new();
    let mut i: usize = from;
    while i < to
        invariant
            from <= i <= to <= src@.len(),
            r@ == src@.subrange(from as int, i as int),
        decreases to - i,
    {
        r.push(src[i]);
        i = i + 1;
        assert(r@ =~= src@.subrange(from as int, i as int));
    }
    r
}

/// A name plus its extent. Equality for lint purposes is by exact byte
/// match of the name, case-sensitive.
#[derive(Clone, Debug)]
pub struct Identifier {
    pub name: Vec<u8>,
    pub span: Span,
}

/// The mathematical model of an [`Identifier`].
pub struct SpecIdentifier {
    pub name: Seq<u8>,
    pub span: Span,
}

impl View for Identifier {
    type V = SpecIdentifier;

    open spec fn view(&self) -> SpecIdentifier {
        SpecIdentifier { name: self.name@, span: self.span }
    }
}

impl DeepView for Identifier {
    type V = SpecIdentifier;

    open spec fn deep_view(&self) -> SpecIdentifier {
        self.view()
    }
}

impl SpecIdentifier {
    /// The text form of the identifier: its name.
    pub open spec fn text(&self) -> Seq<u8> {
        self.name
    }
}

impl Spanned for Identifier {
    open spec fn spec_span(&self) -> Span {
        self.span
    }

    fn span(&self) -> (s: Span)
        ensures
            s == self.spec_span(),
    {
        self.span
    }
}

impl Identifier {
    /// Returns the identifier's text form.
    pub fn text(&self) -> (r: Vec<u8>)
        ensures
            r@ == self@.text(),
    {
        copy_bytes(&self.name)
    }
}

/// Which literal form the source used for a number. The base tag is
/// purely syntactic, not a semantic property of the value.
#[derive(Clone, Copy, PartialEq, Eq, Structural, Debug)]
pub enum NumberLiteralBase {
    Decimal,
    Hexadecimal,
}

/// A 16-bit unsigned value plus its literal form and extent.
#[derive(Clone, Copy, PartialEq, Eq, Structural, Debug)]
pub struct NumberLiteral {
    pub value: u16,
    pub base: NumberLiteralBase,
    pub span: Span,
}

impl NumberLiteral {
    /// The text form: decimal digits, or `$` plus hexadecimal digits.
    pub open spec fn spec_text(&self) -> Seq<u8> {
        match self.base {
            NumberLiteralBase::Decimal => dec_digits(self.value as nat),
            NumberLiteralBase::Hexadecimal => seq![36u8] + hex_digits(self.value as nat),
        }
    }

    /// Returns the literal's text form.
    pub fn text(&self) -> (r: Vec<u8>)
        ensures
            r@ == self.spec_text(),
    {
        let mut r: Vec<u8> = Vec::new();
        match self.base {
            NumberLiteralBase::Decimal => {
                push_dec(&mut r, self.value as usize);
                assert(r@ =~= self.spec_text());
            },
            NumberLiteralBase::Hexadecimal => {
                r.push(36);
                push_hex(&mut r, self.value as usize);
                assert(r@ =~= self.spec_text());
            },
        }
        r
    }
}

impl Spanned for NumberLiteral {
    open spec fn spec_span(&self) -> Span {
        self.span
    }

    fn span(&self) -> (s: Span)
        ensures
            s == self.spec_span(),
    {
        self.span
    }
}

/// An expression: a name or a number literal.
#[derive(Clone, Debug)]
pub enum Expression {
    Identifier(Identifier),
    NumberLiteral(NumberLiteral),
}

/// The mathematical model of an [`Expression`].
pub enum SpecExpression {
    Identifier(SpecIdentifier),
    NumberLiteral(NumberLiteral),
}

impl View for Expression {
    type V = SpecExpression;

    open spec fn view(&self) -> SpecExpression {
        match self {
            Expression::Identifier(e) => SpecExpression::Identifier(e@),
            Expression::NumberLiteral(e) => SpecExpression::NumberLiteral(*e),
        }
    }
}

impl DeepView for Expression {
    type V = SpecExpression;

    open spec fn deep_view(&self) -> SpecExpression {
        self.view()
    }
}

impl SpecExpression {
    /// The expression's extent.
    pub open spec fn span_of(&self) -> Span {
        match self {
            SpecExpression::Identifier(e) => e.span,
            SpecExpression::NumberLiteral(e) => e.span,
        }
    }

    /// The expression's text form.
    pub open spec fn text(&self) -> Seq<u8> {
        match self {
            SpecExpression::Identifier(e) => e.text(),
            SpecExpression::NumberLiteral(e) => e.spec_text(),
        }
    }
}

impl Spanned for Expression {
    open spec fn spec_span(&self) -> Span {
        self@.span_of()
    }

    fn span(&self) -> (s: Span)
        ensures
            s == self.spec_span(),
    {
        match self {
            Expression::Identifier(e) => e.span(),
            Expression::NumberLiteral(e) => e.span(),
        }
    }
}

impl Expression {
    /// Returns the expression's text form.
    pub fn text(&self) -> (r: Vec<u8>)
        ensures
            r@ == self@.text(),
    {
        match self {
            Expression::Identifier(e) => e.text(),
            Expression::NumberLiteral(e) => e.text(),
        }
    }
}

/// The three operand shapes an instruction can carry.
#[derive(Clone, Debug)]
pub enum InstructionOperandKind {
    Absent,
    Immediate(Expression),
    Direct(Expression),
}

/// The mathematical model of an [`InstructionOperandKind`].
pub enum SpecOperandKind {
    Absent,
    Immediate(SpecExpression),
    Direct(SpecExpression),
}

impl View for InstructionOperandKind {
    type V = SpecOperandKind;

    open spec fn view(&self) -> SpecOperandKind {
        match self {
            InstructionOperandKind::Absent => SpecOperandKind::Absent,
            InstructionOperandKind::Immediate(e) => SpecOperandKind::Immediate(e@),
            InstructionOperandKind::Direct(e) => SpecOperandKind::Direct(e@),
        }
    }
}

impl DeepView for InstructionOperandKind {
    type V = SpecOperandKind;

    open spec fn deep_view(&self) -> SpecOperandKind {
        self.view()
    }
}

/// An operand plus the extent of the whole operand form, including any
/// prefix sigil.
#[derive(Clone, Debug)]
pub struct InstructionOperand {
    pub kind: InstructionOperandKind,
    pub span: Span,
}

/// The mathematical model of an [`InstructionOperand`].
pub struct SpecOperand {
    pub kind: SpecOperandKind,
    pub span: Span,
}

impl View for InstructionOperand {
    type V = SpecOperand;

    open spec fn view(&self) -> SpecOperand {
        SpecOperand { kind: self.kind@, span: self.span }
    }
}

impl DeepView for InstructionOperand {
    type V = SpecOperand;

    open spec fn deep_view(&self) -> SpecOperand {
        self.view()
    }
}

impl SpecOperand {
    /// The operand's text form: nothing, `#` plus the expression, or the
    /// bare expression.
    pub open spec fn text(&self) -> Seq<u8> {
        match self.kind {
            SpecOperandKind::Absent => Seq::empty(),
            SpecOperandKind::Immediate(e) => seq![35u8] + e.text(),
            SpecOperandKind::Direct(e) => e.text(),
        }
    }
}

impl Spanned for InstructionOperand {
    open spec fn spec_span(&self) -> Span {
        self.span
    }

    fn span(&self) -> (s: Span)
        ensures
            s == self.spec_span(),
    {
        self.span
    }
}

impl InstructionOperand {
    /// Returns the operand's text form.
    pub fn text(&self) -> (r: Vec<u8>)
        ensures
            r@ == self@.text(),
    {
        match &self.kind {
            InstructionOperandKind::Absent => {
                let r: Vec<u8> = Vec::new();
                assert(r@ =~= self@.text());
                r
            },
            InstructionOperandKind::Immediate(e) => {
                let mut r: Vec<u8> = Vec::new();
                r.push(35);
                let t = e.text();
                push_all(&mut r, &t);
                assert(r@ =~= self@.text());
                r
            },
            InstructionOperandKind::Direct(e) => e.text(),
        }
    }
}

/// A mnemonic plus one operand. Its extent runs from the mnemonic's
/// start to the operand's end.
#[derive(Clone, Debug)]
pub struct Instruction {
    pub mnemonic: Identifier,
    pub operand: InstructionOperand,
}

/// The mathematical model of an [`Instruction`].
pub struct SpecInstruction {
    pub mnemonic: SpecIdentifier,
    pub operand: SpecOperand,
}

impl View for Instruction {
    type V = SpecInstruction;

    open spec fn view(&self) -> SpecInstruction {
        SpecInstruction { mnemonic: self.mnemonic@, operand: self.operand@ }
    }
}

impl DeepView for Instruction {
    type V = SpecInstruction;

    open spec fn deep_view(&self) -> SpecInstruction {
        self.view()
    }
}

impl SpecInstruction {
    /// The instruction's extent: mnemonic start to operand end.
    pub open spec fn span_of(&self) -> Span {
        Span { start: self.mnemonic.span.start, end: self.operand.span.end }
    }

    /// The instruction's text form: mnemonic, one space, operand.
    pub open spec fn text(&self) -> Seq<u8> {
        self.mnemonic.text() + seq![32u8] + self.operand.text()
    }
}

impl Spanned for Instruction {
    open spec fn spec_span(&self) -> Span {
        self@.span_of()
    }

    fn span(&self) -> (s: Span)
        ensures
            s == self.spec_span(),
    {
        Span { start: self.mnemonic.span.start, end: self.operand.span.end }
    }
}

impl Instruction {
    /// Returns the instruction's text form.
    pub fn text(&self) -> (r: Vec<u8>)
        ensures
            r@ == self@.text(),
    {
        let mut r = self.mnemonic.text();
        r.push(32);
        let t = self.operand.text();
        push_all(&mut r, &t);
        assert(r@ =~= self@.text());
        r
    }
}

/// A bare identifier declaration marking a program position; its extent
/// equals the identifier's.
#[derive(Clone, Debug)]
pub struct ImplicitLabel {
    pub identifier: Identifier,
}

/// The mathematical model of an [`ImplicitLabel`].
pub struct SpecImplicitLabel {
    pub identifier: SpecIdentifier,
}

impl View for ImplicitLabel {
    type V = SpecImplicitLabel;

    open spec fn view(&self) -> SpecImplicitLabel {
        SpecImplicitLabel { identifier: self.identifier@ }
    }
}

impl DeepView for ImplicitLabel {
    type V = SpecImplicitLabel;

    open spec fn deep_view(&self) -> SpecImplicitLabel {
        self.view()
    }
}

impl SpecImplicitLabel {
    /// The label's text form: the name plus a colon.
    pub open spec fn text(&self) -> Seq<u8> {
        self.identifier.text() + seq![58u8]
    }
}

impl Spanned for ImplicitLabel {
    open spec fn spec_span(&self) -> Span {
        self.identifier.span
    }

    fn span(&self) -> (s: Span)
        ensures
            s == self.spec_span(),
    {
        self.identifier.span
    }
}

impl ImplicitLabel {
    /// Returns the label's text form.
    pub fn text(&self) -> (r: Vec<u8>)
        ensures
            r@ == self@.text(),
    {
        let mut r = self.identifier.text();
        r.push(58);
        assert(r@ =~= self@.text());
        r
    }
}

/// An identifier bound to a constant expression; its extent runs from
/// the identifier's start to the value's end.
#[derive(Clone, Debug)]
pub struct ExplicitLabel {
    pub identifier: Identifier,
    pub value: Expression,
}

/// The mathematical model of an [`ExplicitLabel`].
pub struct SpecExplicitLabel {
    pub identifier: SpecIdentifier,
    pub value: SpecExpression,
}

impl View for ExplicitLabel {
    type V = SpecExplicitLabel;

    open spec fn view(&self) -> SpecExplicitLabel {
        SpecExplicitLabel { identifier: self.identifier@, value: self.value@ }
    }
}

impl DeepView for ExplicitLabel {
    type V = SpecExplicitLabel;

    open spec fn deep_view(&self) -> SpecExplicitLabel {
        self.view()
    }
}

impl SpecExplicitLabel {
    /// The label's extent: identifier start to value end.
    pub open spec fn span_of(&self) -> Span {
        Span { start: self.identifier.span.start, end: self.value.span_of().end }
    }

    /// The label's text form: the name, ` := `, the value.
    pub open spec fn text(&self) -> Seq<u8> {
        self.identifier.text() + seq![32u8, 58u8, 61u8, 32u8] + self.value.text()
    }
}

impl Spanned for ExplicitLabel {
    open spec fn spec_span(&self) -> Span {
        self@.span_of()
    }

    fn span(&self) -> (s: Span)
        ensures
            s == self.spec_span(),
    {
        Span { start: self.identifier.span.start, end: self.value.span().end }
    }
}

impl ExplicitLabel {
    /// Returns the label's text form.
    pub fn text(&self) -> (r: Vec<u8>)
        ensures
            r@ == self@.text(),
    {
        let mut r = self.identifier.text();
        r.push(32);
        r.push(58);
        r.push(61);
        r.push(32);
        let t = self.value.text();
        push_all(&mut r, &t);
        assert(r@ =~= self@.text());
        r
    }
}

/// One statement of the program: exactly one of the three forms per
/// logical source line.
#[derive(Clone, Debug)]
pub enum Statement {
    ExplicitLabel(ExplicitLabel),
    ImplicitLabel(ImplicitLabel),
    Instruction(Instruction),
}

/// The mathematical model of a [`Statement`].
pub enum SpecStatement {
    ExplicitLabel(SpecExplicitLabel),
    ImplicitLabel(SpecImplicitLabel),
    Instruction(SpecInstruction),
}

impl View for Statement {
    type V = SpecStatement;

    open spec fn view(&self) -> SpecStatement {
        match self {
            Statement::ExplicitLabel(s) => SpecStatement::ExplicitLabel(s@),
            Statement::ImplicitLabel(s) => SpecStatement::ImplicitLabel(s@),
            Statement::Instruction(s) => SpecStatement::Instruction(s@),
        }
    }
}

impl DeepView for Statement {
    type V = SpecStatement;

    open spec fn deep_view(&self) -> SpecStatement {
        self.view()
    }
}

impl SpecStatement {
    /// The statement's extent.
    pub open spec fn span_of(&self) -> Span {
        match self {
            SpecStatement::ExplicitLabel(s) => s.span_of(),
            SpecStatement::ImplicitLabel(s) => s.identifier.span,
            SpecStatement::Instruction(s) => s.span_of(),
        }
    }

    /// The statement's text form.
    pub open spec fn text(&self) -> Seq<u8> {
        match self {
            SpecStatement::ExplicitLabel(s) => s.text(),
            SpecStatement::ImplicitLabel(s) => s.text(),
            SpecStatement::Instruction(s) => s.text(),
        }
    }
}

impl Spanned for Statement {
    open spec fn spec_span(&self) -> Span {
        self@.span_of()
    }

    fn span(&self) -> (s: Span)
        ensures
            s == self.spec_span(),
    {
        match self {
            Statement::ExplicitLabel(s) => s.span(),
            Statement::ImplicitLabel(s) => s.span(),
            Statement::Instruction(s) => s.span(),
        }
    }
}

impl Statement {
    /// Returns the statement's text form.
    pub fn text(&self) -> (r: Vec<u8>)
        ensures
            r@ == self@.text(),
    {
        match self {
            Statement::ExplicitLabel(s) => s.text(),
            Statement::ImplicitLabel(s) => s.text(),
            Statement::Instruction(s) => s.text(),
        }
    }
}


/// Whether `outer` contains `inner`: the containment the data model
/// promises between a parent node's extent and its children's.
pub open spec fn span_contains(outer: Span, inner: Span) -> bool {
    outer.start <= inner.start && inner.end <= outer.end
}

/// An operand's extent contains its expression's.
pub open spec fn operand_nested(op: SpecOperand) -> bool {
    match op.kind {
        SpecOperandKind::Absent => true,
        SpecOperandKind::Immediate(e) => span_contains(op.span, e.span_of()),
        SpecOperandKind::Direct(e) => span_contains(op.span, e.span_of()),
    }
}

/// A statement's extent contains all its children's extents, and so on
/// down the tree.
pub open spec fn stmt_nested(st: SpecStatement) -> bool {
    match st {
        SpecStatement::ExplicitLabel(l) => span_contains(l.span_of(), l.identifier.span)
            && span_contains(l.span_of(), l.value.span_of()),
        SpecStatement::ImplicitLabel(_) => true,
        SpecStatement::Instruction(i) => span_contains(i.span_of(), i.mnemonic.span)
            && span_contains(i.span_of(), i.operand.span) && operand_nested(i.operand),
    }
}

/// Well-formedness of a statement's model against a source of `n`
/// bytes: every stored span lies within the source, start not past end.
pub open spec fn ident_wf(id: SpecIdentifier, n: int) -> bool {
    span_wf(id.span, n)
}

/// Well-formedness of an expression's model; see [`ident_wf`].
pub open spec fn expr_wf(e: SpecExpression, n: int) -> bool {
    match e {
        SpecExpression::Identifier(id) => ident_wf(id, n),
        SpecExpression::NumberLiteral(l) => span_wf(l.span, n),
    }
}

/// Well-formedness of an operand's model; see [`ident_wf`].
pub open spec fn operand_wf(op: SpecOperand, n: int) -> bool {
    &&& span_wf(op.span, n)
    &&& match op.kind {
        SpecOperandKind::Absent => true,
        SpecOperandKind::Immediate(e) => expr_wf(e, n),
        SpecOperandKind::Direct(e) => expr_wf(e, n),
    }
}

/// Well-formedness of a statement's model; see [`ident_wf`].
pub open spec fn stmt_wf(s: SpecStatement, n: int) -> bool {
    match s {
        SpecStatement::ExplicitLabel(l) => ident_wf(l.identifier, n) && expr_wf(l.value, n),
        SpecStatement::ImplicitLabel(l) => ident_wf(l.identifier, n),
        SpecStatement::Instruction(i) => ident_wf(i.mnemonic, n) && operand_wf(i.operand, n),
    }
}

} // verus!
