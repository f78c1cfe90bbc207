//! The rule engine: a two-pass batch computation over the immutable
//! statement sequence.
//!
//! Pass one records every label declaration, in order, as a distinct
//! entry. Pass two walks the instructions: a direct identifier operand
//! removes one entry — the first positional match by name, so duplicate
//! declarations stay trackable and a reference consumes only one — and
//! a direct decimal number literal yields a violation. Every entry
//! still present afterwards yields an unreferenced-label violation.
//! The whole computation is pinned by [`violations_spec`]; the
//! executable [`check_statements`] returns exactly its value.

use vstd::prelude::*;
use crate::ast::{
    Span, span_wf, Identifier, SpecIdentifier, Expression, InstructionOperandKind,
    SpecOperandKind, SpecExpression, Statement, SpecStatement, NumberLiteralBase, copy_bytes,
    stmt_wf, ident_wf,
};

verus! {

/// The two rules this checker knows.
#[derive(Clone, Copy, PartialEq, Eq, Structural, Debug)]
pub enum RuleViolationKind {
    /// A label declared but never referenced by a direct identifier
    /// operand.
    UnreferencedLabel,
    /// Memory referenced through a decimal number literal.
    DecimalAddress,
}

/// A finding: a rule plus the source extent it concerns.
#[derive(Clone, Copy, PartialEq, Eq, Structural, Debug)]
pub struct RuleViolation {
    pub kind: RuleViolationKind,
    pub span: Span,
}

/// The label declaration a statement makes, if any.
pub open spec fn stmt_label(st: SpecStatement) -> Seq<SpecIdentifier> {
    match st {
        SpecStatement::ExplicitLabel(l) => seq![l.identifier],
        SpecStatement::ImplicitLabel(l) => seq![l.identifier],
        SpecStatement::Instruction(_) => Seq::empty(),
    }
}

/// The labels declared by the first `n` statements, in order.
pub open spec fn declared_prefix(sts: Seq<SpecStatement>, n: int) -> Seq<SpecIdentifier>
    decreases n,
{
    if n <= 0 {
        Seq::empty()
    } else {
        declared_prefix(sts, n - 1) + stmt_label(sts[n - 1])
    }
}

/// All labels the program declares, in declaration order.
pub open spec fn declared_labels(sts: Seq<SpecStatement>) -> Seq<SpecIdentifier> {
    declared_prefix(sts, sts.len() as int)
}

/// The name a statement references: the name of a direct identifier
/// operand, and nothing else.
pub open spec fn stmt_reference(st: SpecStatement) -> Option<Seq<u8>> {
    match st {
        SpecStatement::Instruction(ins) => match ins.operand.kind {
            SpecOperandKind::Direct(SpecExpression::Identifier(id)) => Some(id.name),
            _ => None,
        },
        _ => None,
    }
}

/// Whether a statement is an instruction whose operand is a direct
/// decimal number literal.
pub open spec fn is_decimal_direct(st: SpecStatement) -> bool {
    match st {
        SpecStatement::Instruction(ins) => match ins.operand.kind {
            SpecOperandKind::Direct(SpecExpression::NumberLiteral(l)) => l.base
                is Decimal,
            _ => false,
        },
        _ => false,
    }
}

/// The full operand extent of an instruction statement.
pub open spec fn operand_span(st: SpecStatement) -> Span {
    match st {
        SpecStatement::Instruction(ins) => ins.operand.span,
        _ => Span { start: 0, end: 0 },
    }
}

/// The decimal-address violation a statement yields, if any.
pub open spec fn stmt_decimal_violation(st: SpecStatement) -> Seq<RuleViolation> {
    if is_decimal_direct(st) {
        seq![RuleViolation { kind: RuleViolationKind::DecimalAddress, span: operand_span(st) }]
    } else {
        Seq::empty()
    }
}

/// The decimal-address violations of the first `n` statements, in
/// statement order.
pub open spec fn decimal_prefix(sts: Seq<SpecStatement>, n: int) -> Seq<RuleViolation>
    decreases n,
{
    if n <= 0 {
        Seq::empty()
    } else {
        decimal_prefix(sts, n - 1) + stmt_decimal_violation(sts[n - 1])
    }
}

/// All decimal-address violations of the program, in statement order.
pub open spec fn decimal_violations(sts: Seq<SpecStatement>) -> Seq<RuleViolation> {
    decimal_prefix(sts, sts.len() as int)
}

/// Removes the first entry whose name is `name`, and nothing else.
pub open spec fn remove_first(labels: Seq<SpecIdentifier>, name: Seq<u8>) -> Seq<SpecIdentifier>
    decreases labels.len(),
{
    if labels.len() == 0 {
        labels
    } else if labels[0].name == name {
        labels.drop_first()
    } else {
        seq![labels[0]] + remove_first(labels.drop_first(), name)
    }
}

/// One pass-two step on the tracked labels: a direct identifier operand
/// consumes the first matching declaration, every other statement
/// leaves the collection as it is.
pub open spec fn step_labels(labels: Seq<SpecIdentifier>, st: SpecStatement) -> Seq<
    SpecIdentifier,
> {
    match stmt_reference(st) {
        Some(name) => remove_first(labels, name),
        None => labels,
    }
}

/// The tracked labels after pass two has processed the first `n`
/// statements.
pub open spec fn labels_after(sts: Seq<SpecStatement>, n: int) -> Seq<SpecIdentifier>
    decreases n,
{
    if n <= 0 {
        declared_labels(sts)
    } else {
        step_labels(labels_after(sts, n - 1), sts[n - 1])
    }
}

/// The declarations never consumed by a reference, in declaration
/// order.
pub open spec fn remaining_labels(sts: Seq<SpecStatement>) -> Seq<SpecIdentifier> {
    labels_after(sts, sts.len() as int)
}

/// The unreferenced-label violations: one per surviving declaration, at
/// the declaring identifier's extent.
pub open spec fn unreferenced_violations(sts: Seq<SpecStatement>) -> Seq<RuleViolation> {
    remaining_labels(sts).map(
        |i: int, l: SpecIdentifier|
            RuleViolation { kind: RuleViolationKind::UnreferencedLabel, span: l.span },
    )
}

/// Every violation of the program, in emission order: the
/// decimal-address findings in statement order, then the
/// unreferenced-label findings in declaration order.
pub open spec fn violations_spec(sts: Seq<SpecStatement>) -> Seq<RuleViolation> {
    decimal_violations(sts) + unreferenced_violations(sts)
}

/// Returns a copy of an identifier.
fn dup_ident(id: &Identifier) -> (r: Identifier)
    ensures
        r@ == id@,
{
    Identifier { name: copy_bytes(&id.name), span: id.span }
}

/// Returns whether two names hold the same bytes.
fn names_equal(a: &Vec<u8>, b: &Vec<u8>) -> (r: bool)
    ensures
        r == (a@ == b@),
{
    if a.len() != b.len() {
        return false;
    }
    let mut i: usize = 0;
    while i < a.len()
        invariant
            a@.len() == b@.len(),
            i <= a@.len(),
            forall|m: int| 0 <= m < i ==> a@[m] == b@[m],
        decreases a@.len() - i,
    {
        if a[i] != b[i] {
            return false;
        }
        i = i + 1;
    }
    proof {
        assert(a@ =~= b@);
    }
    true
}

pub proof fn lemma_remove_first_at(l: Seq<SpecIdentifier>, name: Seq<u8>, f: int)
    requires
        0 <= f < l.len(),
        l[f].name == name,
        forall|m: int| 0 <= m < f ==> l[m].name != name,
    ensures
        remove_first(l, name) == l.remove(f),
    decreases f,
{
    if f == 0 {
        assert(remove_first(l, name) =~= l.remove(0));
    } else {
        assert(l[0].name != name);
        lemma_remove_first_at(l.drop_first(), name, f - 1);
        assert(l.drop_first()[f - 1] == l[f]);
        assert(seq![l[0]] + l.drop_first().remove(f - 1) =~= l.remove(f));
    }
}

pub proof fn lemma_remove_first_none(l: Seq<SpecIdentifier>, name: Seq<u8>)
    requires
        forall|m: int| 0 <= m < l.len() ==> l[m].name != name,
    ensures
        remove_first(l, name) == l,
    decreases l.len(),
{
    if l.len() > 0 {
        lemma_remove_first_none(l.drop_first(), name);
        assert(seq![l[0]] + l.drop_first() =~= l);
    }
}

/// The executable rule engine. Returns exactly the violation sequence
/// of [`violations_spec`] over the statements' model.
pub fn check_statements(statements: &Vec<Statement>) -> (r: Vec<RuleViolation>)
    ensures
        r@ == violations_spec(statements.deep_view()),
{
    let ghost sv = statements.deep_view();
    let n = statements.len();
    proof {
        assert(sv.len() == n);
    }
    let mut labels: Vec<Identifier> = Vec::new();
    let mut idx: usize = 0;
    while idx < n
        invariant
            sv == statements.deep_view(),
            n == sv.len(),
            n == statements@.len(),
            idx <= n,
            labels.deep_view() == declared_prefix(sv, idx as int),
        decreases n - idx,
    {
        let ghost before = labels.deep_view();
        match &statements[idx] {
            Statement::ExplicitLabel(l) => {
                labels.push(dup_ident(&l.identifier));
            },
            Statement::ImplicitLabel(l) => {
                labels.push(dup_ident(&l.identifier));
            },
            Statement::Instruction(_) => {},
        }
        proof {
            assert(labels.deep_view() =~= declared_prefix(sv, idx as int + 1));
        }
        idx = idx + 1;
    }
    let mut violations: Vec<RuleViolation> = Vec::new();
    let mut idx2: usize = 0;
    while idx2 < n
        invariant
            sv == statements.deep_view(),
            n == sv.len(),
            n == statements@.len(),
            idx2 <= n,
            labels.deep_view() == labels_after(sv, idx2 as int),
            violations@ == decimal_prefix(sv, idx2 as int),
        decreases n - idx2,
    {
        let ghost lv = labels.deep_view();
        let ghost vb = violations@;
        match &statements[idx2] {
            Statement::Instruction(ins) => {
                match &ins.operand.kind {
                    InstructionOperandKind::Direct(Expression::Identifier(target)) => {
                        let ghost name = target@.name;
                        let mut f: usize = 0;
                        loop
                            invariant
                                lv == labels.deep_view(),
                                f <= lv.len(),
                                lv.len() == labels@.len(),
                                forall|m: int| 0 <= m < f ==> lv[m].name != name,
                                name == target@.name,
                            ensures
                                f <= lv.len(),
                                forall|m: int| 0 <= m < f ==> lv[m].name != name,
                                f < lv.len() ==> lv[f as int].name == name,
                                f == lv.len() ==> forall|m: int|
                                    0 <= m < lv.len() ==> lv[m].name != name,
                            decreases lv.len() - f,
                        {
                            if f >= labels.len() {
                                break;
                            }
                            if names_equal(&labels[f].name, &target.name) {
                                proof {
                                    assert(lv[f as int].name == name);
                                }
                                break;
                            }
                            f = f + 1;
                        }
                        if f < labels.len() {
                            labels.remove(f);
                            proof {
                                lemma_remove_first_at(lv, name, f as int);
                                assert(labels.deep_view() =~= lv.remove(f as int));
                                assert(labels.deep_view() == step_labels(lv, sv[idx2 as int]));
                            }
                        } else {
                            proof {
                                lemma_remove_first_none(lv, name);
                                assert(labels.deep_view() == step_labels(lv, sv[idx2 as int]));
                            }
                        }
                        proof {
                            assert(violations@ =~= decimal_prefix(sv, idx2 as int + 1));
                        }
                    },
                    InstructionOperandKind::Direct(Expression::NumberLiteral(lit)) => {
                        match lit.base {
                            NumberLiteralBase::Decimal => {
                                violations.push(
                                    RuleViolation {
                                        kind: RuleViolationKind::DecimalAddress,
                                        span: ins.operand.span,
                                    },
                                );
                            },
                            NumberLiteralBase::Hexadecimal => {},
                        }
                        proof {
                            assert(labels.deep_view() == step_labels(lv, sv[idx2 as int]));
                            assert(violations@ =~= decimal_prefix(sv, idx2 as int + 1));
                        }
                    },
                    _ => {
                        proof {
                            assert(labels.deep_view() == step_labels(lv, sv[idx2 as int]));
                            assert(violations@ =~= decimal_prefix(sv, idx2 as int + 1));
                        }
                    },
                }
            },
            _ => {
                proof {
                    assert(labels.deep_view() == step_labels(lv, sv[idx2 as int]));
                    assert(violations@ =~= decimal_prefix(sv, idx2 as int + 1));
                }
            },
        }
        idx2 = idx2 + 1;
    }
    let total = labels.len();
    let mut li: usize = 0;
    while li < total
        invariant
            sv == statements.deep_view(),
            labels.deep_view() == remaining_labels(sv),
            total == labels@.len(),
            li <= total,
            violations@ == decimal_violations(sv) + unreferenced_violations(sv).take(li as int),
        decreases total - li,
    {
        let ghost vb = violations@;
        let span = labels[li].span;
        violations.push(RuleViolation { kind: RuleViolationKind::UnreferencedLabel, span });
        proof {
            assert(unreferenced_violations(sv).take(li as int + 1) =~= unreferenced_violations(
                sv,
            ).take(li as int).push(
                RuleViolation { kind: RuleViolationKind::UnreferencedLabel, span },
            ));
            assert(violations@ =~= decimal_violations(sv) + unreferenced_violations(sv).take(
                li as int + 1,
            ));
        }
        li = li + 1;
    }
    proof {
        assert(unreferenced_violations(sv).take(total as int) =~= unreferenced_violations(sv));
        assert(violations@ =~= violations_spec(sv));
    }
    violations
}


/// The entries of `l` whose name is `name`, in order.
pub open spec fn with_name(l: Seq<SpecIdentifier>, name: Seq<u8>) -> Seq<SpecIdentifier>
    decreases l.len(),
{
    if l.len() == 0 {
        l
    } else if l[0].name == name {
        seq![l[0]] + with_name(l.drop_first(), name)
    } else {
        with_name(l.drop_first(), name)
    }
}

/// How many of the first `n` statements reference `name`.
pub open spec fn reference_prefix(sts: Seq<SpecStatement>, name: Seq<u8>, n: int) -> nat
    decreases n,
{
    if n <= 0 {
        0
    } else {
        reference_prefix(sts, name, n - 1) + (if stmt_reference(sts[n - 1]) == Some(name) {
            1nat
        } else {
            0nat
        })
    }
}

/// How many statements of the program reference `name`.
pub open spec fn references_to(sts: Seq<SpecStatement>, name: Seq<u8>) -> nat {
    reference_prefix(sts, name, sts.len() as int)
}

proof fn lemma_with_name_cons(x: SpecIdentifier, r: Seq<SpecIdentifier>, name: Seq<u8>)
    ensures
        with_name(seq![x] + r, name) == (if x.name == name {
            seq![x] + with_name(r, name)
        } else {
            with_name(r, name)
        }),
{
    let l = seq![x] + r;
    assert(l.len() > 0);
    assert(l[0] == x);
    assert(l.drop_first() =~= r);
}

proof fn lemma_remove_first_other(l: Seq<SpecIdentifier>, m: Seq<u8>, name: Seq<u8>)
    requires
        m != name,
    ensures
        with_name(remove_first(l, m), name) == with_name(l, name),
    decreases l.len(),
{
    if l.len() > 0 {
        if l[0].name == m {
            assert(l[0].name != name);
        } else {
            lemma_remove_first_other(l.drop_first(), m, name);
            lemma_with_name_cons(l[0], remove_first(l.drop_first(), m), name);
            if l[0].name == name {
                assert(with_name(l, name) == seq![l[0]] + with_name(l.drop_first(), name));
            }
        }
    }
}

proof fn lemma_remove_first_same(l: Seq<SpecIdentifier>, name: Seq<u8>)
    ensures
        with_name(remove_first(l, name), name) == (if with_name(l, name).len() == 0 {
            with_name(l, name)
        } else {
            with_name(l, name).drop_first()
        }),
    decreases l.len(),
{
    if l.len() > 0 {
        if l[0].name == name {
            assert(with_name(l, name) == seq![l[0]] + with_name(l.drop_first(), name));
            assert(with_name(l, name).drop_first() =~= with_name(l.drop_first(), name));
        } else {
            lemma_remove_first_same(l.drop_first(), name);
            lemma_with_name_cons(l[0], remove_first(l.drop_first(), name), name);
        }
    }
}

proof fn lemma_with_name_membership(l: Seq<SpecIdentifier>, name: Seq<u8>)
    ensures
        forall|k: int|
            0 <= k < with_name(l, name).len() ==> l.contains(#[trigger] with_name(l, name)[k]),
        forall|k: int| 0 <= k < with_name(l, name).len() ==> with_name(l, name)[k].name == name,
    decreases l.len(),
{
    if l.len() > 0 {
        lemma_with_name_membership(l.drop_first(), name);
        assert forall|k: int| 0 <= k < with_name(l, name).len() implies l.contains(
            #[trigger] with_name(l, name)[k],
        ) && with_name(l, name)[k].name == name by {
            if l[0].name == name {
                if k == 0 {
                    assert(l[0] == with_name(l, name)[0]);
                    assert(l.contains(l[0]));
                } else {
                    let x = with_name(l.drop_first(), name)[k - 1];
                    assert(with_name(l, name)[k] == x);
                    assert(l.drop_first().contains(x));
                    let m = choose|m: int|
                        0 <= m < l.drop_first().len() && l.drop_first()[m] == x;
                    assert(l[m + 1] == x);
                }
            } else {
                let x = with_name(l.drop_first(), name)[k];
                assert(l.drop_first().contains(x));
                let m = choose|m: int| 0 <= m < l.drop_first().len() && l.drop_first()[m] == x;
                assert(l[m + 1] == x);
            }
        }
    }
}

proof fn lemma_labels_after_with_name(sts: Seq<SpecStatement>, name: Seq<u8>, n: int)
    requires
        0 <= n <= sts.len(),
    ensures
        with_name(labels_after(sts, n), name) == (if reference_prefix(sts, name, n) <= with_name(
            declared_labels(sts),
            name,
        ).len() {
            with_name(declared_labels(sts), name).skip(reference_prefix(sts, name, n) as int)
        } else {
            Seq::<SpecIdentifier>::empty()
        }),
    decreases n,
{
    let d = with_name(declared_labels(sts), name);
    if n == 0 {
        assert(d.skip(0) =~= d);
    } else {
        lemma_labels_after_with_name(sts, name, n - 1);
        let prev = labels_after(sts, n - 1);
        let c = reference_prefix(sts, name, n - 1);
        match stmt_reference(sts[n - 1]) {
            Some(m) => {
                if m == name {
                    lemma_remove_first_same(prev, name);
                    if c <= d.len() {
                        if with_name(prev, name).len() == 0 {
                            assert(d.skip(c as int).len() == 0);
                            assert(c == d.len());
                        } else {
                            assert(d.skip(c as int).drop_first() =~= d.skip(c as int + 1));
                        }
                    }
                } else {
                    lemma_remove_first_other(prev, m, name);
                }
            },
            None => {},
        }
    }
}

/// Law: completeness of the label pass. For every program and every
/// name that no direct identifier operand references, the surviving
/// entries of that name are exactly the declared entries of that name
/// (each declaration once, duplicates kept apart), and each yields an
/// unreferenced-label violation at its declaring extent.
pub proof fn lemma_label_pass_completeness(sts: Seq<SpecStatement>, name: Seq<u8>)
    requires
        references_to(sts, name) == 0,
    ensures
        with_name(remaining_labels(sts), name) == with_name(declared_labels(sts), name),
        forall|k: int|
            0 <= k < with_name(declared_labels(sts), name).len() ==> violations_spec(
                sts,
            ).contains(
                RuleViolation {
                    kind: RuleViolationKind::UnreferencedLabel,
                    span: #[trigger] with_name(declared_labels(sts), name)[k].span,
                },
            ),
{
    let d = with_name(declared_labels(sts), name);
    lemma_labels_after_with_name(sts, name, sts.len() as int);
    assert(d.skip(0) =~= d);
    let rem = remaining_labels(sts);
    lemma_with_name_membership(rem, name);
    assert forall|k: int| 0 <= k < d.len() implies violations_spec(sts).contains(
        RuleViolation { kind: RuleViolationKind::UnreferencedLabel, span: #[trigger] d[k].span },
    ) by {
        let x = with_name(rem, name)[k];
        assert(x == d[k]);
        assert(rem.contains(x));
        let i = choose|i: int| 0 <= i < rem.len() && rem[i] == x;
        let v = RuleViolation { kind: RuleViolationKind::UnreferencedLabel, span: x.span };
        assert(unreferenced_violations(sts)[i] == v);
        let w = decimal_violations(sts).len() + i;
        assert(violations_spec(sts)[w as int] == v);
        assert(violations_spec(sts).contains(v));
    }
}

/// Law: a reference marks exactly one declaration. Given exactly two
/// declarations of a name and exactly one direct identifier reference
/// to it, exactly one declaration remains reported — the later one,
/// since a reference consumes the first positional match — and it
/// yields an unreferenced-label violation at its declaring extent.
pub proof fn lemma_reference_marks_one_declaration(sts: Seq<SpecStatement>, name: Seq<u8>)
    requires
        with_name(declared_labels(sts), name).len() == 2,
        references_to(sts, name) == 1,
    ensures
        with_name(remaining_labels(sts), name).len() == 1,
        with_name(remaining_labels(sts), name)[0] == with_name(declared_labels(sts), name)[1],
        violations_spec(sts).contains(
            RuleViolation {
                kind: RuleViolationKind::UnreferencedLabel,
                span: with_name(declared_labels(sts), name)[1].span,
            },
        ),
{
    let d = with_name(declared_labels(sts), name);
    lemma_labels_after_with_name(sts, name, sts.len() as int);
    assert(d.skip(1) =~= seq![d[1]]);
    let rem = remaining_labels(sts);
    lemma_with_name_membership(rem, name);
    let x = with_name(rem, name)[0];
    assert(x == d[1]);
    assert(rem.contains(x));
    let i = choose|i: int| 0 <= i < rem.len() && rem[i] == x;
    let v = RuleViolation { kind: RuleViolationKind::UnreferencedLabel, span: x.span };
    assert(unreferenced_violations(sts)[i] == v);
    let w = decimal_violations(sts).len() + i;
    assert(violations_spec(sts)[w as int] == v);
    assert(violations_spec(sts).contains(v));
}

proof fn lemma_decimal_prefix_members(sts: Seq<SpecStatement>, n: int)
    requires
        0 <= n <= sts.len(),
    ensures
        forall|i: int|
            0 <= i < n && #[trigger] is_decimal_direct(sts[i]) ==> decimal_prefix(
                sts,
                n,
            ).contains(
                RuleViolation {
                    kind: RuleViolationKind::DecimalAddress,
                    span: operand_span(sts[i]),
                },
            ),
        forall|k: int|
            0 <= k < decimal_prefix(sts, n).len() ==> exists|i: int|
                0 <= i < n && is_decimal_direct(sts[i]) && #[trigger] decimal_prefix(sts, n)[k]
                    == (RuleViolation {
                    kind: RuleViolationKind::DecimalAddress,
                    span: operand_span(sts[i]),
                }),
    decreases n,
{
    if n > 0 {
        lemma_decimal_prefix_members(sts, n - 1);
        let p = decimal_prefix(sts, n - 1);
        let q = decimal_prefix(sts, n);
        assert forall|i: int| 0 <= i < n && #[trigger] is_decimal_direct(sts[i]) implies q.contains(
            RuleViolation { kind: RuleViolationKind::DecimalAddress, span: operand_span(sts[i]) },
        ) by {
            let v = RuleViolation {
                kind: RuleViolationKind::DecimalAddress,
                span: operand_span(sts[i]),
            };
            if i < n - 1 {
                assert(p.contains(v));
                let k = choose|k: int| 0 <= k < p.len() && p[k] == v;
                assert(q[k] == v);
            } else {
                assert(q[p.len() as int] == v);
            }
        }
        assert forall|k: int| 0 <= k < q.len() implies exists|i: int|
            0 <= i < n && is_decimal_direct(sts[i]) && #[trigger] q[k] == (RuleViolation {
                kind: RuleViolationKind::DecimalAddress,
                span: operand_span(sts[i]),
            }) by {
            if k < p.len() {
                assert(q[k] == p[k]);
            } else {
                assert(is_decimal_direct(sts[n - 1]));
                assert(q[k] == RuleViolation {
                    kind: RuleViolationKind::DecimalAddress,
                    span: operand_span(sts[n - 1]),
                });
            }
        }
    }
}

/// Law: decimal-address detection. Every instruction whose operand is a
/// direct decimal number literal yields a decimal-address violation
/// whose extent is the operand's.
pub proof fn lemma_decimal_address_detection(sts: Seq<SpecStatement>)
    ensures
        forall|i: int|
            0 <= i < sts.len() && #[trigger] is_decimal_direct(sts[i]) ==> violations_spec(
                sts,
            ).contains(
                RuleViolation {
                    kind: RuleViolationKind::DecimalAddress,
                    span: operand_span(sts[i]),
                },
            ),
{
    lemma_decimal_prefix_members(sts, sts.len() as int);
    let dv = decimal_violations(sts);
    assert forall|i: int| 0 <= i < sts.len() && #[trigger] is_decimal_direct(
        sts[i],
    ) implies violations_spec(sts).contains(
        RuleViolation { kind: RuleViolationKind::DecimalAddress, span: operand_span(sts[i]) },
    ) by {
        let v = RuleViolation {
            kind: RuleViolationKind::DecimalAddress,
            span: operand_span(sts[i]),
        };
        assert(dv.contains(v));
        let k = choose|k: int| 0 <= k < dv.len() && dv[k] == v;
        assert(violations_spec(sts)[k] == v);
    }
}

/// Law: only a direct decimal number literal triggers the
/// decimal-address rule. Immediate operands, whatever their literal,
/// and hexadecimal direct literals never do: every decimal-address
/// violation traces to an instruction whose operand is a direct decimal
/// literal, at that operand's extent.
pub proof fn lemma_decimal_address_only_direct(sts: Seq<SpecStatement>)
    ensures
        forall|k: int|
            0 <= k < violations_spec(sts).len() && #[trigger] violations_spec(sts)[k].kind
                is DecimalAddress ==> exists|i: int|
                0 <= i < sts.len() && is_decimal_direct(sts[i]) && violations_spec(sts)[k].span
                    == operand_span(sts[i]),
{
    lemma_decimal_prefix_members(sts, sts.len() as int);
    let dv = decimal_violations(sts);
    let vs = violations_spec(sts);
    assert forall|k: int|
        0 <= k < vs.len() && #[trigger] vs[k].kind is DecimalAddress implies exists|i: int|
        0 <= i < sts.len() && is_decimal_direct(sts[i]) && vs[k].span == operand_span(sts[i]) by {
        if k < dv.len() {
            assert(vs[k] == dv[k]);
            let i = choose|i: int|
                0 <= i < sts.len() && is_decimal_direct(sts[i]) && dv[k] == RuleViolation {
                    kind: RuleViolationKind::DecimalAddress,
                    span: operand_span(sts[i]),
                };
            assert(vs[k].span == operand_span(sts[i]));
        } else {
            assert(vs[k] == unreferenced_violations(sts)[k - dv.len()]);
            assert(vs[k].kind is UnreferencedLabel);
        }
    }
}

proof fn lemma_remove_first_contains(l: Seq<SpecIdentifier>, name: Seq<u8>)
    ensures
        forall|k: int|
            0 <= k < remove_first(l, name).len() ==> l.contains(
                #[trigger] remove_first(l, name)[k],
            ),
    decreases l.len(),
{
    if l.len() > 0 {
        if l[0].name == name {
            assert forall|k: int| 0 <= k < remove_first(l, name).len() implies l.contains(
                #[trigger] remove_first(l, name)[k],
            ) by {
                assert(remove_first(l, name)[k] == l[k + 1]);
            }
        } else {
            lemma_remove_first_contains(l.drop_first(), name);
            assert forall|k: int| 0 <= k < remove_first(l, name).len() implies l.contains(
                #[trigger] remove_first(l, name)[k],
            ) by {
                if k == 0 {
                    assert(remove_first(l, name)[0] == l[0]);
                } else {
                    let x = remove_first(l.drop_first(), name)[k - 1];
                    assert(remove_first(l, name)[k] == x);
                    assert(l.drop_first().contains(x));
                    let m = choose|m: int|
                        0 <= m < l.drop_first().len() && l.drop_first()[m] == x;
                    assert(l[m + 1] == x);
                }
            }
        }
    }
}

proof fn lemma_labels_after_contains(sts: Seq<SpecStatement>, n: int)
    requires
        0 <= n <= sts.len(),
    ensures
        forall|k: int|
            0 <= k < labels_after(sts, n).len() ==> declared_labels(sts).contains(
                #[trigger] labels_after(sts, n)[k],
            ),
    decreases n,
{
    if n > 0 {
        lemma_labels_after_contains(sts, n - 1);
        let prev = labels_after(sts, n - 1);
        match stmt_reference(sts[n - 1]) {
            Some(m) => {
                lemma_remove_first_contains(prev, m);
                assert forall|k: int|
                    0 <= k < labels_after(sts, n).len() implies declared_labels(sts).contains(
                    #[trigger] labels_after(sts, n)[k],
                ) by {
                    let x = labels_after(sts, n)[k];
                    assert(prev.contains(x));
                    let i = choose|i: int| 0 <= i < prev.len() && prev[i] == x;
                    assert(declared_labels(sts).contains(prev[i]));
                }
            },
            None => {},
        }
    }
}

proof fn lemma_declared_wf(sts: Seq<SpecStatement>, n: int, src_len: int)
    requires
        0 <= n <= sts.len(),
        forall|k: int| 0 <= k < sts.len() ==> stmt_wf(#[trigger] sts[k], src_len),
    ensures
        forall|k: int|
            0 <= k < declared_prefix(sts, n).len() ==> ident_wf(
                #[trigger] declared_prefix(sts, n)[k],
                src_len,
            ),
    decreases n,
{
    if n > 0 {
        lemma_declared_wf(sts, n - 1, src_len);
        let p = declared_prefix(sts, n - 1);
        assert forall|k: int| 0 <= k < declared_prefix(sts, n).len() implies ident_wf(
            #[trigger] declared_prefix(sts, n)[k],
            src_len,
        ) by {
            if k < p.len() {
                assert(declared_prefix(sts, n)[k] == p[k]);
            } else {
                assert(stmt_wf(sts[n - 1], src_len));
            }
        }
    }
}

/// Every violation of a well-formed program points into the source:
/// the rule engine invents no extent.
pub proof fn lemma_violations_wf(sts: Seq<SpecStatement>, src_len: int)
    requires
        forall|k: int| 0 <= k < sts.len() ==> stmt_wf(#[trigger] sts[k], src_len),
    ensures
        forall|k: int|
            0 <= k < violations_spec(sts).len() ==> span_wf(
                #[trigger] violations_spec(sts)[k].span,
                src_len,
            ),
{
    lemma_decimal_prefix_members(sts, sts.len() as int);
    lemma_labels_after_contains(sts, sts.len() as int);
    lemma_declared_wf(sts, sts.len() as int, src_len);
    let dv = decimal_violations(sts);
    let vs = violations_spec(sts);
    assert forall|k: int| 0 <= k < vs.len() implies span_wf(
        #[trigger] vs[k].span,
        src_len,
    ) by {
        if k < dv.len() {
            assert(vs[k] == dv[k]);
            let i = choose|i: int|
                0 <= i < sts.len() && is_decimal_direct(sts[i]) && dv[k] == RuleViolation {
                    kind: RuleViolationKind::DecimalAddress,
                    span: operand_span(sts[i]),
                };
            assert(stmt_wf(sts[i], src_len));
        } else {
            let i = k - dv.len();
            let x = remaining_labels(sts)[i];
            assert(vs[k] == unreferenced_violations(sts)[i]);
            assert(vs[k].span == x.span);
            assert(declared_labels(sts).contains(x));
            let m = choose|m: int|
                0 <= m < declared_labels(sts).len() && declared_labels(sts)[m] == x;
            assert(ident_wf(declared_labels(sts)[m], src_len));
        }
    }
}


} // verus!
