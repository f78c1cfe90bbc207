//! The diagnostic renderer: source bytes plus an unordered collection
//! of violations to a deterministic, ordered textual report.
//!
//! Violations are sorted by ascending span start, ties kept in emission
//! order (a stable insertion sort). Each violation is mapped back to
//! its enclosing source line — the last line whose start offset is not
//! past the violation's start — and printed as a four-line block: the
//! description, a 1-based line and 0-based column position, the raw
//! line text with a trailing carriage return stripped from display but
//! not from offset arithmetic, and a caret underline, followed by a
//! blank line. The whole report is pinned by [`report_spec`]; the
//! executable [`render_report`] returns exactly its bytes.

use vstd::prelude::*;
use vstd::utf8::encode_utf8;
use vstd::string::StringSliceAdditionalSpecFns;
use vstd::string::StrSliceExecFns;
use crate::ast::{span_wf, push_all, subrange_vec};
use crate::digits::{dec_digits, push_dec};
use crate::rules::{RuleViolation, RuleViolationKind};

verus! {

broadcast use vstd::seq_lib::group_to_multiset_ensures, vstd::multiset::group_multiset_axioms;

/// The number of line feeds in `s[0..k)`.
pub open spec fn count_nl(s: Seq<u8>, k: int) -> nat
    decreases k,
{
    if k <= 0 {
        0
    } else {
        count_nl(s, k - 1) + (if s[k - 1] == 10 {
            1nat
        } else {
            0nat
        })
    }
}

/// The start offset of the line enclosing offset `k`: position 0, or
/// the offset just after the last line feed before `k`.
pub open spec fn line_start_of(s: Seq<u8>, k: int) -> int
    decreases k,
{
    if k <= 0 {
        0
    } else if s[k - 1] == 10 {
        k
    } else {
        line_start_of(s, k - 1)
    }
}

/// The end offset of the line enclosing offset `k`: the next line feed
/// at or after `k`, or the end of the source.
pub open spec fn line_end_of(s: Seq<u8>, k: int) -> int
    decreases s.len() - k,
{
    if k < 0 {
        0
    } else if k >= s.len() {
        s.len() as int
    } else if s[k] == 10 {
        k
    } else {
        line_end_of(s, k + 1)
    }
}

/// Law: line mapping. For an offset `k` into the source, the enclosing
/// line start is at or before `k`, sits at position 0 or right after a
/// line feed, and no line feed lies between it and `k` — so the
/// reported 1-based line number, one more than the line feeds before
/// `k`, and the 0-based column, `k` minus the line start, match manual
/// counting, with every byte (a carriage return too) counted in offset
/// arithmetic. The enclosing line end is the first line feed at or
/// after `k`, or the end of the source.
pub proof fn lemma_line_mapping(s: Seq<u8>, k: int)
    requires
        0 <= k <= s.len(),
    ensures
        0 <= line_start_of(s, k) <= k,
        line_start_of(s, k) == 0 || s[line_start_of(s, k) - 1] == 10,
        forall|j: int| line_start_of(s, k) <= j < k ==> s[j] != 10,
        count_nl(s, k) == count_nl(s, line_start_of(s, k)),
        k <= line_end_of(s, k) <= s.len(),
        line_end_of(s, k) == s.len() || s[line_end_of(s, k)] == 10,
        forall|j: int| k <= j < line_end_of(s, k) ==> s[j] != 10,
    decreases s.len() + k,
{
    if k > 0 && s[k - 1] != 10 {
        lemma_line_mapping(s, k - 1);
    }
    if k < s.len() && s[k] != 10 {
        lemma_line_end(s, k);
    }
}

proof fn lemma_line_end(s: Seq<u8>, k: int)
    requires
        0 <= k <= s.len(),
    ensures
        k <= line_end_of(s, k) <= s.len(),
        line_end_of(s, k) == s.len() || s[line_end_of(s, k)] == 10,
        forall|j: int| k <= j < line_end_of(s, k) ==> s[j] != 10,
    decreases s.len() - k,
{
    if k < s.len() && s[k] != 10 {
        lemma_line_end(s, k + 1);
    }
}

/// The report description of a rule.
pub open spec fn description_bytes(k: RuleViolationKind) -> Seq<u8> {
    match k {
        RuleViolationKind::UnreferencedLabel => encode_utf8("unreferenced label"@),
        RuleViolationKind::DecimalAddress => encode_utf8(
            "memory referenced via decimal address"@,
        ),
    }
}

/// The first two lines of a violation's report block: the description,
/// then the 1-based line number and 0-based column of the span's start.
pub open spec fn block_head(s: Seq<u8>, v: RuleViolation) -> Seq<u8> {
    let k = v.span.start as int;
    let ls = line_start_of(s, k);
    encode_utf8("rule violation: "@) + description_bytes(v.kind) + seq![10u8] + encode_utf8(
        "at line "@,
    ) + dec_digits(count_nl(s, k) + 1) + encode_utf8(", position "@) + dec_digits(
        (k - ls) as nat,
    ) + seq![10u8]
}

/// The last two lines of a violation's report block plus the blank
/// separator: the enclosing line's text, a trailing carriage return
/// stripped from display only, and the caret underline.
pub open spec fn block_tail(s: Seq<u8>, v: RuleViolation) -> Seq<u8> {
    let k = v.span.start as int;
    let ls = line_start_of(s, k);
    let le = line_end_of(s, k);
    let text_end = if le > ls && s[le - 1] == 13 {
        le - 1
    } else {
        le
    };
    s.subrange(ls, text_end) + seq![10u8] + Seq::new((k - ls) as nat, |i: int| 32u8) + Seq::new(
        (v.span.end - v.span.start) as nat,
        |i: int| 94u8,
    ) + seq![10u8] + seq![10u8]
}

/// The four-line report block of one violation, followed by a blank
/// separator line.
pub open spec fn spec_block(s: Seq<u8>, v: RuleViolation) -> Seq<u8> {
    block_head(s, v) + block_tail(s, v)
}

/// The concatenated blocks of a violation sequence, in its order.
pub open spec fn blocks_of(s: Seq<u8>, vs: Seq<RuleViolation>) -> Seq<u8>
    decreases vs.len(),
{
    if vs.len() == 0 {
        Seq::empty()
    } else {
        blocks_of(s, vs.drop_last()) + spec_block(s, vs.last())
    }
}

/// Inserts a violation behind every already-sorted violation whose
/// start does not exceed its own: the stable insertion step.
pub open spec fn insert_sorted(sorted: Seq<RuleViolation>, v: RuleViolation) -> Seq<RuleViolation>
    decreases sorted.len(),
{
    if sorted.len() > 0 && sorted.last().span.start > v.span.start {
        insert_sorted(sorted.drop_last(), v).push(sorted.last())
    } else {
        sorted.push(v)
    }
}

/// The violations sorted by ascending span start, ties kept in the
/// original order: a stable insertion sort.
pub open spec fn sort_violations(vs: Seq<RuleViolation>) -> Seq<RuleViolation>
    decreases vs.len(),
{
    if vs.len() == 0 {
        vs
    } else {
        insert_sorted(sort_violations(vs.drop_last()), vs.last())
    }
}

/// The whole report: one block per violation, in ascending span-start
/// order.
pub open spec fn report_spec(s: Seq<u8>, vs: Seq<RuleViolation>) -> Seq<u8> {
    blocks_of(s, sort_violations(vs))
}


/// Ascending span-start order.
pub open spec fn sorted_by_start(vs: Seq<RuleViolation>) -> bool {
    forall|a: int, b: int|
        0 <= a < b < vs.len() ==> (#[trigger] vs[a]).span.start <= (#[trigger] vs[b]).span.start
}

proof fn lemma_insert_sorted_keeps(sorted: Seq<RuleViolation>, v: RuleViolation)
    requires
        sorted_by_start(sorted),
    ensures
        sorted_by_start(insert_sorted(sorted, v)),
        forall|k: int|
            0 <= k < insert_sorted(sorted, v).len() ==> (#[trigger] insert_sorted(sorted, v)[k]
                == v || sorted.contains(insert_sorted(sorted, v)[k])),
    decreases sorted.len(),
{
    let r = insert_sorted(sorted, v);
    if sorted.len() > 0 && sorted.last().span.start > v.span.start {
        let inner = sorted.drop_last();
        assert(sorted_by_start(inner));
        lemma_insert_sorted_keeps(inner, v);
        let ri = insert_sorted(inner, v);
        assert forall|k: int| 0 <= k < r.len() implies (#[trigger] r[k] == v || sorted.contains(
            r[k],
        )) by {
            if k < ri.len() {
                assert(r[k] == ri[k]);
                if ri[k] != v {
                    assert(inner.contains(ri[k]));
                    let m = choose|m: int| 0 <= m < inner.len() && inner[m] == ri[k];
                    assert(sorted[m] == ri[k]);
                }
            } else {
                assert(r[k] == sorted.last());
                assert(sorted.contains(sorted.last()));
            }
        }
        assert forall|a: int, b: int| 0 <= a < b < r.len() implies (#[trigger] r[a]).span.start
            <= (#[trigger] r[b]).span.start by {
            if b < ri.len() {
            } else {
                assert(r[b] == sorted.last());
                if r[a] == v {
                    assert(r[a].span.start <= r[b].span.start);
                } else {
                    assert(sorted.contains(r[a]));
                    let m = choose|m: int| 0 <= m < sorted.len() && sorted[m] == r[a];
                    if m < sorted.len() - 1 {
                        assert(sorted[m].span.start <= sorted.last().span.start);
                    }
                }
            }
        }
    } else {
        assert forall|k: int| 0 <= k < r.len() implies (#[trigger] r[k] == v || sorted.contains(
            r[k],
        )) by {
            if k < sorted.len() {
                assert(r[k] == sorted[k]);
                assert(sorted.contains(sorted[k]));
            }
        }
        assert forall|a: int, b: int| 0 <= a < b < r.len() implies (#[trigger] r[a]).span.start
            <= (#[trigger] r[b]).span.start by {
            if b == sorted.len() {
                assert(r[b] == v);
                assert(r[a] == sorted[a]);
                if sorted.len() > 0 && a < sorted.len() - 1 {
                    assert(sorted[a].span.start <= sorted.last().span.start);
                }
            }
        }
    }
}

proof fn lemma_insert_sorted_multiset(sorted: Seq<RuleViolation>, v: RuleViolation)
    ensures
        insert_sorted(sorted, v).to_multiset() == sorted.to_multiset().insert(v),
    decreases sorted.len(),
{
    if sorted.len() > 0 && sorted.last().span.start > v.span.start {
        let inner = sorted.drop_last();
        lemma_insert_sorted_multiset(inner, v);
        assert(insert_sorted(inner, v).push(sorted.last()).to_multiset() =~= insert_sorted(
            inner,
            v,
        ).to_multiset().insert(sorted.last()));
        assert(inner.push(sorted.last()) =~= sorted);
        assert(inner.push(sorted.last()).to_multiset() =~= inner.to_multiset().insert(
            sorted.last(),
        ));
        assert(inner.to_multiset().insert(v).insert(sorted.last()) =~= inner.to_multiset().insert(
            sorted.last(),
        ).insert(v));
    } else {
        assert(sorted.push(v).to_multiset() =~= sorted.to_multiset().insert(v));
    }
}

/// The report is ordered and complete: the violations it renders stand
/// in ascending span-start order, whatever order they were emitted in,
/// and they are exactly the emitted violations — the sort loses none
/// and invents none.
pub proof fn lemma_report_ordered(vs: Seq<RuleViolation>)
    ensures
        sorted_by_start(sort_violations(vs)),
        sort_violations(vs).to_multiset() == vs.to_multiset(),
    decreases vs.len(),
{
    if vs.len() > 0 {
        lemma_report_ordered(vs.drop_last());
        lemma_insert_sorted_keeps(sort_violations(vs.drop_last()), vs.last());
        lemma_insert_sorted_multiset(sort_violations(vs.drop_last()), vs.last());
        assert(vs.drop_last().push(vs.last()) =~= vs);
        assert(vs.drop_last().push(vs.last()).to_multiset() =~= vs.drop_last().to_multiset().insert(
            vs.last(),
        ));
    }
}

proof fn lemma_insert_sorted_at(sorted: Seq<RuleViolation>, v: RuleViolation, idx: int)
    requires
        0 <= idx <= sorted.len(),
        forall|m: int| idx <= m < sorted.len() ==> sorted[m].span.start > v.span.start,
        idx > 0 ==> sorted[idx - 1].span.start <= v.span.start,
    ensures
        insert_sorted(sorted, v) == sorted.insert(idx, v),
    decreases sorted.len(),
{
    if idx == sorted.len() {
        assert(insert_sorted(sorted, v) == sorted.push(v));
        assert(sorted.push(v) =~= sorted.insert(idx, v));
    } else {
        assert(sorted.last().span.start > v.span.start);
        lemma_insert_sorted_at(sorted.drop_last(), v, idx);
        assert(insert_sorted(sorted, v) == sorted.drop_last().insert(idx, v).push(sorted.last()));
        assert(sorted.drop_last().insert(idx, v).push(sorted.last()) =~= sorted.insert(idx, v));
    }
}

/// Appends `count` copies of `b` to `out`.
fn push_repeat(out: &mut Vec<u8>, b: u8, count: usize)
    ensures
        final(out)@ == old(out)@ + Seq::new(count as nat, |i: int| b),
{
    let mut i: usize = 0;
    while i < count
        invariant
            i <= count,
            out@ == old(out)@ + Seq::new(i as nat, |m: int| b),
        decreases count - i,
    {
        out.push(b);
        i = i + 1;
        assert(out@ =~= old(out)@ + Seq::new(i as nat, |m: int| b));
    }
}

/// Appends the bytes of a string slice to `out`.
fn push_str_bytes(out: &mut Vec<u8>, t: &str)
    ensures
        final(out)@ == old(out)@ + encode_utf8(t@),
{
    let bytes = t.as_bytes_vec();
    push_all(out, &bytes);
}

/// Appends the description and position lines of one violation's
/// block to `out`.
fn render_head(out: &mut Vec<u8>, src: &Vec<u8>, v: RuleViolation, cnt: usize, ls: usize)
    requires
        span_wf(v.span, src@.len() as int),
        src@.len() < usize::MAX,
        cnt as nat == count_nl(src@, v.span.start as int),
        ls as int == line_start_of(src@, v.span.start as int),
        ls <= v.span.start,
        cnt <= v.span.start,
    ensures
        final(out)@ == old(out)@ + block_head(src@, v),
{
    let ghost s = src@;
    let k = v.span.start;
    push_str_bytes(out, "rule violation: ");
    match v.kind {
        RuleViolationKind::UnreferencedLabel => {
            push_str_bytes(out, "unreferenced label");
        },
        RuleViolationKind::DecimalAddress => {
            push_str_bytes(out, "memory referenced via decimal address");
        },
    }
    out.push(10);
    push_str_bytes(out, "at line ");
    push_dec(out, cnt + 1);
    push_str_bytes(out, ", position ");
    push_dec(out, k - ls);
    out.push(10);
    proof {
        let kk = k as int;
        let p1 = encode_utf8("rule violation: "@);
        let p2 = description_bytes(v.kind);
        let nl = seq![10u8];
        let p4 = encode_utf8("at line "@);
        let p5 = dec_digits(count_nl(s, kk) + 1);
        let p6 = encode_utf8(", position "@);
        let p7 = dec_digits((kk - line_start_of(s, kk)) as nat);
        let base = old(out)@;
        let q2 = p1 + p2;
        let q3 = q2 + nl;
        let q4 = q3 + p4;
        let q5 = q4 + p5;
        let q6 = q5 + p6;
        let q7 = q6 + p7;
        let q8 = q7 + nl;
        assert((base + p1) + p2 =~= base + q2);
        assert((base + q2) + nl =~= base + q3);
        assert((base + q3) + p4 =~= base + q4);
        assert((base + q4) + p5 =~= base + q5);
        assert((base + q5) + p6 =~= base + q6);
        assert((base + q6) + p7 =~= base + q7);
        assert((base + q7) + nl =~= base + q8);
        assert(out@ == base + q8);
        assert(block_head(s, v) == q8);
    }
}

/// Appends the line text and the caret underline of one violation's
/// block to `out`, plus the blank separator line.
fn render_tail(out: &mut Vec<u8>, src: &Vec<u8>, v: RuleViolation, ls: usize, le: usize)
    requires
        span_wf(v.span, src@.len() as int),
        ls as int == line_start_of(src@, v.span.start as int),
        le as int == line_end_of(src@, v.span.start as int),
        ls <= v.span.start,
        v.span.start <= le <= src@.len(),
    ensures
        final(out)@ == old(out)@ + block_tail(src@, v),
{
    let ghost s = src@;
    let k = v.span.start;
    let text_end: usize = if le > ls && src[le - 1] == 13 {
        le - 1
    } else {
        le
    };
    let text = subrange_vec(src, ls, text_end);
    push_all(out, &text);
    out.push(10);
    push_repeat(out, 32, k - ls);
    push_repeat(out, 94, v.span.end - v.span.start);
    out.push(10);
    out.push(10);
    proof {
        let kk = k as int;
        let lsi = line_start_of(s, kk);
        let lei = line_end_of(s, kk);
        let tei: int = if lei > lsi && s[lei - 1] == 13 {
            lei - 1
        } else {
            lei
        };
        assert(tei == text_end as int);
        let nl = seq![10u8];
        let p9 = s.subrange(lsi, tei);
        let p11 = Seq::new((kk - lsi) as nat, |i: int| 32u8);
        let p12 = Seq::new((v.span.end - v.span.start) as nat, |i: int| 94u8);
        let base = old(out)@;
        let q10 = p9 + nl;
        let q11 = q10 + p11;
        let q12 = q11 + p12;
        let q13 = q12 + nl;
        let q14 = q13 + nl;
        assert((base + p9) + nl =~= base + q10);
        assert((base + q10) + p11 =~= base + q11);
        assert((base + q11) + p12 =~= base + q12);
        assert((base + q12) + nl =~= base + q13);
        assert((base + q13) + nl =~= base + q14);
        assert(out@ == base + q14);
        assert(block_tail(s, v) == q14);
    }
}

/// Appends one violation's report block to `out`.
fn render_block(out: &mut Vec<u8>, src: &Vec<u8>, v: RuleViolation)
    requires
        span_wf(v.span, src@.len() as int),
        src@.len() < usize::MAX,
    ensures
        final(out)@ == old(out)@ + spec_block(src@, v),
{
    let ghost s = src@;
    let n = src.len();
    let k = v.span.start;
    proof {
        lemma_line_mapping(s, k as int);
    }
    // The enclosing line's start: scan back to the last line feed.
    let mut ls: usize = k;
    loop
        invariant
            ls <= k <= n,
            n == s.len(),
            s == src@,
            line_start_of(s, k as int) == line_start_of(s, ls as int),
        ensures
            ls <= k,
            ls as int == line_start_of(s, k as int),
        decreases ls,
    {
        if ls == 0 {
            break;
        }
        if src[ls - 1] == 10 {
            break;
        }
        ls = ls - 1;
    }
    // The enclosing line's end: scan forward to the next line feed.
    let mut le: usize = k;
    loop
        invariant
            k <= le <= n,
            n == s.len(),
            s == src@,
            line_end_of(s, k as int) == line_end_of(s, le as int),
        ensures
            k <= le <= n,
            le as int == line_end_of(s, k as int),
        decreases n - le,
    {
        if le >= n {
            break;
        }
        if src[le] == 10 {
            break;
        }
        le = le + 1;
    }
    // The line number: line feeds before the violation's start.
    let mut cnt: usize = 0;
    let mut m: usize = 0;
    while m < k
        invariant
            m <= k <= n,
            n == s.len(),
            s == src@,
            cnt <= m,
            cnt as nat == count_nl(s, m as int),
        decreases k - m,
    {
        if src[m] == 10 {
            cnt = cnt + 1;
        }
        m = m + 1;
    }
    let ghost base = out@;
    render_head(out, src, v, cnt, ls);
    render_tail(out, src, v, ls, le);
    proof {
        assert((base + block_head(s, v)) + block_tail(s, v) =~= base + (block_head(s, v)
            + block_tail(s, v)));
    }
}

/// Renders the whole report. Returns exactly the bytes of
/// [`report_spec`]: the violations sorted stably by span start, one
/// block each.
pub fn render_report(src: &Vec<u8>, violations: &Vec<RuleViolation>) -> (r: Vec<u8>)
    requires
        forall|k: int|
            0 <= k < violations@.len() ==> span_wf(
                (#[trigger] violations@[k]).span,
                src@.len() as int,
            ),
        src@.len() < usize::MAX,
    ensures
        r@ == report_spec(src@, violations@),
{
    let ghost s = src@;
    let ghost vsv = violations@;
    let total = violations.len();
    let mut sorted: Vec<RuleViolation> = Vec::new();
    let mut i: usize = 0;
    while i < total
        invariant
            s == src@,
            vsv == violations@,
            total == vsv.len(),
            i <= total,
            forall|k: int|
                0 <= k < vsv.len() ==> span_wf((#[trigger] vsv[k]).span, s.len() as int),
            sorted@ == sort_violations(vsv.take(i as int)),
            forall|k: int|
                0 <= k < sorted@.len() ==> span_wf((#[trigger] sorted@[k]).span, s.len() as int),
        decreases total - i,
    {
        let v = violations[i];
        let ghost before = sorted@;
        let mut idx: usize = sorted.len();
        loop
            invariant
                idx <= before.len(),
                before == sorted@,
                forall|m: int| idx <= m < before.len() ==> before[m].span.start > v.span.start,
            ensures
                idx <= before.len(),
                forall|m: int| idx <= m < before.len() ==> before[m].span.start > v.span.start,
                idx > 0 ==> before[idx - 1].span.start <= v.span.start,
            decreases idx,
        {
            if idx == 0 {
                break;
            }
            if sorted[idx - 1].span.start <= v.span.start {
                break;
            }
            idx = idx - 1;
        }
        sorted.insert(idx, v);
        proof {
            lemma_insert_sorted_at(before, v, idx as int);
            assert(vsv.take(i as int + 1).drop_last() =~= vsv.take(i as int));
            assert(vsv.take(i as int + 1).last() == v);
            assert(sorted@ == insert_sorted(sort_violations(vsv.take(i as int)), v));
            assert(vsv.take(i as int + 1).len() == i + 1);
            assert(sort_violations(vsv.take(i as int + 1)) == insert_sorted(
                sort_violations(vsv.take(i as int)),
                v,
            ));
            assert(sorted@ == sort_violations(vsv.take(i as int + 1)));
            before.insert_ensures(idx as int, v);
            assert(v == vsv[i as int]);
            assert(0 <= (i as int) && (i as int) < violations@.len());
            assert(span_wf((violations@[i as int]).span, src@.len() as int));
            assert(span_wf(vsv[i as int].span, s.len() as int));
            assert forall|k: int| 0 <= k < sorted@.len() implies span_wf(
                (#[trigger] sorted@[k]).span,
                s.len() as int,
            ) by {
                if k < idx {
                    assert(sorted@[k] == before[k]);
                } else if k == idx {
                    assert(sorted@[k] == v);
                } else {
                    assert(sorted@[k] == before[k - 1]);
                    assert(span_wf(before[k - 1].span, s.len() as int));
                }
            }
        }
        i = i + 1;
    }
    proof {
        assert(vsv.take(total as int) =~= vsv);
    }
    let count = sorted.len();
    let mut out: Vec<u8> = Vec::new();
    let mut b: usize = 0;
    proof {
        assert(out@ =~= blocks_of(s, sorted@.take(0)));
    }
    while b < count
        invariant
            s == src@,
            count == sorted@.len(),
            b <= count,
            s.len() < usize::MAX,
            sorted@ == sort_violations(vsv),
            forall|k: int|
                0 <= k < sorted@.len() ==> span_wf((#[trigger] sorted@[k]).span, s.len() as int),
            out@ == blocks_of(s, sorted@.take(b as int)),
        decreases count - b,
    {
        let v = sorted[b];
        render_block(&mut out, src, v);
        proof {
            assert(sorted@.take(b as int + 1).drop_last() =~= sorted@.take(b as int));
            assert(sorted@.take(b as int + 1).last() == v);
            assert(sorted@.take(b as int + 1).len() == b + 1);
            assert(blocks_of(s, sorted@.take(b as int + 1)) == blocks_of(s, sorted@.take(b as int))
                + spec_block(s, v));
            assert(out@ == blocks_of(s, sorted@.take(b as int + 1)));
        }
        b = b + 1;
    }
    proof {
        assert(sorted@.take(count as int) =~= sorted@);
    }
    out
}

} // verus!
