//! The whole pipeline, one way only: source bytes to tokens to
//! statements to violations to a rendered report.
//!
//! A lexical or parse fault stops the run before any report; the rule
//! engine itself cannot fail. [`run_spec`] pins the whole computation,
//! so the pipeline is a function of the source bytes alone.

use vstd::prelude::*;
use crate::lexer::{lex, lex_spec, LexError};
use crate::parser::{parse, parse_spec, ParseError};
use crate::rules::{check_statements, violations_spec, lemma_violations_wf};
use crate::render::{render_report, report_spec};
use crate::ast::span_wf;

verus! {

/// Why an analysis run failed: the lexical or the parse fault, as the
/// front end reported it.
#[derive(Clone, Copy, PartialEq, Eq, Structural, Debug)]
pub enum AnalysisError {
    Lex(LexError),
    Parse(ParseError),
}

/// The whole pipeline, pinned: lex, parse, evaluate both rules, render
/// the sorted report.
pub open spec fn run_spec(s: Seq<u8>) -> Result<Seq<u8>, AnalysisError> {
    match lex_spec(s) {
        Err(e) => Err(AnalysisError::Lex(e)),
        Ok(toks) => match parse_spec(s, toks) {
            Err(e) => Err(AnalysisError::Parse(e)),
            Ok(stmts) => Ok(report_spec(s, violations_spec(stmts))),
        },
    }
}

/// Runs the whole pipeline on one source. Returns exactly the report
/// bytes of [`run_spec`], or exactly its first lexical or parse fault.
pub fn run(src: &Vec<u8>) -> (r: Result<Vec<u8>, AnalysisError>)
    requires
        src@.len() < usize::MAX,
    ensures
        match r {
            Ok(report) => run_spec(src@) == Ok::<Seq<u8>, AnalysisError>(report@),
            Err(e) => run_spec(src@) == Err::<Seq<u8>, AnalysisError>(e),
        },
{
    let tokens = match lex(src) {
        Ok(t) => t,
        Err(e) => {
            return Err(AnalysisError::Lex(e));
        },
    };
    let statements = match parse(src, &tokens) {
        Ok(sts) => sts,
        Err(e) => {
            return Err(AnalysisError::Parse(e));
        },
    };
    let violations = check_statements(&statements);
    proof {
        lemma_violations_wf(statements.deep_view(), src@.len() as int);
        assert forall|k: int| 0 <= k < violations@.len() implies span_wf(
            (#[trigger] violations@[k]).span,
            src@.len() as int,
        ) by {
            assert(violations@[k] == violations_spec(statements.deep_view())[k]);
        }
    }
    let report = render_report(src, &violations);
    Ok(report)
}

/// Law: idempotence of the pipeline. The report is a function of the
/// source bytes alone, so two runs on the same unmodified source yield
/// byte-identical results — the same report, or the same fault.
pub proof fn lemma_run_deterministic(
    s: Seq<u8>,
    r1: Result<Seq<u8>, AnalysisError>,
    r2: Result<Seq<u8>, AnalysisError>,
)
    requires
        r1 == run_spec(s),
        r2 == run_spec(s),
    ensures
        r1 == r2,
{
}

} // verus!
