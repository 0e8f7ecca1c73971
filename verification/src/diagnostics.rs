//! Findings of the semantic passes, and how the errors among them are
//! reported against the source.

use vstd::prelude::*;
use crate::lexer::Token;

verus! {

/// How grave a finding is.
#[derive(Debug, Clone, Copy, PartialEq, Eq, Structural)]
pub enum Level {
    Info,
    Deprecation,
    Warning,
    Error,
}

/// One finding: how grave it is, what it says, and where.
pub struct Diagnostic {
    pub level: Level,
    pub message: String,
    pub token: Token,
}

/// The findings of a pass, in the order in which they were made.
pub struct Diagnostics {
    pub diagnostics: Vec<Diagnostic>,
}

/// An error with the line of source it stands in.
pub struct SemanticError {
    pub at: Token,
    pub message: String,
    pub source: String,
}

/// What a semantic error says: the place, the message, the source line.
pub struct SemanticErrorModel {
    pub at: Token,
    pub message: Seq<char>,
    pub source: Seq<char>,
}

impl View for SemanticError {
    type V = SemanticErrorModel;

    open spec fn view(&self) -> SemanticErrorModel {
        SemanticErrorModel { at: self.at, message: self.message@, source: self.source@ }
    }
}

/// The findings that are errors, in their order.
pub open spec fn errors_of(found: Seq<Diagnostic>) -> Seq<Diagnostic> {
    found.filter(|d: Diagnostic| d.level is Error)
}

/// The report of one error against the source lines.
pub open spec fn report_of(lines: Seq<String>, d: Diagnostic) -> SemanticErrorModel {
    SemanticErrorModel { at: d.token, message: d.message@, source: lines[d.token.line as int]@ }
}

/// The reports of the errors among the findings, in their order.
pub open spec fn reports_of(lines: Seq<String>, found: Seq<Diagnostic>) -> Seq<SemanticErrorModel> {
    errors_of(found).map_values(|d: Diagnostic| report_of(lines, d))
}

/// Every error stands in a line that the source has.
pub open spec fn in_source(lines: Seq<String>, found: Seq<Diagnostic>) -> bool {
    forall|i: int|
        0 <= i < found.len() && (#[trigger] found[i]).level is Error ==> found[i].token.line
            < lines.len()
}

impl Diagnostics {
    /// No findings.
    pub fn new() -> (r: Self)
        ensures
            r.diagnostics@.len() == 0,
    {
        Diagnostics { diagnostics: Vec::new() }
    }

    /// The findings that are errors, in their order.
    pub fn errors(&self) -> (r: Vec<&Diagnostic>)
        ensures
            r@.map_values(|d: &Diagnostic| *d) == errors_of(self.diagnostics@),
    {
        let ghost pred = |d: Diagnostic| d.level is Error;
        let mut out: Vec<&Diagnostic> = Vec::new();
        let mut i: usize = 0;
        proof {
            assert(self.diagnostics@.take(0).filter(pred) =~= Seq::<Diagnostic>::empty()) by {
                reveal(Seq::filter);
            }
            assert(out@.map_values(|d: &Diagnostic| *d) =~= Seq::<Diagnostic>::empty());
        }
        while i < self.diagnostics.len()
            invariant
                i <= self.diagnostics@.len(),
                pred == |d: Diagnostic| d.level is Error,
                out@.map_values(|d: &Diagnostic| *d) == self.diagnostics@.take(i as int).filter(
                    pred,
                ),
            decreases self.diagnostics@.len() - i,
        {
            let ghost before = out@.map_values(|d: &Diagnostic| *d);
            proof {
                assert(self.diagnostics@.take(i + 1) =~= self.diagnostics@.take(i as int).push(
                    self.diagnostics@[i as int],
                ));
                self.diagnostics@.take(i as int).lemma_filter_push(
                    self.diagnostics@[i as int],
                    pred,
                );
            }
            match self.diagnostics[i].level {
                Level::Error => {
                    out.push(&self.diagnostics[i]);
                    assert(out@.map_values(|d: &Diagnostic| *d) =~= before.push(
                        self.diagnostics@[i as int],
                    ));
                },
                _ => {},
            }
            i += 1;
        }
        assert(self.diagnostics@.take(i as int) =~= self.diagnostics@);
        out
    }
}

/// A list of semantic errors as what they say.
pub open spec fn error_views(errors: Seq<SemanticError>) -> Seq<SemanticErrorModel> {
    errors.map_values(|e: SemanticError| e@)
}

/// Passes where no finding is an error; else gives each error with the
/// source line it stands in, in the order of the findings.
pub fn check(lines: &Vec<String>, diagnostics: &Diagnostics) -> (r: Result<(), Vec<SemanticError>>)
    requires
        in_source(lines@, diagnostics.diagnostics@),
    ensures
        r is Ok <==> errors_of(diagnostics.diagnostics@).len() == 0,
        r matches Err(errors) ==> error_views(errors@) == reports_of(
            lines@,
            diagnostics.diagnostics@,
        ),
{
    let errors = diagnostics.errors();
    let ghost found = errors_of(diagnostics.diagnostics@);
    assert(errors@.len() == found.len()) by {
        assert(errors@.map_values(|d: &Diagnostic| *d).len() == errors@.len());
    }
    if errors.len() == 0 {
        return Ok(());
    }
    let mut err: Vec<SemanticError> = Vec::new();
    let mut i: usize = 0;
    assert(error_views(err@) =~= reports_of(lines@, diagnostics.diagnostics@).take(0));
    while i < errors.len()
        invariant
            i <= errors@.len(),
            errors@.len() == found.len(),
            found == errors_of(diagnostics.diagnostics@),
            errors@.map_values(|d: &Diagnostic| *d) == found,
            in_source(lines@, diagnostics.diagnostics@),
            error_views(err@) == reports_of(lines@, diagnostics.diagnostics@).take(i as int),
        decreases errors@.len() - i,
    {
        let e = errors[i];
        let ghost before = error_views(err@);
        proof {
            assert(*e == found[i as int]) by {
                assert(errors@.map_values(|d: &Diagnostic| *d)[i as int] == *errors@[i as int]);
            }
            let pred = |d: Diagnostic| d.level is Error;
            diagnostics.diagnostics@.lemma_filter_pred(pred, i as int);
            assert(found.contains(found[i as int]));
            diagnostics.diagnostics@.lemma_filter_contains_rev(pred, found[i as int]);
            let k = choose|k: int|
                0 <= k < diagnostics.diagnostics@.len() && diagnostics.diagnostics@[k]
                    == found[i as int];
            assert(diagnostics.diagnostics@[k].level is Error);
        }
        err.push(
            SemanticError {
                at: e.token,
                message: e.message.clone(),
                source: lines[e.token.line].clone(),
            },
        );
        proof {
            assert(error_views(err@) =~= before.push(report_of(lines@, *e)));
            assert(reports_of(lines@, diagnostics.diagnostics@).take(i + 1) =~= reports_of(
                lines@,
                diagnostics.diagnostics@,
            ).take(i as int).push(report_of(lines@, found[i as int])));
        }
        i += 1;
    }
    assert(reports_of(lines@, diagnostics.diagnostics@).take(i as int) =~= reports_of(
        lines@,
        diagnostics.diagnostics@,
    ));
    Err(err)
}

} // verus!
