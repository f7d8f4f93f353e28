//! Diagnostics: a message for people, and the fields a repair needs.
use crate::span::Span;
use crate::text;
use vstd::prelude::*;

verus! {

#[derive(Clone, Copy, PartialEq, Eq, Structural, Debug)]
pub enum Severity {
    Error,
    Warning,
}

/// The edit that mends a problem: put `replacement` in place of `span`.
#[derive(Debug)]
pub struct PreferredPatch {
    pub file: String,
    pub span: Span,
    pub replacement: String,
    pub rationale: String,
}

/// What a patch says.
pub struct PatchModel {
    pub file: Seq<char>,
    pub span: Span,
    pub replacement: Seq<char>,
    pub rationale: Seq<char>,
}

impl View for PreferredPatch {
    type V = PatchModel;

    open spec fn view(&self) -> PatchModel {
        PatchModel {
            file: self.file@,
            span: self.span,
            replacement: self.replacement@,
            rationale: self.rationale@,
        }
    }
}

#[derive(Debug)]
pub struct Diagnostic {
    pub severity: Severity,
    pub code: String,
    pub kind: String,
    pub message: String,
    pub file: String,
    pub span: Span,
    pub repair_strategies: Vec<String>,
    pub preferred_patch: Option<PreferredPatch>,
    pub notes: Vec<String>,
}

/// What a diagnostic says.
pub struct DiagnosticModel {
    pub severity: Severity,
    pub code: Seq<char>,
    pub kind: Seq<char>,
    pub message: Seq<char>,
    pub file: Seq<char>,
    pub span: Span,
    pub repair_strategies: Seq<Seq<char>>,
    pub preferred_patch: Option<PatchModel>,
    pub notes: Seq<Seq<char>>,
}

impl View for Diagnostic {
    type V = DiagnosticModel;

    open spec fn view(&self) -> DiagnosticModel {
        DiagnosticModel {
            severity: self.severity,
            code: self.code@,
            kind: self.kind@,
            message: self.message@,
            file: self.file@,
            span: self.span,
            repair_strategies: text::texts(self.repair_strategies@),
            preferred_patch: match self.preferred_patch {
                Some(p) => Some(p@),
                None => None,
            },
            notes: text::texts(self.notes@),
        }
    }
}

/// What the diagnostics of a list say.
pub open spec fn models(diags: Seq<Diagnostic>) -> Seq<DiagnosticModel> {
    diags.map_values(|d: Diagnostic| d@)
}

impl Diagnostic {
    fn bare(
        severity: Severity,
        code: &str,
        kind: &str,
        message: String,
        file: &String,
        span: Span,
    ) -> (r: Diagnostic)
        ensures
            r@ == (DiagnosticModel {
                severity,
                code: code@,
                kind: kind@,
                message: message@,
                file: file@,
                span,
                repair_strategies: Seq::empty(),
                preferred_patch: None,
                notes: Seq::empty(),
            }),
    {
        let r: Diagnostic = Diagnostic {
            severity,
            code: code.to_string(),
            kind: kind.to_string(),
            message,
            file: file.clone(),
            span,
            repair_strategies: Vec::new(),
            preferred_patch: None,
            notes: Vec::new(),
        };
        assert(r@.repair_strategies =~= Seq::<Seq<char>>::empty());
        assert(r@.notes =~= Seq::<Seq<char>>::empty());
        r
    }

    /// An error without hints.
    pub fn error(code: &str, kind: &str, message: String, file: &String, span: Span) -> (r:
        Diagnostic)
        ensures
            r@ == (DiagnosticModel {
                severity: Severity::Error,
                code: code@,
                kind: kind@,
                message: message@,
                file: file@,
                span,
                repair_strategies: Seq::empty(),
                preferred_patch: None,
                notes: Seq::empty(),
            }),
    {
        Diagnostic::bare(Severity::Error, code, kind, message, file, span)
    }

    /// A warning without hints.
    pub fn warning(code: &str, kind: &str, message: String, file: &String, span: Span) -> (r:
        Diagnostic)
        ensures
            r@ == (DiagnosticModel {
                severity: Severity::Warning,
                code: code@,
                kind: kind@,
                message: message@,
                file: file@,
                span,
                repair_strategies: Seq::empty(),
                preferred_patch: None,
                notes: Seq::empty(),
            }),
    {
        Diagnostic::bare(Severity::Warning, code, kind, message, file, span)
    }

    /// The same diagnostic with one more repair strategy at the end.
    pub fn with_strategy(self, strategy: &str) -> (r: Diagnostic)
        ensures
            r@ == (DiagnosticModel {
                repair_strategies: self@.repair_strategies.push(strategy@),
                ..self@
            }),
    {
        let ghost was = self@;
        let mut r: Diagnostic = self;
        r.repair_strategies.push(strategy.to_string());
        assert(r@.repair_strategies =~= was.repair_strategies.push(strategy@));
        r
    }

    /// The same diagnostic with a patch.
    pub fn with_patch(self, patch: PreferredPatch) -> (r: Diagnostic)
        ensures
            r@ == (DiagnosticModel { preferred_patch: Some(patch@), ..self@ }),
    {
        let mut r: Diagnostic = self;
        r.preferred_patch = Some(patch);
        r
    }

    /// The same diagnostic with one more note at the end.
    pub fn with_note(self, note: String) -> (r: Diagnostic)
        ensures
            r@ == (DiagnosticModel { notes: self@.notes.push(note@), ..self@ }),
    {
        let ghost was = self@;
        let mut r: Diagnostic = self;
        r.notes.push(note);
        assert(r@.notes =~= was.notes.push(note@));
        r
    }

    /// Whether this is an error.
    pub fn is_error(&self) -> (r: bool)
        ensures
            r == (self.severity == Severity::Error),
    {
        matches!(self.severity, Severity::Error)
    }
}

} // verus!
