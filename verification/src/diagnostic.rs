use vstd::prelude::*;
use crate::source::Span;

verus! {

/// The content of a diagnostic: its message and primary span.
pub struct DiagnosticV {
    pub message: Seq<char>,
    pub span: Span,
}

/// A diagnostic with message `message` at `span`.
pub open spec fn diag(message: Seq<char>, span: Span) -> DiagnosticV {
    DiagnosticV { message, span }
}

/// A stable, source-located compiler diagnostic.
#[derive(Clone, Debug, PartialEq, Eq)]
pub struct Diagnostic {
    pub message: String,
    pub primary_span: Span,
}

impl View for Diagnostic {
    type V = DiagnosticV;

    open spec fn view(&self) -> DiagnosticV {
        DiagnosticV { message: self.message@, span: self.primary_span }
    }
}

impl Diagnostic {
    pub fn new(message: &str, primary_span: Span) -> (d: Self)
        ensures
            d@ == diag(message@, primary_span),
    {
        Diagnostic { message: message.to_owned(), primary_span }
    }

    /// A diagnostic that takes ownership of an already built message.
    pub fn from_message(message: String, primary_span: Span) -> (d: Self)
        ensures
            d@ == diag(message@, primary_span),
    {
        Diagnostic { message, primary_span }
    }

    pub fn message(&self) -> (r: &str)
        ensures
            r@ == self.message@,
    {
        self.message.as_str()
    }

    pub fn primary_span(&self) -> (r: Span)
        ensures
            r == self.primary_span,
    {
        self.primary_span
    }

    /// A copy of this diagnostic.
    pub fn duplicate(&self) -> (r: Self)
        ensures
            r@ == self@,
    {
        Diagnostic { message: self.message.clone(), primary_span: self.primary_span }
    }
}

/// Compilation failure containing one or more stable diagnostics.
#[derive(Debug, PartialEq, Eq)]
pub struct CompileError {
    diagnostics: Vec<Diagnostic>,
}

/// The diagnostics of a sequence, by content.
pub open spec fn diags_view(s: Seq<Diagnostic>) -> Seq<DiagnosticV> {
    s.map_values(|d: Diagnostic| d@)
}

impl View for CompileError {
    type V = Seq<DiagnosticV>;

    closed spec fn view(&self) -> Seq<DiagnosticV> {
        diags_view(self.diagnostics@)
    }
}

impl Clone for CompileError {
    fn clone(&self) -> (r: Self) {
        proof {
            use_type_invariant(self);
        }
        CompileError { diagnostics: self.diagnostics.clone() }
    }
}

impl CompileError {
    /// A compile error always holds at least one diagnostic.
    #[verifier::type_invariant]
    spec fn holds_a_diagnostic(self) -> bool {
        self.diagnostics@.len() > 0
    }

    pub fn new(diagnostic: Diagnostic) -> (e: Self)
        ensures
            e@ == seq![diagnostic@],
    {
        let mut diagnostics = Vec::new();
        diagnostics.push(diagnostic);
        let e = CompileError { diagnostics };
        proof {
            assert(e@ =~= seq![diagnostic@]);
        }
        e
    }

    /// A compile error holding `diagnostics`, which must not be empty.
    pub fn from_diagnostics(diagnostics: Vec<Diagnostic>) -> (e: Self)
        requires
            diagnostics@.len() > 0,
        ensures
            e@ == diags_view(diagnostics@),
    {
        CompileError { diagnostics }
    }

    pub fn diagnostics(&self) -> (r: &[Diagnostic])
        ensures
            diags_view(r@) == self@,
            r@.len() > 0,
    {
        proof {
            use_type_invariant(self);
        }
        self.diagnostics.as_slice()
    }

    /// The message of the first diagnostic, as the error displays itself.
    pub fn to_string(&self) -> (r: String)
        ensures
            self@.len() > 0,
            r@ == self@[0].message,
    {
        proof {
            use_type_invariant(self);
        }
        self.diagnostics[0].message.clone()
    }
}

} // verus!
