//! Structured syntax errors.
//!
//! Every failure of the desugarer is a `Syntax` value: a machine-readable
//! reason together with the source span it points at.  The ambiguity
//! reason also carries the spans of every macro rule that matched, so a
//! reporter can point the user at the competing definitions.

use vstd::prelude::*;

use crate::span::Span;

verus! {

/// Why desugaring failed.
#[derive(Debug)]
pub enum Reason {
    /// A binding pattern stood in expression position.
    UnexpectedPattern,
    /// A macro signature stood in expression position.
    UnexpectedArgPattern,
    /// A `Chain` pattern stood where the concrete tree needs a single
    /// binding pattern.
    UnliftablePattern,
    /// Two or more macro rules matched one form; the spans of all the
    /// matching rules, in definition order.
    AmbiguousMacro(Vec<Span>),
    /// A macro signature bound the same variable name twice.
    DuplicateBinder(String),
    /// A macro signature held no pseudokeyword at all, so it would match
    /// on shape alone.
    KeywordlessMacro,
    /// A form held no elements.
    EmptyForm,
    /// A one-element form held something other than a symbol.
    UncallableForm,
    /// Macro expansions nested deeper than the configured limit.
    DepthLimit,
}

/// Ghost model of a failure reason.
pub enum ReasonV {
    UnexpectedPattern,
    UnexpectedArgPattern,
    UnliftablePattern,
    AmbiguousMacro(Seq<Span>),
    DuplicateBinder(Seq<char>),
    KeywordlessMacro,
    EmptyForm,
    UncallableForm,
    DepthLimit,
}

/// The model of a failure reason.
pub open spec fn reason_view(r: Reason) -> ReasonV {
    match r {
        Reason::UnexpectedPattern => ReasonV::UnexpectedPattern,
        Reason::UnexpectedArgPattern => ReasonV::UnexpectedArgPattern,
        Reason::UnliftablePattern => ReasonV::UnliftablePattern,
        Reason::AmbiguousMacro(spans) => ReasonV::AmbiguousMacro(spans@),
        Reason::DuplicateBinder(n) => ReasonV::DuplicateBinder(n@),
        Reason::KeywordlessMacro => ReasonV::KeywordlessMacro,
        Reason::EmptyForm => ReasonV::EmptyForm,
        Reason::UncallableForm => ReasonV::UncallableForm,
        Reason::DepthLimit => ReasonV::DepthLimit,
    }
}

/// A syntax error: a reason and the span it points at.
#[derive(Debug)]
pub struct Syntax {
    pub reason: Reason,
    pub span: Span,
}

/// Ghost model of a syntax error.
pub struct SyntaxV {
    pub reason: ReasonV,
    pub span: Span,
}

/// The model of a syntax error.
pub open spec fn syntax_view(s: Syntax) -> SyntaxV {
    SyntaxV { reason: reason_view(s.reason), span: s.span }
}

impl Syntax {
    /// An error with `reason`, pointing at `span`.
    pub fn error(reason: Reason, span: &Span) -> (s: Syntax)
        ensures
            syntax_view(s) == (SyntaxV { reason: reason_view(reason), span: *span }),
    {
        Syntax { reason, span: *span }
    }
}

} // verus!
