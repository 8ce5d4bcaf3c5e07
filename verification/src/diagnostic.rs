//! Span-tagged diagnostics.  Lexical, syntactic and validation problems are
//! accumulated into one list per parse rather than raised as control flow, so
//! a single pass can surface every independent issue in a source unit.

use vstd::prelude::*;

use crate::ast::Name;

verus! {

/// What a diagnostic reports.
#[derive(Debug, PartialEq, Eq)]
pub enum DiagKind {
    /// A token that fits no grammar alternative at its position, including
    /// explicit lexical error tokens.
    UnexpectedToken,
    /// Input ended where the grammar needed more.
    UnexpectedEnd,
    /// A name longer than the maximum name length.
    OversizeName(Name),
    /// Adjacent rules share one name: multi-rule definitions are not
    /// supported yet.
    MultipleRules(Name),
    /// A definition name reappeared after other definitions: a repeated,
    /// conflicting definition.
    RepeatedDefinition(Name),
}

/// Mathematical model of a diagnostic kind.
pub enum DiagKindV {
    UnexpectedToken,
    UnexpectedEnd,
    OversizeName(Seq<char>),
    MultipleRules(Seq<char>),
    RepeatedDefinition(Seq<char>),
}

impl DeepView for DiagKind {
    type V = DiagKindV;

    open spec fn deep_view(&self) -> DiagKindV {
        match self {
            DiagKind::UnexpectedToken => DiagKindV::UnexpectedToken,
            DiagKind::UnexpectedEnd => DiagKindV::UnexpectedEnd,
            DiagKind::OversizeName(n) => DiagKindV::OversizeName(n@),
            DiagKind::MultipleRules(n) => DiagKindV::MultipleRules(n@),
            DiagKind::RepeatedDefinition(n) => DiagKindV::RepeatedDefinition(n@),
        }
    }
}

/// One diagnostic: what was found, and the byte span of the source it was
/// found at.
#[derive(Debug, PartialEq, Eq)]
pub struct Diagnostic {
    pub kind: DiagKind,
    pub start: usize,
    pub end: usize,
}

/// Mathematical model of a diagnostic.
pub struct DiagV {
    pub kind: DiagKindV,
    pub start: int,
    pub end: int,
}

impl DeepView for Diagnostic {
    type V = DiagV;

    open spec fn deep_view(&self) -> DiagV {
        DiagV {
            kind: self.kind.deep_view(),
            start: self.start as int,
            end: self.end as int,
        }
    }
}

} // verus!
