//! Error types used by the parser.
//!
//! The main type is [`Diagnostic`], a user-facing error, warning or advice
//! that points into the source it is about.

use std::sync::Arc;
use vstd::prelude::*;

verus! {

/// How serious a [`Diagnostic`] is.
#[derive(Debug, Clone, Copy, PartialEq, Eq, Structural)]
pub enum Severity {
    Advice,
    Warning,
    Error,
}

/// A range of bytes in a source text.
#[derive(Debug, Clone, Copy, PartialEq, Eq, Structural)]
pub struct Span {
    pub offset: usize,
    pub len: usize,
}

impl Span {
    pub fn new(offset: usize, len: usize) -> (r: Span)
        ensures
            r == (Span { offset, len }),
    {
        Span { offset, len }
    }
}

/// Information about the origin of a KDL document.
#[derive(Debug, Clone)]
pub struct SourceInfo {
    /// Simple name (relative path) of the source code.
    pub name: String,
    /// The actual source code.
    pub source_code: String,
}

impl SourceInfo {
    /// Returns a new [`SourceInfo`].
    pub fn new(name: &str, source_code: &str) -> (r: SourceInfo)
        ensures
            r.name@ == name@,
            r.source_code@ == source_code@,
    {
        SourceInfo { name: name.to_owned(), source_code: source_code.to_owned() }
    }
}

/// Another handle on the same shared source (`Arc::clone`).
#[verifier::external_body]
pub fn share_source(a: &Arc<SourceInfo>) -> (r: Arc<SourceInfo>)
    ensures
        r == *a,
{
    Arc::clone(a)
}

/// An error, warning or advice about a span of a source, with related
/// diagnostics.
#[derive(Debug)]
pub struct Diagnostic {
    /// The message to display to the end-user.
    pub message: String,
    /// How serious it is.
    pub severity: Severity,
    /// The source the span points into.
    pub source_info: Arc<SourceInfo>,
    /// The byte span where the diagnostic applies.
    pub span: Span,
    /// Optional help to display to the end-user.
    pub help: Option<String>,
    /// Optional label under the span; `"here"` is shown when there is none.
    pub label: Option<String>,
    /// Related diagnostics.
    pub related: Vec<Diagnostic>,
}

/// Why a document could not be parsed.
#[derive(Debug)]
pub enum ParsingError {
    /// The text is not valid KDL.
    KdlError { source_info: Arc<SourceInfo>, diagnostics: Vec<Diagnostic> },
    /// No document was given.
    NoDocumentProvided,
    /// Problems found in the packet definitions.
    Diagnostics { source_info: Arc<SourceInfo>, diagnostics: Vec<Diagnostic> },
    /// A file path could not be made absolute.
    NoAbsoluteFilePath { path: String, reason: String },
    /// Reading a file failed.
    GenericIoError { reason: String },
}

impl ParsingError {
    /// The error made of a single diagnostic.
    pub fn from_diagnostic(diag: Diagnostic) -> (r: ParsingError)
        ensures
            r matches ParsingError::Diagnostics { source_info, diagnostics } && source_info
                == diag.source_info && diagnostics@ == seq![diag],
    {
        let source_info = share_source(&diag.source_info);
        let mut diagnostics: Vec<Diagnostic> = Vec::new();
        diagnostics.push(diag);
        ParsingError::Diagnostics { source_info, diagnostics }
    }
}

/// Non-breaking warnings found while parsing: suggestions about possibly
/// wrong definitions.
#[derive(Debug)]
pub struct ParsingWarnings {
    pub source_info: Arc<SourceInfo>,
    pub diagnostics: Vec<Diagnostic>,
}

impl ParsingWarnings {
    /// Checks if warnings were generated.
    pub fn are_there_any(&self) -> (r: bool)
        ensures
            r == (self.diagnostics@.len() > 0),
    {
        self.diagnostics.len() > 0
    }

    /// The warnings, in the order they were found.
    pub fn iter(&self) -> (r: &Vec<Diagnostic>)
        ensures
            r == &self.diagnostics,
    {
        &self.diagnostics
    }
}

} // verus!
