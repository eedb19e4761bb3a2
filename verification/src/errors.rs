//! Error types for strategy-document parsing. Every diagnostic carries
//! the byte range in the source text it refers to, as a value.

use vstd::prelude::*;

use crate::document::SourceSpan;

verus! {

/// How severe a diagnostic is: an `Error` short-circuits the containing
/// strategy, a `Warning` is collected and parsing continues.
#[derive(Debug, Clone, Copy, PartialEq, Eq, Structural)]
pub enum Severity {
    Error,
    Warning,
}

/// A value of an unexpected type.
#[derive(Debug, Clone, Copy, PartialEq, Eq, Structural)]
pub struct InvalidType {
    pub at: SourceSpan,
    /// The type that was expected.
    pub expected_type: crate::types::KdlType,
}

/// A missing mandatory property.
#[derive(Debug)]
pub struct MissingProperty {
    pub at: SourceSpan,
    pub id: String,
    pub advice: Option<String>,
}

/// A missing mandatory entry.
#[derive(Debug)]
pub struct MissingEntry {
    pub at: SourceSpan,
    pub id: String,
    pub advice: Option<String>,
}

/// A node this crate does not recognize.
#[derive(Debug)]
pub struct UnsupportedNode {
    pub at: SourceSpan,
    pub name: String,
}

/// A value outside the supported set.
#[derive(Debug)]
pub struct UnsupportedValue {
    pub at: SourceSpan,
    pub advice: Option<String>,
}

/// Arguments that do not fit the command.
#[derive(Debug)]
pub struct InvalidArguments {
    pub at: SourceSpan,
    pub advice: Option<String>,
}

/// Error type for strategy-document parsing.
#[derive(Debug)]
pub enum Error {
    /// A value kind outside the document model.
    UnknownType,
    /// A name outside the known set of variants.
    UnknownVariant,
    InvalidArguments(InvalidArguments),
    InvalidType(InvalidType),
    UnsupportedNode(UnsupportedNode),
    MissingEntry(MissingEntry),
    /// A missing mandatory child node, by name.
    MissingNode(String),
    MissingProperty(MissingProperty),
    UnsupportedValue(UnsupportedValue),
}

impl Error {
    /// Unsupported nodes are warnings; everything else is fatal.
    pub open spec fn spec_severity(self) -> Severity {
        match self {
            Error::UnsupportedNode(_) => Severity::Warning,
            _ => Severity::Error,
        }
    }

    /// The diagnostic's severity.
    pub fn severity(&self) -> (r: Severity)
        ensures
            r == self.spec_severity(),
    {
        match self {
            Error::UnsupportedNode(_) => Severity::Warning,
            _ => Severity::Error,
        }
    }
}

/// Merged error for parsing failures: the source name and the collected
/// diagnostics.
#[derive(Debug)]
pub struct ParseError {
    /// The name of the source the document came from.
    pub src_name: String,
    /// The diagnostics collected for the user.
    pub diagnostics: Vec<Error>,
}

} // verus!
