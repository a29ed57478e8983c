//! The error type of the bundler pipeline.
//!
//! Every error is terminal for a whole pipeline run: there is no
//! partial-success mode and no retry. Each variant carries enough context
//! (the offending path or pattern, and for the two I/O failures the
//! underlying I/O detail) for the caller to report the failure at the
//! build unit's location.

use vstd::prelude::*;

verus! {

/// Why a pipeline run was aborted.
#[derive(Debug, Clone, PartialEq, Eq)]
pub enum Error {
    /// Configuration error: the bundler takes exactly one top-level
    /// argument, but `count` were supplied.
    ArityError { count: usize },
    /// Configuration error: the single argument is neither a string nor an
    /// array of strings.
    ShapeError,
    /// A pattern could not be resolved to an absolute base path even after
    /// joining it onto the build unit's directory and the working directory.
    ResolutionError { pattern: String },
    /// A recursive-walk base directory does not exist or could not be
    /// listed; `detail` is the underlying I/O detail.
    EnumerationError { path: String, detail: String },
    /// A discovered file could not be opened or fully read; `detail` is the
    /// underlying I/O detail.
    ReadError { path: String, detail: String },
    /// A discovered file's absolute path does not fall under its base
    /// directory. Defensive: this cannot occur for paths produced by the
    /// enumerator itself.
    InternalInvariantError { path: String, base: String },
}

/// The mathematical model of an [`Error`]: the same variants over sequences
/// of characters instead of heap strings.
#[verifier::ext_equal]
pub enum ErrorModel {
    Arity { count: int },
    Shape,
    Resolution { pattern: Seq<char> },
    Enumeration { path: Seq<char>, detail: Seq<char> },
    Read { path: Seq<char>, detail: Seq<char> },
    InternalInvariant { path: Seq<char>, base: Seq<char> },
}

impl View for Error {
    type V = ErrorModel;

    open spec fn view(&self) -> ErrorModel {
        match self {
            Error::ArityError { count } => ErrorModel::Arity { count: *count as int },
            Error::ShapeError => ErrorModel::Shape,
            Error::ResolutionError { pattern } => ErrorModel::Resolution { pattern: pattern@ },
            Error::EnumerationError { path, detail } => ErrorModel::Enumeration {
                path: path@,
                detail: detail@,
            },
            Error::ReadError { path, detail } => ErrorModel::Read {
                path: path@,
                detail: detail@,
            },
            Error::InternalInvariantError { path, base } => ErrorModel::InternalInvariant {
                path: path@,
                base: base@,
            },
        }
    }
}

/// The human-readable message of the error model: what the error is, the
/// offending path or pattern, and the underlying I/O detail where there is
/// one.
pub open spec fn message_of(e: ErrorModel) -> Seq<char> {
    match e {
        ErrorModel::Arity { count: _ } => "expected exactly 1 argument"@,
        ErrorModel::Shape => "expected a string or an array of strings"@,
        ErrorModel::Resolution { pattern } => "cannot resolve pattern to an absolute path: "@
            + pattern,
        ErrorModel::Enumeration { path, detail } => "cannot list directory: "@ + path + ": "@
            + detail,
        ErrorModel::Read { path, detail } => "cannot read file: "@ + path + ": "@ + detail,
        ErrorModel::InternalInvariant { path, base: _ } =>
            "discovered file does not fall under its base: "@ + path,
    }
}

impl Error {
    /// The human-readable description of the error, naming the offending
    /// path or pattern and the underlying I/O detail where there is one.
    pub fn describe(&self) -> (r: String)
        ensures
            r@ == message_of(self@),
    {
        match self {
            Error::ArityError { count: _ } => String::from_str(
                "expected exactly 1 argument",
            ),
            Error::ShapeError => String::from_str(
                "expected a string or an array of strings",
            ),
            Error::ResolutionError { pattern } => String::from_str(
                "cannot resolve pattern to an absolute path: ",
            ).concat(pattern.as_str()),
            Error::EnumerationError { path, detail } => String::from_str(
                "cannot list directory: ",
            ).concat(path.as_str()).concat(": ").concat(detail.as_str()),
            Error::ReadError { path, detail } => String::from_str(
                "cannot read file: ",
            ).concat(path.as_str()).concat(": ").concat(detail.as_str()),
            Error::InternalInvariantError { path, base: _ } => String::from_str(
                "discovered file does not fall under its base: ",
            ).concat(path.as_str()),
        }
    }
}

} // verus!
