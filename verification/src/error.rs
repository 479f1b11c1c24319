//! The library's error type.
use vstd::prelude::*;
use crate::text::push_str;

verus! {

/// What can go wrong while loading the inputs of a run. Outside errors are
/// carried as their rendered text.
#[derive(Debug, Clone, PartialEq, Eq)]
pub enum SpecDriftError {
    Io { path: String, message: String },
    RustParse { path: String, message: String },
    Walk(String),
    Config { path: String, message: String },
}

/// The human-readable text of an error.
pub open spec fn error_text(e: SpecDriftError) -> Seq<char> {
    match e {
        SpecDriftError::Io { path, message } => "I/O error at "@ + path@ + ": "@ + message@,
        SpecDriftError::RustParse { path, message } => "failed to parse Rust source "@ + path@
            + ": "@ + message@,
        SpecDriftError::Walk(message) => "project walk failed: "@ + message@,
        SpecDriftError::Config { path, message } => "invalid config at "@ + path@ + ": "@
            + message@,
    }
}

impl SpecDriftError {
    /// The error's message, as it is shown to users.
    pub fn describe(&self) -> (s: String)
        ensures
            s@ == error_text(*self),
    {
        let mut s = String::new();
        match self {
            SpecDriftError::Io { path, message } => {
                push_str(&mut s, "I/O error at ");
                push_str(&mut s, path.as_str());
                push_str(&mut s, ": ");
                push_str(&mut s, message.as_str());
            },
            SpecDriftError::RustParse { path, message } => {
                push_str(&mut s, "failed to parse Rust source ");
                push_str(&mut s, path.as_str());
                push_str(&mut s, ": ");
                push_str(&mut s, message.as_str());
            },
            SpecDriftError::Walk(message) => {
                push_str(&mut s, "project walk failed: ");
                push_str(&mut s, message.as_str());
            },
            SpecDriftError::Config { path, message } => {
                push_str(&mut s, "invalid config at ");
                push_str(&mut s, path.as_str());
                push_str(&mut s, ": ");
                push_str(&mut s, message.as_str());
            },
        }
        s
    }
}

} // verus!
