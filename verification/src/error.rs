//! The crate-wide error type.

use vstd::prelude::*;
use vstd::string::StringExecFns;

verus! {

broadcast use vstd::string::group_string_axioms;

/// What can go wrong in the library's own logic. (Filesystem, TOML and JSON
/// failures belong to the program around it.)
#[derive(Debug)]
pub enum Error {
    /// Static validation of a score found one or more problems.
    Validation(String),
    /// Something went wrong while recording or exporting (or a bad argument).
    Export(String),
    /// A command (or part of one) is not implemented yet.
    Unimplemented(String),
}

impl Error {
    /// The error's user-facing message text.
    pub open spec fn message_spec(&self) -> Seq<char> {
        match self {
            Error::Validation(s) => "validation failed:\n"@ + s@,
            Error::Export(s) => s@,
            Error::Unimplemented(s) => "not yet implemented: "@ + s@,
        }
    }

    /// The error's user-facing message (what the program prints for it).
    pub fn message(&self) -> (r: String)
        ensures
            r@ == self.message_spec(),
    {
        match self {
            Error::Validation(s) => {
                let mut m = "validation failed:\n".to_string();
                m.append(s.as_str());
                m
            },
            Error::Export(s) => s.clone(),
            Error::Unimplemented(s) => {
                let mut m = "not yet implemented: ".to_string();
                m.append(s.as_str());
                m
            },
        }
    }

    /// The `Export` message, if this is an `Export` error.
    pub open spec fn export_text(&self) -> Option<Seq<char>> {
        match self {
            Error::Export(s) => Some(s@),
            _ => None,
        }
    }
}

/// A result with an `Export` error taken by its message; `None` when the error
/// is of another kind.
pub open spec fn export_outcome<T>(r: Result<T, Error>) -> Option<Result<T, Seq<char>>> {
    match r {
        Ok(v) => Some(Ok(v)),
        Err(Error::Export(s)) => Some(Err(s@)),
        Err(_) => None,
    }
}

} // verus!
