//! The dispatcher-boundary error: a core error, or a frame that was not a
//! well-formed request. Transport-level failures stay with the transport.
use vstd::prelude::*;
use vstd::string::StringExecFns;

verus! {

#[derive(Clone, Copy, Debug, PartialEq, Eq, Structural)]
pub enum Error {
    CoreError(crate::error::Error),
    WrongRequest,
}

pub open spec fn engine_error_text(e: Error) -> Seq<char> {
    match e {
        Error::CoreError(c) => crate::error::error_text(c),
        Error::WrongRequest => "Wrong request."@,
    }
}

impl Error {
    /// The human-readable message surfaced for this error.
    pub fn message(&self) -> (out: String)
        ensures
            out@ == engine_error_text(*self),
    {
        match self {
            Error::CoreError(c) => c.message(),
            Error::WrongRequest => {
                let mut out = String::new();
                out.append("Wrong request.");
                out
            },
        }
    }
}

} // verus!
