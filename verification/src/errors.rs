//! The errors the argument parser reports.

use vstd::prelude::*;
use vstd::string::StringExecFns;

verus! {

/// Why the argument phase failed: no arguments at all, a token that could
/// not be used, a flag whose value is missing, or an explicit request for
/// help.
#[derive(Debug)]
pub enum SnifferError {
    NotEnoughArgs,
    InvalidArgs(String),
    MissingArg(String),
    Help,
}

impl SnifferError {
    /// The characters of the message `message` returns.
    pub open spec fn spec_message(&self) -> Seq<char> {
        match self {
            SnifferError::NotEnoughArgs => "Not enough arguments"@,
            SnifferError::InvalidArgs(arg) => "Invalid argument: "@ + arg@,
            SnifferError::MissingArg(arg) => "Missing argument for: "@ + arg@,
            SnifferError::Help => "help"@,
        }
    }

    /// A human-readable description of the error, naming the offending
    /// token where there is one.
    pub fn message(&self) -> (r: String)
        ensures
            r@ == self.spec_message(),
    {
        match self {
            SnifferError::NotEnoughArgs => String::from_str("Not enough arguments"),
            SnifferError::InvalidArgs(arg) => String::from_str("Invalid argument: ").concat(
                arg.as_str(),
            ),
            SnifferError::MissingArg(arg) => String::from_str("Missing argument for: ").concat(
                arg.as_str(),
            ),
            SnifferError::Help => String::from_str("help"),
        }
    }
}

} // verus!
