//! Result and error types for command actions.
//!
//! All errors are user-input or configuration errors, never transient: they
//! are returned to the dispatch point, printed there, and the command loop
//! goes on. The only terminal signal is [`CmdExeCode::Exit`].

use vstd::prelude::*;

use crate::text::decimal;
use crate::text::usize_to_string;

verus! {

/// The return code of a command action.
#[derive(Debug, PartialEq, Eq, Structural)]
pub enum CmdExeCode {
    /// Command execution succeeded.
    Success,
    /// Quit the command loop, by command or by interrupt.
    Exit,
}

/// What can go wrong while dispatching a command or running its action.
#[derive(Debug, PartialEq, Eq)]
pub enum XcliError {
    /// Bad command syntax.
    BadSyntax,
    /// The named user-data handler does not exist.
    MissingHandler(String),
    /// An action required at least one token and got none.
    MissingArgument,
    /// A supplied token failed semantic validation; the detail names it.
    BadArgument(String),
    /// A fixed-arity action received the wrong token count: wanted, actual.
    MismatchArgument(usize, usize),
    /// An escape hatch whose message is printed verbatim.
    Other(String),
}

/// Command action execution result.
pub type XcliResult = Result<CmdExeCode, XcliError>;

impl XcliError {
    /// The user-facing message of this error.
    pub open spec fn message_spec(&self) -> Seq<char> {
        match self {
            XcliError::BadSyntax => "Bad syntax"@,
            XcliError::MissingHandler(name) => "Missing handler: "@ + name@ + " not found"@,
            XcliError::MissingArgument => "Missing required argument"@,
            XcliError::BadArgument(detail) => "Bad argument: "@ + detail@,
            XcliError::MismatchArgument(wanted, actual) => "Mismatched argument(s): wanted: "@
                + decimal(*wanted as nat) + ", actual: "@ + decimal(*actual as nat),
            XcliError::Other(message) => message@,
        }
    }

    /// Render the user-facing message of this error.
    pub fn message(&self) -> (s: String)
        ensures
            s@ == self.message_spec(),
    {
        match self {
            XcliError::BadSyntax => String::from_str("Bad syntax"),
            XcliError::MissingHandler(name) => {
                let mut s = String::from_str("Missing handler: ");
                s.append(name.as_str());
                s.append(" not found");
                proof {
                    assert(s@ =~= self.message_spec());
                }
                s
            },
            XcliError::MissingArgument => String::from_str("Missing required argument"),
            XcliError::BadArgument(detail) => {
                let mut s = String::from_str("Bad argument: ");
                s.append(detail.as_str());
                proof {
                    assert(s@ =~= self.message_spec());
                }
                s
            },
            XcliError::MismatchArgument(wanted, actual) => {
                let mut s = String::from_str("Mismatched argument(s): wanted: ");
                let w = usize_to_string(*wanted);
                s.append(w.as_str());
                s.append(", actual: ");
                let a = usize_to_string(*actual);
                s.append(a.as_str());
                proof {
                    assert(s@ =~= self.message_spec());
                }
                s
            },
            XcliError::Other(message) => message.clone(),
        }
    }
}

} // verus!
