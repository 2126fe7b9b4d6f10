//! The ways in which interpreting a line can end without an action.

use crate::number::{decimal_digits, push_decimal};
use vstd::prelude::*;
use vstd::string::StringExecFns;

verus! {

/// Why a line led to no action.
#[derive(Clone, Copy, Debug, PartialEq, Eq, Structural)]
pub enum SessionError {
    /// The line has the shape of a number and does not stand for one that
    /// fits the 32-bit integers.
    ParseFailure,
    /// The number addresses no entry: a selection outside the listed
    /// candidates, or a deletion outside the session list.
    OutOfRange { position: usize },
    /// The user typed `0` to leave.
    Abort,
    /// The pattern that recognises numbers was not accepted.
    Pattern,
}

impl SessionError {
    /// The text of `message`.
    pub open spec fn message_text(self) -> Seq<char> {
        match self {
            SessionError::ParseFailure => "failed to parse number"@,
            SessionError::OutOfRange { position } => "index outbound: "@ + decimal_digits(
                position as nat,
            ),
            SessionError::Abort => "bye"@,
            SessionError::Pattern => "failed to compile the number pattern"@,
        }
    }

    /// What to tell the user.
    pub fn message(&self) -> (s: String)
        ensures
            s@ == self.message_text(),
    {
        match self {
            SessionError::ParseFailure => String::from_str("failed to parse number"),
            SessionError::OutOfRange { position } => {
                let mut s = String::from_str("index outbound: ");
                push_decimal(&mut s, *position as u128);
                s
            },
            SessionError::Abort => String::from_str("bye"),
            SessionError::Pattern => String::from_str("failed to compile the number pattern"),
        }
    }
}

} // verus!
