//! How the process that serves queries ends.

use vstd::prelude::*;
use vstd::std_specs::convert::FromSpecImpl;

verus! {

/// Whether the server ended well.
#[derive(Clone, Copy, Debug, PartialEq, Eq, Structural)]
pub enum ExitCode {
    Success,
    Failure,
}

/// The number that the process hands to its parent: 0 for success, 1 for
/// failure.
pub open spec fn exit_number(code: ExitCode) -> i32 {
    match code {
        ExitCode::Success => 0i32,
        ExitCode::Failure => 1i32,
    }
}

impl From<ExitCode> for i32 {
    fn from(code: ExitCode) -> (number: i32) {
        match code {
            ExitCode::Success => 0,
            ExitCode::Failure => 1,
        }
    }
}

impl FromSpecImpl<ExitCode> for i32 {
    open spec fn obeys_from_spec() -> bool {
        true
    }

    open spec fn from_spec(code: ExitCode) -> i32 {
        exit_number(code)
    }
}

/// The number of an exit code.
pub fn exit_status(code: ExitCode) -> (number: i32)
    ensures
        number == exit_number(code),
{
    i32::from(code)
}

} // verus!
