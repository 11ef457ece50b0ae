//! The ways in which reading an option string or scanning arguments fails.

use vstd::prelude::*;

verus! {

/// Why an option string was refused or a scan was abandoned.
#[derive(Debug, Clone, Copy, PartialEq, Eq, Structural)]
pub enum Error {
    /// The option string is empty, or a switch was expected where the
    /// string holds a character that is not a letter.
    BadOptionString,
    /// An argument names a switch that the option string does not define.
    UnknownSwitch(char),
    /// A switch that requires an argument was given none.
    MissingArgument(char),
}

} // verus!
