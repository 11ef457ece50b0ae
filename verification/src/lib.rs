//! POSIX-style command-line option scanning.
//!
//! An option string such as `"ab:c::"` names the switches a program
//! takes: `a` alone, `b` with a required argument, `c` with an optional
//! one. [`compile`] turns it into a [`PolicyTable`], [`scan`] reads an
//! argument list against such a table, and [`getopt`] does both.

pub mod error;
pub mod laws;
pub mod policy;
pub mod scan;

pub use error::Error;
pub use policy::{compile, read_definition, ArgType, PolicyTable};
pub use scan::{scan, GotOpt, Opt};

use policy::{alphabetic, compiled};
use scan::{outcome, scanned, sound, GotOptView};
use vstd::prelude::*;

verus! {

/// What scanning `args` against the option string `optstring` yields.
pub open spec fn parsed(args: Seq<Seq<char>>, optstring: Seq<char>) -> Result<GotOptView, Error> {
    match compiled(optstring) {
        Some(table) => scanned(args, table),
        None => Err(Error::BadOptionString),
    }
}

/// Scans `args`, whose first element is the program's name, against the
/// switches that `optstring` defines.
///
/// The option string is compiled first: where it is empty or malformed
/// the call fails with `BadOptionString` whatever the arguments are.
/// Otherwise the result is that of [`scan`].
pub fn getopt(args: Vec<String>, optstring: &str) -> (r: Result<GotOpt, Error>)
    ensures
        outcome(r) == parsed(args.deep_view(), optstring@),
        optstring@.len() == 0 ==> outcome(r) == Err::<GotOptView, Error>(Error::BadOptionString),
        optstring@.len() > 0 && !alphabetic(optstring@[0]) ==> outcome(r) == Err::<
            GotOptView,
            Error,
        >(Error::BadOptionString),
        compiled(optstring@) matches Some(table) ==> sound(outcome(r), args.deep_view(), table),
{
    match compile(optstring) {
        Ok(table) => scan(args, &table),
        Err(e) => Err(e),
    }
}

} // verus!
