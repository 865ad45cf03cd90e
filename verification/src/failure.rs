//! Why a generation pass was aborted.

use vstd::prelude::*;

verus! {

/// The two conditions that abort a pass. Neither leaves a partial result.
#[derive(Clone, PartialEq, Eq, Debug)]
pub enum Failure {
    /// The front end could not parse the headers.
    HeaderParse,
    /// A type could not be classified while every type has to be; the
    /// spelling of the type is given.
    UnknownType(String),
}

} // verus!
