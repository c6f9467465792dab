//! The failures of the runtime.

use vstd::prelude::*;
use crate::runtime::key::Key;

verus! {

/// What went wrong with the arguments of a call.
#[derive(Debug)]
pub enum ArgumentError {
    /// A required positional parameter found no argument.
    MissingPositional,
    /// A required keyword parameter found no argument of its name.
    MissingKeyword,
    /// This many positional arguments were left after binding.
    PositionalsLeft(usize),
    /// This many keyword arguments were left after binding.
    KeywordsLeft(usize),
}

/// A value had the wrong shape for the place it was used in.
#[derive(Debug)]
pub enum ValueError {
    /// The first element or the rest of an empty list was asked for.
    EmptyList,
    NotList,
    NotDictionary,
    NotFunction,
    NotBoolean,
    /// Only nil, numbers and strings are dictionary keys.
    NotKey,
    /// Only lists and dictionaries can be merged.
    NotCollection,
}

/// Every failure of the runtime is one of these four.
#[derive(Debug)]
pub enum Error {
    Argument(ArgumentError),
    Value(ValueError),
    KeyNotFound(Key),
    /// Forcing did not reach a normal form within its budget, as when a
    /// computation depends on its own result.
    CyclicForce,
}

} // verus!
