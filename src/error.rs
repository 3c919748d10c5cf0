use vstd::prelude::*;

verus! {

/// Why metadata could not be read.
#[derive(Debug, PartialEq, Eq, Clone, Copy)]
pub enum MyError {
    FileError,
    InvalidInput,
    PiecesLengthNotDivisible,
}

} // verus!
