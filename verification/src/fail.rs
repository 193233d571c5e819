//! Runtime failure taxonomy: language-level exceptions carrying a class and
//! a reason term, allocation failure, unboxing type mismatches, and the
//! fatal register-machine misuses.

use vstd::prelude::*;

use crate::lterm::LTerm;

verus! {

#[derive(Clone, Copy, PartialEq, Eq, Structural, Debug)]
pub enum ExceptionType {
    Error,
    Throw,
    Exit,
}

#[derive(Clone, Copy, PartialEq, Eq, Structural, Debug)]
pub enum Error {
    /// A language-level throw: class and reason term.
    Exception(ExceptionType, LTerm),
    /// Allocation would overrun the process heap.
    HeapIsFull,
    /// A Y slot index outside the current frame.
    YRegisterOutOfRange,
    BoxedIsNotABigint,
    BoxedIsNotAnExport,
    BoxedIsNotAnImport,
    /// No entry for the requested module/function/arity.
    BifNotFound,
}

pub type RtResult<T> = Result<T, Error>;

} // verus!
