//! Callable values: user-defined functions and built-ins.
//!
//! The interpreter registers every evaluated function declaration in a
//! table; a callable value carries only the table index. Two user
//! functions are therefore equal exactly when they are the same
//! registered instance, and two built-ins when they are the same kind.

use vstd::prelude::*;

verus! {

/// A user function value: an index into the interpreter's function table.
#[derive(Clone, Copy, Debug, PartialEq, Eq, Structural)]
pub struct Function {
    pub index: usize,
}

impl Function {
    pub fn new(index: usize) -> (r: Function)
        ensures
            r == (Function { index }),
    {
        Function { index }
    }
}

/// The built-in clock, which reports seconds from the interpreter's
/// injected time source.
#[derive(Clone, Copy, Debug, PartialEq, Eq, Structural)]
pub struct Clock;

/// The closed set of callable kinds.
#[derive(Clone, Copy, Debug, PartialEq, Eq, Structural)]
pub enum Callable {
    Function(Function),
    Clock(Clock),
}

} // verus!
