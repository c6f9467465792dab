//! The bodies of the native functions `If` and `List`.

use vstd::prelude::*;
use crate::runtime::error::Error;
use crate::runtime::semantics::run_native;
use crate::runtime::value::{native, Function, Native, Normal, Value};

verus! {

impl Native {
    /// This function as a value.
    pub fn value(self) -> (r: Value)
        ensures
            r == native(self),
    {
        Value::Normal(Normal::Function(Function::Native(self)))
    }
}

/// The body of `If`. Its first bound value is the list of the arguments:
/// conditions and results in turn, then the result that stands if no
/// condition holds. A list of one element chooses that element. Else the
/// first element is forced to a boolean: if it is true the second element is
/// chosen, and if not the choice is made of the list from the third element
/// on. What is chosen is returned as it is, unforced.
pub fn iff(vs: Vec<Value>, fuel: usize) -> (r: Result<Value, Error>)
    requires
        vs@.len() >= 1,
    ensures
        r == run_native(Native::If, vs@, fuel as nat),
{
    proof {
        reveal_strlit("conds");
    }
    Native::If.run(vs, fuel)
}

/// The body of `List`. Its first bound value is the list of the arguments,
/// which it returns.
pub fn list(vs: Vec<Value>) -> (r: Result<Value, Error>)
    requires
        vs@.len() >= 1,
    ensures
        r == Ok::<Value, Error>(vs@[0]),
        r == run_native(Native::List, vs@, 0),
{
    Ok(vs[0].clone())
}

} // verus!
