//! Heap-allocated values of the language. Only strings exist at this stage,
//! and the compiler does not yet reach them: string literals have no prefix
//! rule, so an `Object` value can be built by a host program but never by a
//! compiled expression.

use vstd::prelude::*;

verus! {

#[derive(Debug)]
pub enum Object {
    Str(String),
}

impl Clone for Object {
    fn clone(&self) -> (r: Self)
        ensures
            r == *self,
    {
        match self {
            Object::Str(s) => Object::Str(s.clone()),
        }
    }
}

} // verus!
