//! The values that a compiled program embeds as constants.
use vstd::prelude::*;
use vstd::std_specs::cmp::PartialEqSpecImpl;

verus! {

/// A value as the machine holds it at run time, as far as the compiler
/// embeds such values in a program.
#[derive(Clone, Debug)]
pub enum Object {
    Integer(i64),
    String(String),
}

impl Object {
    /// Two values are the same if they are integers of the same value or
    /// strings of the same characters.
    pub open spec fn same(&self, other: &Object) -> bool {
        match (self, other) {
            (Object::Integer(a), Object::Integer(b)) => a == b,
            (Object::String(a), Object::String(b)) => a@ == b@,
            _ => false,
        }
    }
}

impl PartialEq for Object {
    fn eq(&self, other: &Object) -> (r: bool) {
        match (self, other) {
            (Object::Integer(a), Object::Integer(b)) => *a == *b,
            (Object::String(a), Object::String(b)) => a.eq(b),
            _ => false,
        }
    }
}

impl PartialEqSpecImpl for Object {
    open spec fn obeys_eq_spec() -> bool {
        true
    }

    open spec fn eq_spec(&self, other: &Object) -> bool {
        self.same(other)
    }
}

} // verus!
