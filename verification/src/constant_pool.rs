//! The pool of constants of a program under compilation.
//!
//! The pool only grows. The index that `add` hands out for a value stays
//! that value's index for good, and equal values are not merged.
use vstd::prelude::*;
use crate::object::Object;

verus! {

/// The number of constants that one program may hold.
pub const MAX_CONSTANTS: usize = 65535;

/// An ordered list of constants, addressed by position.
#[derive(Debug)]
pub struct ConstantPool {
    values: Vec<Object>,
}

impl View for ConstantPool {
    type V = Seq<Object>;

    closed spec fn view(&self) -> Seq<Object> {
        self.values@
    }
}

impl ConstantPool {
    /// The empty pool.
    pub fn new() -> (pool: ConstantPool)
        ensures
            pool@ == Seq::<Object>::empty(),
    {
        ConstantPool { values: Vec::new() }
    }

    /// Appends `value` and returns its index.
    pub fn add(&mut self, value: Object) -> (index: usize)
        ensures
            final(self)@ == old(self)@.push(value),
            index == old(self)@.len(),
    {
        let index = self.values.len();
        self.values.push(value);
        index
    }

    /// The number of constants in the pool.
    pub fn len(&self) -> (n: usize)
        ensures
            n == self@.len(),
    {
        self.values.len()
    }

    /// The constant at `index`, if the pool has that many.
    pub fn get(&self, index: usize) -> (r: Option<&Object>)
        ensures
            index < self@.len() ==> r == Some(&self@[index as int]),
            index >= self@.len() ==> r is None,
    {
        if index < self.values.len() {
            Some(&self.values[index])
        } else {
            None
        }
    }

    /// Gives up the pool for the list of its constants.
    pub fn into_vec(self) -> (values: Vec<Object>)
        ensures
            values@ == self@,
    {
        self.values
    }
}

} // verus!
