//! Owned numeric buffers.
//!
//! A `Vector` is the unit of data exchanged between bases and pointwise
//! kernels: an owned, contiguous array of values with a length fixed at
//! creation. Values are exact integers; a caller that models real
//! quantities picks a fixed-point scale and interprets entries in it.

use vstd::prelude::*;
use crate::Ceed;

verus! {

/// An owned, contiguous numeric buffer with a fixed length.
pub struct Vector {
    data: Vec<i128>,
}

impl View for Vector {
    type V = Seq<i128>;

    closed spec fn view(&self) -> Seq<i128> {
        self.data@
    }
}

impl Vector {
    /// Create a buffer of `n` zero entries against the given context.
    pub fn new(_ceed: &Ceed, n: usize) -> (r: Vector)
        ensures
            r@.len() == n,
            forall|i: int| 0 <= i < n ==> r@[i] == 0i128,
    {
        let mut data: Vec<i128> = Vec::new();
        let mut i: usize = 0;
        while i < n
            invariant
                i <= n,
                data@.len() == i,
                forall|k: int| 0 <= k < i ==> data@[k] == 0i128,
            decreases n - i,
        {
            data.push(0i128);
            i = i + 1;
        }
        Vector { data }
    }

    /// Create a buffer holding the given values.
    pub fn from_values(_ceed: &Ceed, values: Vec<i128>) -> (r: Vector)
        ensures
            r@ == values@,
    {
        Vector { data: values }
    }

    /// The number of entries.
    pub fn len(&self) -> (r: usize)
        ensures
            r == self@.len(),
    {
        self.data.len()
    }

    /// Read the entry at `i`.
    pub fn read_at(&self, i: usize) -> (r: i128)
        requires
            i < self@.len(),
        ensures
            r == self@[i as int],
    {
        self.data[i]
    }

    /// Overwrite the entry at `i`.
    pub fn write_at(&mut self, i: usize, value: i128)
        requires
            i < old(self)@.len(),
        ensures
            final(self)@ == old(self)@.update(i as int, value),
    {
        self.data[i] = value;
    }

    pub(crate) fn borrow_data(&self) -> (r: &Vec<i128>)
        ensures
            r@ == self@,
    {
        &self.data
    }

    pub(crate) fn borrow_data_mut(&mut self) -> (r: &mut Vec<i128>)
        ensures
            r@ == old(self)@,
            final(self)@ == final(r)@,
    {
        &mut self.data
    }
}

} // verus!
