//! Values that several handles share. What is done to a value through one handle is seen through
//! every copy of it.

use vstd::prelude::*;

verus! {

/// A handle to a shared value. Its copies lead to the same value.
#[derive(Debug, Clone, Copy, PartialEq, Eq, Structural)]
pub struct Handle {
    pub at: usize,
}

/// The values that handles lead to.
pub struct Shared<T> {
    values: Vec<T>,
}

impl<T> Shared<T> {
    pub closed spec fn view(&self) -> Seq<T> {
        self.values@
    }

    /// Whether a handle leads to a value here.
    pub open spec fn has(&self, h: Handle) -> bool {
        h.at < self@.len()
    }

    /// No values yet.
    pub fn new() -> (r: Shared<T>)
        ensures
            r@ == Seq::<T>::empty(),
    {
        Shared { values: Vec::new() }
    }

    /// Shares one more value, and hands out its first handle.
    pub fn share(&mut self, value: T) -> (r: Handle)
        ensures
            final(self)@ == old(self)@.push(value),
            r.at == old(self)@.len(),
    {
        let at: usize = self.values.len();
        self.values.push(value);
        Handle { at }
    }

    /// Whether a handle leads to a value here.
    pub fn knows(&self, h: Handle) -> (r: bool)
        ensures
            r == self.has(h),
    {
        h.at < self.values.len()
    }

    /// The value that a handle leads to.
    pub fn get(&self, h: Handle) -> (r: &T)
        requires
            self.has(h),
        ensures
            *r == self@[h.at as int],
    {
        &self.values[h.at]
    }

    /// The value that a handle leads to, to be changed. The others stay as they are.
    pub fn get_mut(&mut self, h: Handle) -> (r: &mut T)
        requires
            old(self).has(h),
        ensures
            *r == old(self)@[h.at as int],
            final(self)@ == old(self)@.update(h.at as int, *final(r)),
    {
        &mut self.values[h.at]
    }
}

} // verus!
