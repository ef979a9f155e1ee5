//! The cell that holds one slot of a ring.

use vstd::prelude::*;

verus! {

/// A value that is reached through a closure.
#[derive(Debug, PartialEq, Eq)]
pub struct UnsafeCell<T>(pub T);

impl<T> UnsafeCell<T> {
    /// A cell that holds `v`.
    pub fn new(v: T) -> (cell: Self)
        ensures
            cell.0 == v,
    {
        UnsafeCell(v)
    }

    /// Hands the value to `f` for reading and returns what `f` returns.
    pub fn with<R, F: FnOnce(&T) -> R>(&self, f: F) -> (r: R)
        requires
            f.requires((&self.0,)),
        ensures
            f.ensures((&self.0,), r),
    {
        f(&self.0)
    }

    /// Hands the value to `f` for writing and returns what `f` returns.
    pub fn with_mut<R, F: FnOnce(&mut T) -> R>(&mut self, f: F) -> (r: R)
        requires
            forall|p: &mut T| *p == old(self).0 ==> f.requires((p,)),
        ensures
            exists|p: &mut T| *p == old(self).0 && *final(p) == final(self).0 && f.ensures((p,), r),
    {
        f(&mut self.0)
    }
}

} // verus!
