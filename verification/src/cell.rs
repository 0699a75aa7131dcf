//! A value that can be replaced through a shared reference, and the
//! invariant that such a value keeps.

use vstd::prelude::*;
use vstd::cell::invcell::InvCell;

verus! {

/// A value that can be replaced through a shared reference.
///
/// A shared reference sees the same cell before and after a `set`, so no
/// contract can name what the cell holds at a given moment. What a contract
/// can name is fixed when the cell is made: the values that it admits.
/// Nothing else is ever put into the cell, and nothing else comes out of it.
///
/// [`Cell::new`] makes a cell that admits every value. A cell made by
/// [`Cell::with_invariant`] admits the values that meet a predicate, and its
/// readers may count on that predicate.
#[verifier::reject_recursive_types(T)]
pub struct Cell<T> {
    value: InvCell<T, spec_fn(T) -> bool>,
}

impl<T> Cell<T> {
    /// A cell that holds `value`, and that admits every value after it.
    pub fn new(value: T) -> (cell: Self)
        ensures
            forall|v: T| #[trigger] cell.admits(v),
    {
        Cell { value: InvCell::new(value, Ghost(|v: T| true)) }
    }

    /// A copy of what the cell holds: the value that was put there last, by
    /// whoever made the cell or set it since. It is a value that the cell
    /// admits.
    pub fn get(&self) -> (val: T) where T: Copy
        ensures
            self.admits(val),
    {
        self.value.get()
    }

    /// Replaces what the cell holds by a value that the cell admits.
    pub fn set(&self, value: T)
        requires
            self.admits(value),
    {
        self.value.set(value);
    }

    /// Whether the cell may hold `v`.
    pub closed spec fn admits(&self, v: T) -> bool {
        self.value.inv(v)
    }

    /// A cell that holds `value`, and that admits the values that meet `inv`.
    pub fn with_invariant(value: T, Ghost(inv): Ghost<spec_fn(T) -> bool>) -> (cell: Self)
        requires
            inv(value),
        ensures
            forall|v: T| #[trigger] cell.admits(v) == inv(v),
    {
        Cell { value: InvCell::new(value, Ghost(inv)) }
    }
}

} // verus!
