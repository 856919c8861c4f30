//! The standard `reg` property.

use vstd::prelude::*;

use crate::cells::{cells_value, CellInt, Cells};
use crate::error::StandardError;

verus! {

/// The value of a `reg` property.
#[derive(Clone, Copy, Debug, Eq, PartialEq)]
pub struct Reg<'a> {
    /// The address of the device within the address space of the parent bus.
    pub address: Cells<'a>,
    /// The size of the device within the address space of the parent bus.
    pub size: Cells<'a>,
}

impl<'a> Default for Reg<'a> {
    /// The value whose address and size have no cells.
    fn default() -> (r: Reg<'a>)
        ensures
            r.address@ == Seq::<u8>::empty(),
            r.size@ == Seq::<u8>::empty(),
    {
        Reg { address: Cells::default(), size: Cells::default() }
    }
}

impl<'a> Reg<'a> {
    /// The bytes of the address cells and of the size cells.
    pub open spec fn fields(&self) -> Seq<Seq<u8>> {
        seq![self.address@, self.size@]
    }

    /// Makes a `Reg` from the two fields of an element of the property.
    pub(crate) fn from_cells(row: &Vec<Cells<'a>>) -> (r: Reg<'a>)
        requires
            row@.len() == 2,
        ensures
            r.address == row@[0],
            r.size == row@[1],
    {
        Reg { address: row[0], size: row[1] }
    }

    /// Attempts to return the address as the given type, if it will fit.
    ///
    /// Fails with `TooManyCells` when the address has more cells than fit
    /// in `T`.
    pub fn address<T: CellInt>(self) -> (r: Result<T, StandardError>)
        ensures
            self.address@.len() > T::byte_size() ==> r == Err::<T, StandardError>(
                StandardError::TooManyCells { cells: (self.address@.len() / 4) as usize },
            ),
            self.address@.len() <= T::byte_size() ==> r is Ok && r->Ok_0.number() == cells_value(
                self.address@,
            ),
    {
        self.address.to_int()
    }

    /// Attempts to return the size as the given type, if it will fit.
    ///
    /// Fails with `TooManyCells` when the size has more cells than fit in
    /// `T`.
    pub fn size<T: CellInt>(self) -> (r: Result<T, StandardError>)
        ensures
            self.size@.len() > T::byte_size() ==> r == Err::<T, StandardError>(
                StandardError::TooManyCells { cells: (self.size@.len() / 4) as usize },
            ),
            self.size@.len() <= T::byte_size() ==> r is Ok && r->Ok_0.number() == cells_value(
                self.size@,
            ),
    {
        self.size.to_int()
    }
}

} // verus!
