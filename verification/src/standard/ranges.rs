//! The standard `ranges` and `dma-ranges` properties.

use vstd::prelude::*;

use crate::cells::{cells_value, CellInt, Cells};
use crate::error::StandardError;

verus! {

/// One of the values of a `ranges` property.
#[derive(Clone, Copy, Debug, Eq, PartialEq)]
pub struct Range<'a> {
    /// The address in address space of the child bus.
    pub child_bus_address: Cells<'a>,
    /// The address in the address space of the parent bus.
    pub parent_bus_address: Cells<'a>,
    /// The size of the range in the child's address space.
    pub length: Cells<'a>,
}

impl<'a> Default for Range<'a> {
    /// The value whose fields have no cells.
    fn default() -> (r: Range<'a>)
        ensures
            r.child_bus_address@ == Seq::<u8>::empty(),
            r.parent_bus_address@ == Seq::<u8>::empty(),
            r.length@ == Seq::<u8>::empty(),
    {
        Range {
            child_bus_address: Cells::default(),
            parent_bus_address: Cells::default(),
            length: Cells::default(),
        }
    }
}

impl<'a> Range<'a> {
    /// The bytes of the cells of the child bus address, of the parent bus
    /// address and of the length.
    pub open spec fn fields(&self) -> Seq<Seq<u8>> {
        seq![self.child_bus_address@, self.parent_bus_address@, self.length@]
    }

    /// Makes a `Range` from the three fields of an element of the
    /// property.
    pub(crate) fn from_cells(row: &Vec<Cells<'a>>) -> (r: Range<'a>)
        requires
            row@.len() == 3,
        ensures
            r.child_bus_address == row@[0],
            r.parent_bus_address == row@[1],
            r.length == row@[2],
    {
        Range { child_bus_address: row[0], parent_bus_address: row[1], length: row[2] }
    }

    /// Attempts to return the child-bus-address as the given type, if it will
    /// fit.
    ///
    /// Fails with `TooManyCells` when it has more cells than fit in `T`.
    pub fn child_bus_address<T: CellInt>(&self) -> (r: Result<T, StandardError>)
        ensures
            self.child_bus_address@.len() > T::byte_size() ==> r == Err::<T, StandardError>(
                StandardError::TooManyCells {
                    cells: (self.child_bus_address@.len() / 4) as usize,
                },
            ),
            self.child_bus_address@.len() <= T::byte_size() ==> r is Ok && r->Ok_0.number()
                == cells_value(self.child_bus_address@),
    {
        self.child_bus_address.to_int()
    }

    /// Attempts to return the parent-bus-address as the given type, if it will
    /// fit.
    ///
    /// Fails with `TooManyCells` when it has more cells than fit in `T`.
    pub fn parent_bus_address<T: CellInt>(&self) -> (r: Result<T, StandardError>)
        ensures
            self.parent_bus_address@.len() > T::byte_size() ==> r == Err::<T, StandardError>(
                StandardError::TooManyCells {
                    cells: (self.parent_bus_address@.len() / 4) as usize,
                },
            ),
            self.parent_bus_address@.len() <= T::byte_size() ==> r is Ok && r->Ok_0.number()
                == cells_value(self.parent_bus_address@),
    {
        self.parent_bus_address.to_int()
    }

    /// Attempts to return the length as the given type, if it will fit.
    ///
    /// Fails with `TooManyCells` when it has more cells than fit in `T`.
    pub fn length<T: CellInt>(&self) -> (r: Result<T, StandardError>)
        ensures
            self.length@.len() > T::byte_size() ==> r == Err::<T, StandardError>(
                StandardError::TooManyCells { cells: (self.length@.len() / 4) as usize },
            ),
            self.length@.len() <= T::byte_size() ==> r is Ok && r->Ok_0.number() == cells_value(
                self.length@,
            ),
    {
        self.length.to_int()
    }
}

} // verus!
