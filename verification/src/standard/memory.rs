//! The standard `/memory` node.

use vstd::prelude::*;
use vstd::string::StringSliceAdditionalSpecFns;

use crate::cells::{cells_value, Cells};
use crate::error::StandardError;
use crate::fdt::Fdt;
use crate::fdt::node::FdtNode;
use crate::fdt::tree::PropertyView;
use crate::node::{find_property, lookup, Node};
use crate::property::{row_view, rows_fit, rows_view};
use crate::standard::{optional_array, read_array};

verus! {

/// Typed wrapper for a `/memory` node.
#[derive(Clone, Copy, Debug)]
pub struct Memory<N> {
    node: N,
}

impl<N> View for Memory<N> {
    type V = N;

    /// The node that is wrapped.
    closed spec fn view(&self) -> N {
        self.node
    }
}

/// The value of an `initial-mapped-area` property.
#[derive(Clone, Copy, Debug, Default, Eq, Hash, Ord, PartialEq, PartialOrd)]
pub struct InitialMappedArea {
    /// The effective address.
    pub effective_address: u64,
    /// The physical address.
    pub physical_address: u64,
    /// The size of the area.
    pub size: u32,
}

/// The fields of an element of an `initial-mapped-area` property: two
/// cells of effective address, two of physical address, one of size.
pub open spec fn mapped_area_fields() -> Seq<usize> {
    seq![2usize, 2usize, 1usize]
}

/// The area that the fields `row` of an element describe.
pub open spec fn area_of(row: Seq<Seq<u8>>) -> InitialMappedArea {
    InitialMappedArea {
        effective_address: cells_value(row[0]) as u64,
        physical_address: cells_value(row[1]) as u64,
        size: cells_value(row[2]) as u32,
    }
}

/// The areas of the `initial-mapped-area` property of a node with the
/// properties `props`, if it has one.
pub open spec fn mapped_areas(props: Seq<PropertyView>) -> Result<
    Option<Seq<InitialMappedArea>>,
    StandardError,
> {
    match optional_array(props, "initial-mapped-area".spec_bytes(), mapped_area_fields()) {
        Ok(Some(rows)) => Ok(Some(Seq::new(rows.len(), |i: int| area_of(rows[i])))),
        Ok(None) => Ok(None),
        Err(e) => Err(e),
    }
}

impl InitialMappedArea {
    /// Creates an `InitialMappedArea` from the three fields of an element,
    /// which hold the effective address, physical address and size
    /// respectively, in 2, 2 and 1 cells.
    fn from_cells(row: &Vec<Cells<'_>>) -> (r: InitialMappedArea)
        requires
            row@.len() == 3,
            row@[0]@.len() == 8,
            row@[1]@.len() == 8,
            row@[2]@.len() == 4,
        ensures
            r == area_of(row_view(*row)),
    {
        let effective_address: u64 = match row[0].to_int::<u64>() {
            Ok(v) => v,
            Err(_) => 0,
        };
        let physical_address: u64 = match row[1].to_int::<u64>() {
            Ok(v) => v,
            Err(_) => 0,
        };
        let size: u32 = match row[2].to_int::<u32>() {
            Ok(v) => v,
            Err(_) => 0,
        };
        InitialMappedArea { effective_address, physical_address, size }
    }
}

impl<'a> Fdt<'a> {
    /// Returns the `/memory` node.
    ///
    /// This should always be included in a valid device tree. Fails with
    /// `MemoryMissing` when the tree has no such node.
    pub fn memory(self) -> (r: Result<Memory<FdtNode<'a>>, StandardError>)
        ensures
            match r {
                Ok(memory) => lookup(FdtNode::root_of(self), "/memory".spec_bytes()) == Some(
                    memory@,
                ),
                Err(e) => e == StandardError::MemoryMissing && lookup(
                    FdtNode::root_of(self),
                    "/memory".spec_bytes(),
                ) is None,
            },
    {
        match self.find_node("/memory") {
            Some(node) => Ok(Memory { node }),
            None => Err(StandardError::MemoryMissing),
        }
    }
}

impl<'a, N: Node<'a>> Memory<N> {
    /// Wraps a memory node.
    pub fn new(node: N) -> (r: Memory<N>)
        ensures
            r@ == node,
    {
        Memory { node }
    }

    /// Returns the node that is wrapped.
    pub fn node(&self) -> (r: &N)
        ensures
            *r == self@,
    {
        &self.node
    }

    /// Returns the value of the standard `initial-mapped-area` property of the
    /// memory node.
    ///
    /// Fails when the size of the value isn't a multiple of 5 cells.
    pub fn initial_mapped_area(&self) -> (r: Result<Option<Vec<InitialMappedArea>>, StandardError>)
        ensures
            match r {
                Ok(Some(areas)) => mapped_areas(self@.properties_spec()) == Ok::<
                    Option<Seq<InitialMappedArea>>,
                    StandardError,
                >(Some(areas@)),
                Ok(None) => mapped_areas(self@.properties_spec()) == Ok::<
                    Option<Seq<InitialMappedArea>>,
                    StandardError,
                >(None),
                Err(e) => mapped_areas(self@.properties_spec()) == Err::<
                    Option<Seq<InitialMappedArea>>,
                    StandardError,
                >(e),
            },
    {
        let fields: [usize; 3] = [2, 2, 1];
        assert(fields@ =~= mapped_area_fields());
        match read_array(&self.node, "initial-mapped-area", fields.as_slice()) {
            Ok(Some(rows)) => {
                let mut out: Vec<InitialMappedArea> = Vec::new();
                let mut i: usize = 0;
                while i < rows.len()
                    invariant
                        i <= rows@.len(),
                        out@.len() == i,
                        rows_fit(rows@, mapped_area_fields()),
                        forall|k: int| 0 <= k < i ==> #[trigger] out@[k] == area_of(
                            row_view(rows@[k]),
                        ),
                    decreases rows@.len() - i,
                {
                    proof {
                        let row = rows@[i as int];
                        assert(row@.len() == 3);
                        assert(row@[0]@.len() == 8);
                        assert(row@[1]@.len() == 8);
                        assert(row@[2]@.len() == 4);
                    }
                    out.push(InitialMappedArea::from_cells(&rows[i]));
                    i += 1;
                }
                proof {
                    let views = rows_view(rows@);
                    assert(out@ =~= Seq::new(views.len(), |i: int| area_of(views[i])));
                }
                Ok(Some(out))
            },
            Ok(None) => Ok(None),
            Err(e) => Err(e),
        }
    }

    /// Returns the value of the standard `hotpluggable` property of the memory
    /// node.
    pub fn hotpluggable(&self) -> (r: bool)
        ensures
            r == find_property(self@.properties_spec(), "hotpluggable".spec_bytes()).is_some(),
    {
        self.node.property("hotpluggable").is_some()
    }
}

} // verus!
