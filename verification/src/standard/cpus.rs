//! The standard `/cpus` node.

use vstd::prelude::*;
use vstd::string::StringSliceAdditionalSpecFns;

use crate::cells::Cells;
use crate::error::StandardError;
use crate::fdt::Fdt;
use crate::fdt::node::FdtNode;
use crate::fdt::tree::PropertyView;
use crate::node::{kept, lookup, unit_stripped, Node};
use crate::standard::{optional_array, reg_fields, reg_rows, AddressSpaceProperties};
use crate::text::str_eq;

verus! {

/// Typed wrapper for a `/cpus` node.
#[derive(Clone, Copy, Debug)]
pub struct Cpus<'a> {
    node: FdtNode<'a>,
}

/// Typed wrapper for a `/cpus/cpu` node.
#[derive(Clone, Copy, Debug)]
pub struct Cpu<'a> {
    node: FdtNode<'a>,
}

impl<'a> View for Cpus<'a> {
    type V = FdtNode<'a>;

    /// The node that is wrapped.
    closed spec fn view(&self) -> FdtNode<'a> {
        self.node
    }
}

impl<'a> View for Cpu<'a> {
    type V = FdtNode<'a>;

    /// The node that is wrapped.
    closed spec fn view(&self) -> FdtNode<'a> {
        self.node
    }
}

/// The nodes that `cpus` wrap.
pub open spec fn cpu_nodes<'a>(cpus: Seq<Cpu<'a>>) -> Seq<FdtNode<'a>> {
    Seq::new(cpus.len(), |i: int| cpus[i]@)
}

/// The IDs of a CPU node with the properties `props` whose parent has the
/// address space `parent`: the address of each element of its `reg`
/// property, as the bytes of its cells. A node without a `reg` property
/// has none to give (`CpuMissingReg`).
pub open spec fn cpu_ids(props: Seq<PropertyView>, parent: AddressSpaceProperties) -> Result<
    Seq<Seq<u8>>,
    StandardError,
> {
    match optional_array(props, "reg".spec_bytes(), reg_fields(parent)) {
        Ok(Some(rows)) => Ok(Seq::new(rows.len(), |i: int| rows[i][0])),
        Ok(None) => Err(StandardError::CpuMissingReg),
        Err(e) => Err(e),
    }
}

/// The bytes of each of `cells`.
pub open spec fn cells_views(cells: Seq<Cells<'_>>) -> Seq<Seq<u8>> {
    Seq::new(cells.len(), |i: int| cells[i]@)
}

impl<'a> Fdt<'a> {
    /// Returns the `/cpus` node.
    ///
    /// This should always be included in a valid device tree. Fails with
    /// `CpusMissing` when the tree has no such node.
    pub fn cpus(self) -> (r: Result<Cpus<'a>, StandardError>)
        ensures
            match r {
                Ok(cpus) => lookup(FdtNode::root_of(self), "/cpus".spec_bytes()) == Some(cpus@),
                Err(e) => e == StandardError::CpusMissing && lookup(
                    FdtNode::root_of(self),
                    "/cpus".spec_bytes(),
                ) is None,
            },
    {
        match self.find_node("/cpus") {
            Some(node) => Ok(Cpus { node }),
            None => Err(StandardError::CpusMissing),
        }
    }
}

impl<'a> Cpus<'a> {
    /// Returns the node that is wrapped.
    pub fn node(&self) -> (r: FdtNode<'a>)
        ensures
            r == self@,
    {
        self.node
    }

    /// Returns the `/cpus/cpu@*` nodes: the children whose name without
    /// the unit address is `cpu`, in order.
    pub fn cpus(&self) -> (r: Vec<Cpu<'a>>)
        ensures
            cpu_nodes(r@) == kept(
                self@.children_spec(),
                self@.children_spec().map_values(
                    |c: FdtNode<'a>| unit_stripped(c.name_spec()) == "cpu".spec_bytes(),
                ),
                0,
            ),
    {
        let children = self.node.children();
        let ghost all = children@;
        let ghost keep = all.map_values(
            |c: FdtNode<'a>| unit_stripped(c.name_spec()) == "cpu".spec_bytes(),
        );
        let mut out: Vec<Cpu<'a>> = Vec::new();
        assert(cpu_nodes(out@) =~= Seq::<FdtNode<'a>>::empty());
        for c in it: children
            invariant
                it.seq() == all,
                all == self@.children_spec(),
                keep == all.map_values(
                    |c: FdtNode<'a>| unit_stripped(c.name_spec()) == "cpu".spec_bytes(),
                ),
                cpu_nodes(out@) + kept(all, keep, it.index() as int) == kept(all, keep, 0),
        {
            if str_eq(c.name_without_address(), "cpu") {
                proof {
                    let rest = kept(all, keep, it.index() as int + 1);
                    let cpu = Cpu { node: c };
                    assert(cpu_nodes(out@) + (seq![c] + rest) =~= cpu_nodes(out@.push(cpu))
                        + rest);
                }
                out.push(Cpu { node: c });
            }
        }
        assert(cpu_nodes(out@) + Seq::<FdtNode<'a>>::empty() =~= cpu_nodes(out@));
        out
    }
}

impl<'a> Cpu<'a> {
    /// Returns the node that is wrapped.
    pub fn node(&self) -> (r: FdtNode<'a>)
        ensures
            r == self@,
    {
        self.node
    }

    /// Returns the IDs of the CPU, from the standard `reg` property.
    ///
    /// Fails with `CpuMissingReg` when the `reg` property is missing, and
    /// as [`FdtNode::reg`] does when the size of its value isn't a multiple
    /// of the expected number of address and size cells.
    pub fn ids(&self) -> (r: Result<Vec<Cells<'a>>, StandardError>)
        ensures
            match r {
                Ok(ids) => cpu_ids(self@.properties_spec(), self@@.parent_address_space) == Ok::<
                    Seq<Seq<u8>>,
                    StandardError,
                >(cells_views(ids@)),
                Err(e) => cpu_ids(self@.properties_spec(), self@@.parent_address_space) == Err::<
                    Seq<Seq<u8>>,
                    StandardError,
                >(e),
            },
    {
        match self.node.reg() {
            Ok(Some(regs)) => {
                let mut out: Vec<Cells<'a>> = Vec::new();
                let mut i: usize = 0;
                while i < regs.len()
                    invariant
                        i <= regs@.len(),
                        out@.len() == i,
                        forall|k: int| 0 <= k < i ==> (#[trigger] out@[k])@ == regs@[k].address@,
                    decreases regs@.len() - i,
                {
                    out.push(regs[i].address);
                    i += 1;
                }
                proof {
                    let rows = reg_rows(regs@);
                    assert forall|k: int| 0 <= k < rows.len() implies rows[k][0]
                        == #[trigger] cells_views(out@)[k] by {
                        assert(rows[k] == regs@[k].fields());
                    }
                    assert(cells_views(out@) =~= Seq::new(rows.len(), |i: int| rows[i][0]));
                }
                Ok(out)
            },
            Ok(None) => Err(StandardError::CpuMissingReg),
            Err(e) => Err(e),
        }
    }
}

} // verus!
