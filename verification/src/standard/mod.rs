//! Standard nodes and properties.

pub mod cpus;
pub mod memory;
pub mod ranges;
pub mod reg;
pub mod status;

use vstd::prelude::*;
use vstd::string::StringSliceAdditionalSpecFns;

use crate::cells::Cells;
use crate::error::StandardError;
use crate::fdt::node::FdtNode;
use crate::fdt::tree::PropertyView;
use crate::node::{
    address_space_of, compatible_list, find_property, is_compatible_with, kept, optional_str,
    optional_u32, status_value, u32_or, Node,
};
use crate::property::{prop_encoded_array, rows_fit, rows_view, texts, Property};

pub use cpus::{Cpu, Cpus};
pub use memory::{InitialMappedArea, Memory};
pub use ranges::Range;
pub use reg::Reg;
pub use status::Status;

verus! {

/// The number of address cells of a node that has no `#address-cells`
/// property.
pub const DEFAULT_ADDRESS_CELLS: u32 = 2;

/// The number of size cells of a node that has no `#size-cells` property.
pub const DEFAULT_SIZE_CELLS: u32 = 1;

/// The `#address-cells` and `#size-cells` properties of a node.
#[derive(Debug, Clone, Copy)]
pub struct AddressSpaceProperties {
    /// The `#address-cells` property.
    pub address_cells: u32,
    /// The `#size-cells` property.
    pub size_cells: u32,
}

impl Default for AddressSpaceProperties {
    fn default() -> (r: AddressSpaceProperties)
        ensures
            r.address_cells == DEFAULT_ADDRESS_CELLS,
            r.size_cells == DEFAULT_SIZE_CELLS,
    {
        AddressSpaceProperties {
            address_cells: DEFAULT_ADDRESS_CELLS,
            size_cells: DEFAULT_SIZE_CELLS,
        }
    }
}

/// The elements of the prop-encoded-array property named `name`, whose
/// elements have the fields `fields`, if the node has such a property.
pub open spec fn optional_array(props: Seq<PropertyView>, name: Seq<u8>, fields: Seq<usize>) -> Result<
    Option<Seq<Seq<Seq<u8>>>>,
    StandardError,
> {
    match find_property(props, name) {
        Some(p) => match prop_encoded_array(p.value, fields) {
            Ok(rows) => Ok(Some(rows)),
            Err(e) => Err(e),
        },
        None => Ok(None),
    }
}

/// The fields of an element of a `reg` property of a node whose parent has
/// the address space `parent`: the address and the size.
pub open spec fn reg_fields(parent: AddressSpaceProperties) -> Seq<usize> {
    seq![parent.address_cells as usize, parent.size_cells as usize]
}

/// The fields of an element of a `ranges` property of a node with the
/// address space `own` whose parent has the address space `parent`: the
/// child bus address, the parent bus address and the length.
pub open spec fn range_fields(own: AddressSpaceProperties, parent: AddressSpaceProperties) -> Seq<
    usize,
> {
    seq![own.address_cells as usize, parent.address_cells as usize, own.size_cells as usize]
}

/// The fields of each of `regs`.
pub open spec fn reg_rows(regs: Seq<Reg<'_>>) -> Seq<Seq<Seq<u8>>> {
    Seq::new(regs.len(), |i: int| regs[i].fields())
}

/// The fields of each of `ranges`.
pub open spec fn range_rows(ranges: Seq<Range<'_>>) -> Seq<Seq<Seq<u8>>> {
    Seq::new(ranges.len(), |i: int| ranges[i].fields())
}

/// Reads the property named `name` of `node` as a prop-encoded-array with
/// the fields `fields`.
pub(crate) fn read_array<'a, N: Node<'a>>(node: &N, name: &str, fields: &[usize]) -> (r: Result<
    Option<Vec<Vec<Cells<'a>>>>,
    StandardError,
>)
    ensures
        match r {
            Ok(Some(rows)) => optional_array(node.properties_spec(), name.spec_bytes(), fields@)
                == Ok::<Option<Seq<Seq<Seq<u8>>>>, StandardError>(Some(rows_view(rows@))),
            Ok(None) => optional_array(node.properties_spec(), name.spec_bytes(), fields@) == Ok::<
                Option<Seq<Seq<Seq<u8>>>>,
                StandardError,
            >(None),
            Err(e) => optional_array(node.properties_spec(), name.spec_bytes(), fields@) == Err::<
                Option<Seq<Seq<Seq<u8>>>>,
                StandardError,
            >(e),
        },
        r matches Ok(Some(rows)) ==> rows_fit(rows@, fields@),
{
    match Node::property(node, name) {
        Some(p) => match p.as_prop_encoded_array(fields) {
            Ok(rows) => Ok(Some(rows)),
            Err(e) => Err(e),
        },
        None => Ok(None),
    }
}

/// Makes a `Range` of each element of a three-field prop-encoded-array.
fn rows_to_ranges<'a>(rows: Vec<Vec<Cells<'a>>>) -> (r: Vec<Range<'a>>)
    requires
        forall|i: int| 0 <= i < rows@.len() ==> (#[trigger] rows@[i])@.len() == 3,
    ensures
        range_rows(r@) == rows_view(rows@),
{
    let mut out: Vec<Range<'a>> = Vec::new();
    let mut i: usize = 0;
    while i < rows.len()
        invariant
            i <= rows@.len(),
            out@.len() == i,
            forall|k: int| 0 <= k < rows@.len() ==> (#[trigger] rows@[k])@.len() == 3,
            forall|k: int|
                0 <= k < i ==> (#[trigger] out@[k]).fields() == crate::property::row_view(
                    rows@[k],
                ),
        decreases rows@.len() - i,
    {
        let range = Range::from_cells(&rows[i]);
        assert(range.fields() =~= crate::property::row_view(rows@[i as int]));
        out.push(range);
        i += 1;
    }
    assert(range_rows(out@) =~= rows_view(rows@));
    out
}

/// Makes a `Reg` of each element of a two-field prop-encoded-array.
fn rows_to_regs<'a>(rows: Vec<Vec<Cells<'a>>>) -> (r: Vec<Reg<'a>>)
    requires
        forall|i: int| 0 <= i < rows@.len() ==> (#[trigger] rows@[i])@.len() == 2,
    ensures
        reg_rows(r@) == rows_view(rows@),
{
    let mut out: Vec<Reg<'a>> = Vec::new();
    let mut i: usize = 0;
    while i < rows.len()
        invariant
            i <= rows@.len(),
            out@.len() == i,
            forall|k: int| 0 <= k < rows@.len() ==> (#[trigger] rows@[k])@.len() == 2,
            forall|k: int|
                0 <= k < i ==> (#[trigger] out@[k]).fields() == crate::property::row_view(
                    rows@[k],
                ),
        decreases rows@.len() - i,
    {
        let reg = Reg::from_cells(&rows[i]);
        assert(reg.fields() =~= crate::property::row_view(rows@[i as int]));
        out.push(reg);
        i += 1;
    }
    assert(reg_rows(out@) =~= rows_view(rows@));
    out
}

impl<'a> FdtNode<'a> {
    /// Returns the value of the standard `compatible` property.
    pub fn compatible(&self) -> (r: Option<Vec<&'a str>>)
        ensures
            match r {
                Some(list) => compatible_list(self.properties_spec()) == Some(texts(list@)),
                None => compatible_list(self.properties_spec()) is None,
            },
    {
        Node::compatible(self)
    }

    /// Returns whether this node has a `compatible` properties containing the
    /// given string.
    pub fn is_compatible(&self, compatible_filter: &str) -> (r: bool)
        ensures
            r == is_compatible_with(self.properties_spec(), compatible_filter.spec_bytes()),
    {
        Node::is_compatible(self, compatible_filter)
    }

    /// Finds all child nodes with a `compatible` property containing the given
    /// string.
    pub fn find_compatible(&self, compatible_filter: &str) -> (r: Vec<FdtNode<'a>>)
        ensures
            r@ == kept(
                self.children_spec(),
                self.children_spec().map_values(
                    |c: FdtNode<'a>|
                        is_compatible_with(c.properties_spec(), compatible_filter.spec_bytes()),
                ),
                0,
            ),
    {
        Node::find_compatible(self, compatible_filter)
    }

    /// Returns the value of the standard `model` property.
    ///
    /// Fails when the value isn't a valid string.
    pub fn model(&self) -> (r: Result<Option<&'a str>, StandardError>)
        ensures
            match r {
                Ok(Some(s)) => optional_str(self.properties_spec(), "model".spec_bytes()) == Ok::<
                    Option<Seq<u8>>,
                    StandardError,
                >(Some(s.spec_bytes())),
                Ok(None) => optional_str(self.properties_spec(), "model".spec_bytes()) == Ok::<
                    Option<Seq<u8>>,
                    StandardError,
                >(None),
                Err(e) => optional_str(self.properties_spec(), "model".spec_bytes()) == Err::<
                    Option<Seq<u8>>,
                    StandardError,
                >(e),
            },
    {
        Node::model(self)
    }

    /// Returns the value of the standard `phandle` property.
    ///
    /// Fails when the value isn't a valid u32.
    pub fn phandle(&self) -> (r: Result<Option<u32>, StandardError>)
        ensures
            r == optional_u32(self.properties_spec(), "phandle".spec_bytes()),
    {
        Node::phandle(self)
    }

    /// Returns the value of the standard `status` property.
    ///
    /// If there is no `status` property then `okay` is assumed. Fails when
    /// the value isn't a valid status.
    pub fn status(&self) -> (r: Result<Status, StandardError>)
        ensures
            r == status_value(self.properties_spec()),
    {
        Node::status(self)
    }

    /// Returns the value of the standard `#address-cells` property, or its
    /// default when the node has none.
    ///
    /// Fails when the value isn't a valid u32.
    pub fn address_cells(&self) -> (r: Result<u32, StandardError>)
        ensures
            r == u32_or(
                self.properties_spec(),
                "#address-cells".spec_bytes(),
                DEFAULT_ADDRESS_CELLS,
            ),
    {
        Node::address_cells(self)
    }

    /// Returns the value of the standard `#size-cells` property, or its
    /// default when the node has none.
    ///
    /// Fails when the value isn't a valid u32.
    pub fn size_cells(&self) -> (r: Result<u32, StandardError>)
        ensures
            r == u32_or(self.properties_spec(), "#size-cells".spec_bytes(), DEFAULT_SIZE_CELLS),
    {
        Node::size_cells(self)
    }

    /// Returns the values of the standard `#address-cells` and `#size_cells`
    /// properties, each replaced by its default when it cannot be read.
    pub fn address_space(&self) -> (r: AddressSpaceProperties)
        ensures
            r == address_space_of(self.properties_spec()),
    {
        Node::address_space(self)
    }

    /// Returns the value of the standard `reg` property.
    ///
    /// The cells of an address and of a size are counted as the parent of
    /// this node says. Fails when the size of the value isn't a multiple of
    /// the expected number of address and size cells.
    pub fn reg(&self) -> (r: Result<Option<Vec<Reg<'a>>>, StandardError>)
        ensures
            match r {
                Ok(Some(regs)) => optional_array(
                    self.properties_spec(),
                    "reg".spec_bytes(),
                    reg_fields(self@.parent_address_space),
                ) == Ok::<Option<Seq<Seq<Seq<u8>>>>, StandardError>(Some(reg_rows(regs@))),
                Ok(None) => optional_array(
                    self.properties_spec(),
                    "reg".spec_bytes(),
                    reg_fields(self@.parent_address_space),
                ) == Ok::<Option<Seq<Seq<Seq<u8>>>>, StandardError>(None),
                Err(e) => optional_array(
                    self.properties_spec(),
                    "reg".spec_bytes(),
                    reg_fields(self@.parent_address_space),
                ) == Err::<Option<Seq<Seq<Seq<u8>>>>, StandardError>(e),
            },
    {
        let parent = self.parent_address_space();
        let fields = [parent.address_cells as usize, parent.size_cells as usize];
        assert(fields@ =~= reg_fields(self@.parent_address_space));
        match read_array(self, "reg", fields.as_slice()) {
            Ok(Some(rows)) => Ok(Some(rows_to_regs(rows))),
            Ok(None) => Ok(None),
            Err(e) => Err(e),
        }
    }

    /// Returns the value of the standard `virtual-reg` property.
    ///
    /// Fails when the value isn't a valid u32.
    pub fn virtual_reg(&self) -> (r: Result<Option<u32>, StandardError>)
        ensures
            r == optional_u32(self.properties_spec(), "virtual-reg".spec_bytes()),
    {
        Node::virtual_reg(self)
    }

    /// Reads the property named `name` as a list of ranges.
    fn ranges_named(&self, name: &str) -> (r: Result<Option<Vec<Range<'a>>>, StandardError>)
        ensures
            match r {
                Ok(Some(ranges)) => optional_array(
                    self.properties_spec(),
                    name.spec_bytes(),
                    range_fields(address_space_of(self.properties_spec()), self@.parent_address_space),
                ) == Ok::<Option<Seq<Seq<Seq<u8>>>>, StandardError>(Some(range_rows(ranges@))),
                Ok(None) => optional_array(
                    self.properties_spec(),
                    name.spec_bytes(),
                    range_fields(address_space_of(self.properties_spec()), self@.parent_address_space),
                ) == Ok::<Option<Seq<Seq<Seq<u8>>>>, StandardError>(None),
                Err(e) => optional_array(
                    self.properties_spec(),
                    name.spec_bytes(),
                    range_fields(address_space_of(self.properties_spec()), self@.parent_address_space),
                ) == Err::<Option<Seq<Seq<Seq<u8>>>>, StandardError>(e),
            },
    {
        let own = Node::address_space(self);
        let parent = self.parent_address_space();
        let fields = [
            own.address_cells as usize,
            parent.address_cells as usize,
            own.size_cells as usize,
        ];
        assert(fields@ =~= range_fields(
            address_space_of(self.properties_spec()),
            self@.parent_address_space,
        ));
        match read_array(self, name, fields.as_slice()) {
            Ok(Some(rows)) => Ok(Some(rows_to_ranges(rows))),
            Ok(None) => Ok(None),
            Err(e) => Err(e),
        }
    }

    /// Returns the value of the standard `ranges` property.
    ///
    /// The cells of a child bus address and of a length are counted as this
    /// node says, those of a parent bus address as its parent says. Fails
    /// when the size of the value isn't a multiple of the expected number
    /// of cells.
    pub fn ranges(&self) -> (r: Result<Option<Vec<Range<'a>>>, StandardError>)
        ensures
            match r {
                Ok(Some(ranges)) => optional_array(
                    self.properties_spec(),
                    "ranges".spec_bytes(),
                    range_fields(address_space_of(self.properties_spec()), self@.parent_address_space),
                ) == Ok::<Option<Seq<Seq<Seq<u8>>>>, StandardError>(Some(range_rows(ranges@))),
                Ok(None) => optional_array(
                    self.properties_spec(),
                    "ranges".spec_bytes(),
                    range_fields(address_space_of(self.properties_spec()), self@.parent_address_space),
                ) == Ok::<Option<Seq<Seq<Seq<u8>>>>, StandardError>(None),
                Err(e) => optional_array(
                    self.properties_spec(),
                    "ranges".spec_bytes(),
                    range_fields(address_space_of(self.properties_spec()), self@.parent_address_space),
                ) == Err::<Option<Seq<Seq<Seq<u8>>>>, StandardError>(e),
            },
    {
        self.ranges_named("ranges")
    }

    /// Returns the value of the standard `dma-ranges` property.
    ///
    /// The cells are counted as for [`FdtNode::ranges`]. Fails when the
    /// size of the value isn't a multiple of the expected number of cells.
    pub fn dma_ranges(&self) -> (r: Result<Option<Vec<Range<'a>>>, StandardError>)
        ensures
            match r {
                Ok(Some(ranges)) => optional_array(
                    self.properties_spec(),
                    "dma-ranges".spec_bytes(),
                    range_fields(address_space_of(self.properties_spec()), self@.parent_address_space),
                ) == Ok::<Option<Seq<Seq<Seq<u8>>>>, StandardError>(Some(range_rows(ranges@))),
                Ok(None) => optional_array(
                    self.properties_spec(),
                    "dma-ranges".spec_bytes(),
                    range_fields(address_space_of(self.properties_spec()), self@.parent_address_space),
                ) == Ok::<Option<Seq<Seq<Seq<u8>>>>, StandardError>(None),
                Err(e) => optional_array(
                    self.properties_spec(),
                    "dma-ranges".spec_bytes(),
                    range_fields(address_space_of(self.properties_spec()), self@.parent_address_space),
                ) == Err::<Option<Seq<Seq<Seq<u8>>>>, StandardError>(e),
            },
    {
        self.ranges_named("dma-ranges")
    }

    /// Returns whether the standard `dma-coherent` property is present.
    pub fn dma_coherent(&self) -> (r: bool)
        ensures
            r == find_property(self.properties_spec(), "dma-coherent".spec_bytes()).is_some(),
    {
        Node::dma_coherent(self)
    }
}

} // verus!
