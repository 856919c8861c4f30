//! A read-only API for inspecting a device tree node.

use vstd::prelude::*;
use vstd::slice::slice_subrange;
use vstd::string::StringSliceAdditionalSpecFns;

use crate::fdt::{blob_ok, Fdt};
use crate::fdt::header::struct_start;
use crate::fdt::property::FdtProperty;
use crate::fdt::structure::{has_root, node_body, prop_check, read_word, FDT_BEGIN_NODE, Layout};
use crate::fdt::tree::{
    collect_children, collect_props, is_node, items_ok, lemma_node_items, node_children, node_name,
    node_properties, prop_at, tree_at, NodeView, PropertyView,
};
use crate::node::{address_space_of, models, Node};
use crate::property::Property;
use crate::standard::{AddressSpaceProperties, DEFAULT_ADDRESS_CELLS, DEFAULT_SIZE_CELLS};
use crate::text::{find_nul_in, lemma_find_nul, str_from_utf8};

verus! {

/// Where a node view points: the blob, the offset of the node in it, and
/// the address space of the node's parent.
pub struct NodeRef {
    /// The bytes of the blob.
    pub blob: Seq<u8>,
    /// The offset of the node's `BEGIN_NODE` token.
    pub offset: int,
    /// The `#address-cells` and `#size-cells` of the node's parent.
    pub parent_address_space: AddressSpaceProperties,
}

/// A node in a flattened device tree.
#[derive(Debug, Clone, Copy)]
pub struct FdtNode<'a> {
    pub(crate) fdt: Fdt<'a>,
    pub(crate) offset: usize,
    /// The `#address-cells` and `#size-cells` properties of this node's parent
    /// node.
    pub(crate) parent_address_space: AddressSpaceProperties,
}

/// Whether `offset` is a place in `blob` that a node view can point to: a
/// well-formed node, or the start of a structure block that holds no node.
pub open spec fn node_place(blob: Seq<u8>, offset: int) -> bool {
    is_node(blob, offset) || (!has_root(blob) && offset == struct_start(blob))
}

/// The name of the node at `offset`; the root of a blob without nodes has
/// the empty name.
pub open spec fn name_at(blob: Seq<u8>, offset: int) -> Seq<u8> {
    if is_node(blob, offset) {
        node_name(blob, offset)
    } else {
        Seq::empty()
    }
}

/// The properties of the node at `offset`; the root of a blob without
/// nodes has none.
pub open spec fn properties_at(blob: Seq<u8>, offset: int) -> Seq<PropertyView> {
    if is_node(blob, offset) {
        node_properties(blob, offset)
    } else {
        Seq::empty()
    }
}

/// The offsets of the children of the node at `offset`; the root of a blob
/// without nodes has none.
pub open spec fn children_at(blob: Seq<u8>, offset: int) -> Seq<int> {
    if is_node(blob, offset) {
        node_children(blob, offset)
    } else {
        Seq::empty()
    }
}

/// The tree below the node at `offset`; the root of a blob without nodes
/// is a node without a name, properties or children.
pub open spec fn subtree_at(blob: Seq<u8>, offset: int) -> NodeView {
    if is_node(blob, offset) {
        tree_at(blob, offset)
    } else {
        NodeView { name: Seq::empty(), properties: Seq::empty(), children: Seq::empty() }
    }
}

impl<'a> View for FdtNode<'a> {
    type V = NodeRef;

    /// Where the node view points.
    closed spec fn view(&self) -> NodeRef {
        NodeRef {
            blob: self.fdt@,
            offset: self.offset as int,
            parent_address_space: self.parent_address_space,
        }
    }
}

impl<'a> FdtNode<'a> {
    /// Every node view points to a node place of a well-formed blob.
    #[verifier::type_invariant]
    pub closed spec fn inv(self) -> bool {
        blob_ok(self.fdt@) && node_place(self.fdt@, self.offset as int)
    }

    /// The child of this node that stands at `offset`.
    pub closed spec fn child_at(&self, offset: int) -> FdtNode<'a> {
        FdtNode {
            fdt: self.fdt,
            offset: offset as usize,
            parent_address_space: address_space_of(properties_at(self@.blob, self@.offset)),
        }
    }

    /// What the child that stands at `offset` points to: the same blob,
    /// that offset, and this node's address space.
    pub proof fn lemma_child_at(&self, offset: int)
        requires
            0 <= offset <= usize::MAX,
        ensures
            self.child_at(offset)@ == (NodeRef {
                blob: self@.blob,
                offset,
                parent_address_space: address_space_of(properties_at(self@.blob, self@.offset)),
            }),
    {
    }

    /// The root node of `fdt`.
    pub closed spec fn root_of(fdt: Fdt<'a>) -> FdtNode<'a> {
        FdtNode {
            fdt,
            offset: struct_start(fdt@) as usize,
            parent_address_space: AddressSpaceProperties {
                address_cells: DEFAULT_ADDRESS_CELLS,
                size_cells: DEFAULT_SIZE_CELLS,
            },
        }
    }

    /// The root node points to the start of the structure block, and its
    /// parent address space is the default one.
    pub proof fn lemma_root_of(fdt: Fdt<'a>)
        ensures
            Self::root_of(fdt)@ == (NodeRef {
                blob: fdt@,
                offset: struct_start(fdt@),
                parent_address_space: AddressSpaceProperties {
                    address_cells: DEFAULT_ADDRESS_CELLS,
                    size_cells: DEFAULT_SIZE_CELLS,
                },
            }),
    {
    }

    /// Makes the view of the root node of `fdt`, which stands at `offset`.
    pub(crate) fn new(fdt: Fdt<'a>, offset: usize) -> (r: FdtNode<'a>)
        requires
            blob_ok(fdt@),
            offset == struct_start(fdt@),
        ensures
            r == Self::root_of(fdt),
    {
        proof {
            crate::fdt::lemma_root_place(fdt@);
        }
        FdtNode { fdt, offset, parent_address_space: AddressSpaceProperties::default() }
    }

    /// Returns the flattened device tree that this node belongs to.
    pub fn fdt(&self) -> (r: Fdt<'a>)
        ensures
            r@ == self@.blob,
            blob_ok(self@.blob),
            node_place(self@.blob, self@.offset),
    {
        proof {
            use_type_invariant(self);
        }
        self.fdt
    }

    /// Returns the offset of this node in the blob.
    pub fn offset(&self) -> (r: usize)
        ensures
            r == self@.offset,
    {
        self.offset
    }

    /// Returns the `#address-cells` and `#size-cells` of this node's
    /// parent.
    pub fn parent_address_space(&self) -> (r: AddressSpaceProperties)
        ensures
            r == self@.parent_address_space,
    {
        self.parent_address_space
    }

    /// Returns the offset of the first item of this node, or `None` for the
    /// root of a blob without nodes.
    fn body(&self, lay: &Layout) -> (r: Option<usize>)
        requires
            lay.matches(self@.blob),
        ensures
            r is Some <==> is_node(self@.blob, self@.offset),
            r is Some ==> r->0 == node_body(self@.blob, self@.offset) && items_ok(
                self@.blob,
                r->0 as int,
            ),
    {
        proof {
            use_type_invariant(self);
        }
        let data = self.fdt.data;
        let begins = match read_word(data, lay, self.offset) {
            Ok(w) => w == FDT_BEGIN_NODE,
            Err(_) => false,
        };
        if !begins {
            return None;
        }
        proof {
            lemma_node_items(data@, self.offset as int);
            lemma_find_nul(data@, self.offset as int + 4, lay.struct_end as int);
        }
        let nul = find_nul_in(data, self.offset + 4, lay.struct_end);
        Some(nul + 1 + crate::codec::padding(nul + 1))
    }
}

impl<'a> Node<'a> for FdtNode<'a> {
    type Property = FdtProperty<'a>;

    open spec fn name_spec(&self) -> Seq<u8> {
        name_at(self@.blob, self@.offset)
    }

    open spec fn properties_spec(&self) -> Seq<PropertyView> {
        properties_at(self@.blob, self@.offset)
    }

    open spec fn children_spec(&self) -> Seq<FdtNode<'a>> {
        let offsets = children_at(self@.blob, self@.offset);
        Seq::new(offsets.len(), |i: int| self.child_at(offsets[i]))
    }

    /// Returns the name of this node.
    fn name(&self) -> (r: &'a str) {
        proof {
            use_type_invariant(self);
        }
        let lay = self.fdt.layout();
        let data = self.fdt.data;
        let begins = match read_word(data, &lay, self.offset) {
            Ok(w) => w == FDT_BEGIN_NODE,
            Err(_) => false,
        };
        if !begins {
            proof {
                reveal_strlit("");
                assert("".spec_bytes() =~= Seq::<u8>::empty());
            }
            return "";
        }
        proof {
            lemma_node_items(data@, self.offset as int);
            lemma_find_nul(data@, self.offset as int + 4, lay.struct_end as int);
        }
        let nul = find_nul_in(data, self.offset + 4, lay.struct_end);
        match str_from_utf8(slice_subrange(data, self.offset + 4, nul)) {
            Some(s) => s,
            None => "",
        }
    }

    /// Returns the properties of this node, in order.
    fn properties(&self) -> (r: Vec<FdtProperty<'a>>) {
        let lay = self.fdt.layout();
        let data = self.fdt.data;
        let mut out: Vec<FdtProperty<'a>> = Vec::new();
        let body = match self.body(&lay) {
            Some(b) => b,
            None => {
                assert(models(out@) =~= properties_at(self@.blob, self@.offset));
                return out;
            },
        };
        let offsets = collect_props(data, &lay, body);
        let mut i: usize = 0;
        while i < offsets.len()
            invariant
                lay.matches(data@),
                i <= offsets@.len(),
                out@.len() == i,
                forall|k: int|
                    0 <= k < offsets@.len() ==> #[trigger] offsets@[k] + 4 <= lay.struct_end
                        && prop_check(data@, offsets@[k] as int) is Ok,
                forall|k: int| 0 <= k < i ==> (#[trigger] out@[k])@ == prop_at(
                    data@,
                    offsets@[k] as int,
                ),
            decreases offsets@.len() - i,
        {
            let prop = read_prop(data, &lay, offsets[i]);
            out.push(prop);
            i += 1;
        }
        assert(models(out@) =~= properties_at(self@.blob, self@.offset));
        out
    }

    /// Returns the children of this node, in order.
    fn children(&self) -> (r: Vec<FdtNode<'a>>) {
        let lay = self.fdt.layout();
        let data = self.fdt.data;
        let fdt = self.fdt;
        let mut out: Vec<FdtNode<'a>> = Vec::new();
        let body = match self.body(&lay) {
            Some(b) => b,
            None => {
                assert(out@ =~= self.children_spec());
                return out;
            },
        };
        let space = self.address_space();
        let offsets = collect_children(data, &lay, body);
        let mut i: usize = 0;
        while i < offsets.len()
            invariant
                blob_ok(data@),
                fdt == self.fdt,
                data@ == fdt@,
                space == address_space_of(properties_at(self@.blob, self@.offset)),
                i <= offsets@.len(),
                out@.len() == i,
                forall|k: int| 0 <= k < offsets@.len() ==> is_node(data@, #[trigger] offsets@[k] as int),
                forall|k: int| 0 <= k < i ==> #[trigger] out@[k] == self.child_at(
                    offsets@[k] as int,
                ),
            decreases offsets@.len() - i,
        {
            out.push(FdtNode { fdt, offset: offsets[i], parent_address_space: space });
            i += 1;
        }
        assert(out@ =~= self.children_spec());
        out
    }
}

/// Reads the well-formed property whose token is at `off`.
fn read_prop<'a>(data: &'a [u8], lay: &Layout, off: usize) -> (r: FdtProperty<'a>)
    requires
        lay.matches(data@),
        off + 4 <= lay.struct_end,
        prop_check(data@, off as int) is Ok,
    ensures
        r@ == prop_at(data@, off as int),
{
    let len = match crate::codec::read_u32_be(data, off + 4) {
        Ok(v) => v as usize,
        Err(_) => 0,
    };
    let nameoff = match crate::codec::read_u32_be(data, off + 8) {
        Ok(v) => v as usize,
        Err(_) => 0,
    };
    let name_start = lay.strings_start + nameoff;
    let name_end = find_nul_in(data, name_start, lay.strings_end);
    let name = match str_from_utf8(slice_subrange(data, name_start, name_end)) {
        Some(s) => s,
        None => "",
    };
    let value = slice_subrange(data, off + 12, off + 12 + len);
    FdtProperty::new(name, value)
}

} // verus!
