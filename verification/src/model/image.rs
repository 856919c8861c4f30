//! The flattened image of an owned device tree.
//!
//! This module says, byte for byte, what blob a tree is written to. The
//! blob holds the header, the memory reservations with their terminator,
//! the structure block and the strings block, in this order and without
//! gaps. The strings block holds each property name once, in the order in
//! which a depth-first walk of the tree first meets it.

use vstd::prelude::*;

use crate::codec::{align4, be32_bytes, be64_bytes};
use crate::fdt::header::{FDT_LAST_COMP_VERSION, FDT_MAGIC, FDT_VERSION, FdtHeader};
use crate::fdt::structure::{FDT_BEGIN_NODE, FDT_END, FDT_END_NODE, FDT_PROP};
use crate::fdt::tree::{NodeView, PropertyView};
use crate::memreserve::MemoryReservation;
use crate::model::tree::TreeView;

verus! {

/// `n` zero bytes.
pub open spec fn zeros(n: int) -> Seq<u8> {
    Seq::new(n as nat, |i: int| 0u8)
}

/// The zero bytes that follow `len` bytes to fill them up to a multiple of
/// four.
pub open spec fn padding_after(len: int) -> Seq<u8> {
    zeros(align4(len) - len)
}

/// The names of the properties in `props` from index `from` on.
pub open spec fn property_names(props: Seq<PropertyView>, from: int) -> Seq<Seq<u8>>
    decreases props.len() - from,
{
    if 0 <= from < props.len() {
        seq![props[from].name] + property_names(props, from + 1)
    } else {
        Seq::empty()
    }
}

/// The names of all properties of the tree `node` in the order in which a
/// depth-first walk meets them: those of the node itself, then those of
/// each child's subtree.
pub open spec fn node_names(node: NodeView) -> Seq<Seq<u8>>
    decreases node, node.children.len() + 1,
{
    property_names(node.properties, 0) + children_names(node, 0)
}

/// The names that [`node_names`] lists for the children of `node` from
/// index `from` on.
pub open spec fn children_names(node: NodeView, from: int) -> Seq<Seq<u8>>
    decreases node, node.children.len() - from,
{
    if 0 <= from < node.children.len() {
        node_names(node.children[from]) + children_names(node, from + 1)
    } else {
        Seq::empty()
    }
}

/// The least index at or after `from` at which `table` holds `name`, or the
/// length of `table` when it does not.
pub open spec fn position(table: Seq<Seq<u8>>, name: Seq<u8>, from: int) -> int
    decreases table.len() - from,
{
    if from < 0 || from >= table.len() {
        table.len() as int
    } else if table[from] == name {
        from
    } else {
        position(table, name, from + 1)
    }
}

/// The table after `name` was entered: a name that the table holds is not
/// entered again.
pub open spec fn intern(table: Seq<Seq<u8>>, name: Seq<u8>) -> Seq<Seq<u8>> {
    if position(table, name, 0) < table.len() {
        table
    } else {
        table.push(name)
    }
}

/// The table after the names in `names` were entered, one after the
/// other.
pub open spec fn intern_all(table: Seq<Seq<u8>>, names: Seq<Seq<u8>>) -> Seq<Seq<u8>>
    decreases names.len(),
{
    if names.len() == 0 {
        table
    } else {
        intern_all(intern(table, names[0]), names.drop_first())
    }
}

/// The string table of the tree below `root`: each property name once, in
/// the order in which the walk first meets it.
pub open spec fn string_table(root: NodeView) -> Seq<Seq<u8>> {
    intern_all(Seq::empty(), node_names(root))
}

/// The number of bytes that the first `count` names of `table` take in the
/// strings block, each with its terminator.
pub open spec fn table_size(table: Seq<Seq<u8>>, count: int) -> int
    decreases count,
{
    if count <= 0 {
        0
    } else {
        table_size(table, count - 1) + table[count - 1].len() + 1
    }
}

/// The offset in the strings block of `name`, which `table` holds.
pub open spec fn name_offset(table: Seq<Seq<u8>>, name: Seq<u8>) -> int {
    table_size(table, position(table, name, 0))
}

/// The strings block for the first `count` names of `table`: each name
/// followed by a zero byte.
pub open spec fn strings_image(table: Seq<Seq<u8>>, count: int) -> Seq<u8>
    decreases count,
{
    if count <= 0 {
        Seq::empty()
    } else {
        strings_image(table, count - 1) + table[count - 1] + seq![0u8]
    }
}

/// What a property is written as: the `PROP` token, the length of the
/// value, the offset of the name in the strings block, the value, and
/// padding to four bytes.
pub open spec fn prop_image(prop: PropertyView, table: Seq<Seq<u8>>) -> Seq<u8> {
    be32_bytes(FDT_PROP) + be32_bytes(prop.value.len() as u32) + be32_bytes(
        name_offset(table, prop.name) as u32,
    ) + prop.value + padding_after(prop.value.len() as int)
}

/// What the properties in `props` from index `from` on are written as.
pub open spec fn props_image(props: Seq<PropertyView>, table: Seq<Seq<u8>>, from: int) -> Seq<u8>
    decreases props.len() - from,
{
    if 0 <= from < props.len() {
        prop_image(props[from], table) + props_image(props, table, from + 1)
    } else {
        Seq::empty()
    }
}

/// What the start of a node named `name` is written as: the `BEGIN_NODE`
/// token, the name, a zero byte, and padding to four bytes.
pub open spec fn begin_image(name: Seq<u8>) -> Seq<u8> {
    be32_bytes(FDT_BEGIN_NODE) + name + seq![0u8] + padding_after(name.len() as int + 1)
}

/// What the tree `node` is written as: the start of the node, its
/// properties, the subtrees of its children, and the `END_NODE` token.
pub open spec fn node_image(node: NodeView, table: Seq<Seq<u8>>) -> Seq<u8>
    decreases node, node.children.len() + 1,
{
    begin_image(node.name) + props_image(node.properties, table, 0) + children_image(
        node,
        table,
        0,
    ) + be32_bytes(FDT_END_NODE)
}

/// What the subtrees of the children of `node` from index `from` on are
/// written as.
pub open spec fn children_image(node: NodeView, table: Seq<Seq<u8>>, from: int) -> Seq<u8>
    decreases node, node.children.len() - from,
{
    if 0 <= from < node.children.len() {
        node_image(node.children[from], table) + children_image(node, table, from + 1)
    } else {
        Seq::empty()
    }
}

/// The structure block of the tree below `root`: the root node and the
/// `END` token.
pub open spec fn struct_image(root: NodeView, table: Seq<Seq<u8>>) -> Seq<u8> {
    node_image(root, table) + be32_bytes(FDT_END)
}

/// What a memory reservation is written as: its address and its size.
pub open spec fn reservation_image(entry: MemoryReservation) -> Seq<u8> {
    be64_bytes(entry.address) + be64_bytes(entry.size)
}

/// The memory reservation block for the entries of `entries` from index
/// `from` on: the entries, and the terminating entry of sixteen zero bytes.
pub open spec fn reservations_image(entries: Seq<MemoryReservation>, from: int) -> Seq<u8>
    decreases entries.len() - from,
{
    if 0 <= from < entries.len() {
        reservation_image(entries[from]) + reservations_image(entries, from + 1)
    } else {
        reservation_image(MemoryReservation { address: 0, size: 0 })
    }
}

/// What a header is written as: its ten fields.
pub open spec fn header_image(h: FdtHeader) -> Seq<u8> {
    be32_bytes(h.magic) + be32_bytes(h.totalsize) + be32_bytes(h.off_dt_struct) + be32_bytes(
        h.off_dt_strings,
    ) + be32_bytes(h.off_mem_rsvmap) + be32_bytes(h.version) + be32_bytes(h.last_comp_version)
        + be32_bytes(h.boot_cpuid_phys) + be32_bytes(h.size_dt_strings) + be32_bytes(
        h.size_dt_struct,
    )
}

/// The size in bytes of what a property is written as.
pub open spec fn prop_size(prop: PropertyView) -> int {
    12 + align4(prop.value.len() as int)
}

/// The size in bytes of what the properties in `props` from index `from` on
/// are written as.
pub open spec fn props_size(props: Seq<PropertyView>, from: int) -> int
    decreases props.len() - from,
{
    if 0 <= from < props.len() {
        prop_size(props[from]) + props_size(props, from + 1)
    } else {
        0
    }
}

/// The size in bytes of what the tree `node` is written as.
pub open spec fn node_size(node: NodeView) -> int
    decreases node, node.children.len() + 1,
{
    4 + align4(node.name.len() as int + 1) + props_size(node.properties, 0) + children_size(node, 0) + 4
}

/// The size in bytes of what the subtrees of the children of `node` from
/// index `from` on are written as.
pub open spec fn children_size(node: NodeView, from: int) -> int
    decreases node, node.children.len() - from,
{
    if 0 <= from < node.children.len() {
        node_size(node.children[from]) + children_size(node, from + 1)
    } else {
        0
    }
}

/// The sizes and offsets of the blocks of the blob that `tree` is written
/// to, as mathematical integers.
pub struct Plan {
    /// The size of the memory reservation block.
    pub reservations: int,
    /// The size of the structure block.
    pub structure: int,
    /// The size of the strings block.
    pub strings: int,
}

impl Plan {
    /// The offset of the memory reservation block: it follows the header.
    pub open spec fn off_mem_rsvmap(self) -> int {
        40
    }

    /// The offset of the structure block.
    pub open spec fn off_dt_struct(self) -> int {
        40 + self.reservations
    }

    /// The offset of the strings block.
    pub open spec fn off_dt_strings(self) -> int {
        40 + self.reservations + self.structure
    }

    /// The size of the whole blob.
    pub open spec fn totalsize(self) -> int {
        40 + self.reservations + self.structure + self.strings
    }

    /// The header of the blob.
    pub open spec fn header(self) -> FdtHeader {
        FdtHeader {
            magic: FDT_MAGIC,
            totalsize: self.totalsize() as u32,
            off_dt_struct: self.off_dt_struct() as u32,
            off_dt_strings: self.off_dt_strings() as u32,
            off_mem_rsvmap: self.off_mem_rsvmap() as u32,
            version: FDT_VERSION,
            last_comp_version: FDT_LAST_COMP_VERSION,
            boot_cpuid_phys: 0,
            size_dt_strings: self.strings as u32,
            size_dt_struct: self.structure as u32,
        }
    }
}

/// The sizes of the blocks of the blob that `tree` is written to.
pub open spec fn plan_of(tree: TreeView) -> Plan {
    let table = string_table(tree.root);
    Plan {
        reservations: (tree.memory_reservations.len() as int + 1) * 16,
        structure: node_size(tree.root) + 4,
        strings: table_size(table, table.len() as int),
    }
}

/// Whether `tree` can be written: every length and offset of its blob must
/// fit in 32 bits, so the blob must have at most `u32::MAX` bytes.
pub open spec fn dtb_fits(tree: TreeView) -> bool {
    plan_of(tree).totalsize() <= u32::MAX
}

/// The blob that `tree` is written to.
pub open spec fn dtb_image(tree: TreeView) -> Seq<u8> {
    let table = string_table(tree.root);
    header_image(plan_of(tree).header()) + reservations_image(tree.memory_reservations, 0)
        + struct_image(tree.root, table) + strings_image(table, table.len() as int)
}

/// Whether `table` holds every name of `names`.
pub open spec fn covers(table: Seq<Seq<u8>>, names: Seq<Seq<u8>>) -> bool {
    forall|i: int| 0 <= i < names.len() ==> position(table, #[trigger] names[i], 0) < table.len()
}

/// [`position`] returns an index between `from` and the length; no entry
/// before it is the name, and the entry at it is.
pub proof fn lemma_position(table: Seq<Seq<u8>>, name: Seq<u8>, from: int)
    requires
        0 <= from <= table.len(),
    ensures
        from <= position(table, name, from) <= table.len(),
        forall|i: int| from <= i < position(table, name, from) ==> table[i] != name,
        position(table, name, from) < table.len() ==> table[position(table, name, from)] == name,
    decreases table.len() - from,
{
    if from < table.len() && table[from] != name {
        lemma_position(table, name, from + 1);
    }
}

/// The position of a name is `at` when the name stands there, or `at` is
/// the length, and the name stands nowhere between `from` and `at`.
pub proof fn lemma_position_is(table: Seq<Seq<u8>>, name: Seq<u8>, from: int, at: int)
    requires
        0 <= from <= at <= table.len(),
        at < table.len() ==> table[at] == name,
        forall|i: int| from <= i < at ==> table[i] != name,
    ensures
        position(table, name, from) == at,
    decreases at - from,
{
    if from < at {
        lemma_position_is(table, name, from + 1, at);
    }
}

/// The size of the first names of a table grows with their number, and it
/// is the same in every table that starts with these names.
pub proof fn lemma_table_size(table: Seq<Seq<u8>>, other: Seq<Seq<u8>>, count: int, more: int)
    requires
        0 <= count <= more,
        count <= table.len(),
        count <= other.len(),
        forall|i: int| 0 <= i < count ==> table[i] == other[i],
    ensures
        0 <= table_size(table, count) <= table_size(table, more),
        table_size(table, count) == table_size(other, count),
        count <= table_size(table, count),
    decreases more,
{
    if count < more {
        lemma_table_size(table, other, count, more - 1);
    } else if count > 0 {
        lemma_table_size(table, other, count - 1, count - 1);
    }
}

/// Entering a name keeps the names that the table holds where they are,
/// and afterwards the table holds the name.
pub proof fn lemma_intern(table: Seq<Seq<u8>>, name: Seq<u8>)
    ensures
        intern(table, name).len() >= table.len(),
        forall|i: int| 0 <= i < table.len() ==> intern(table, name)[i] == table[i],
        position(intern(table, name), name, 0) < intern(table, name).len(),
        forall|x: Seq<u8>|
            position(table, x, 0) < table.len() ==> position(intern(table, name), x, 0)
                == position(table, x, 0),
        position(intern(table, name), name, 0) == position(table, name, 0),
{
    lemma_position(table, name, 0);
    let after = intern(table, name);
    lemma_position(after, name, 0);
    if position(table, name, 0) >= table.len() {
        lemma_position_is(after, name, 0, table.len() as int);
    }
    assert forall|x: Seq<u8>| position(table, x, 0) < table.len() implies position(after, x, 0)
        == position(table, x, 0) by {
        lemma_position(table, x, 0);
        lemma_position_is(after, x, 0, position(table, x, 0));
    }
}

/// Entering names keeps the names that the table holds where they are;
/// afterwards the table holds the names that were entered, and its size did
/// not shrink.
pub proof fn lemma_intern_all(table: Seq<Seq<u8>>, names: Seq<Seq<u8>>)
    ensures
        intern_all(table, names).len() >= table.len(),
        forall|i: int| 0 <= i < table.len() ==> intern_all(table, names)[i] == table[i],
        forall|x: Seq<u8>|
            position(table, x, 0) < table.len() ==> position(intern_all(table, names), x, 0)
                == position(table, x, 0),
        covers(intern_all(table, names), names),
        table_size(table, table.len() as int) <= table_size(
            intern_all(table, names),
            intern_all(table, names).len() as int,
        ),
    decreases names.len(),
{
    if names.len() > 0 {
        let next = intern(table, names[0]);
        let rest = names.drop_first();
        let last = intern_all(next, rest);
        lemma_intern(table, names[0]);
        lemma_intern_all(next, rest);
        assert forall|i: int| 0 <= i < names.len() implies position(last, #[trigger] names[i], 0)
            < last.len() by {
            if i > 0 {
                assert(names[i] == rest[i - 1]);
            }
        }
        lemma_table_size(table, next, table.len() as int, table.len() as int);
        lemma_table_size(next, next, table.len() as int, next.len() as int);
    } else {
        lemma_table_size(table, table, table.len() as int, table.len() as int);
    }
}

/// Entering the names of `first` and then those of `second` is entering
/// those of both.
pub proof fn lemma_intern_all_concat(
    table: Seq<Seq<u8>>,
    first: Seq<Seq<u8>>,
    second: Seq<Seq<u8>>,
)
    ensures
        intern_all(table, first + second) == intern_all(intern_all(table, first), second),
    decreases first.len(),
{
    if first.len() == 0 {
        assert(first + second =~= second);
    } else {
        assert((first + second).drop_first() =~= first.drop_first() + second);
        lemma_intern_all_concat(intern(table, first[0]), first.drop_first(), second);
    }
}

/// A table holds the names of two lists when it holds those of each.
pub proof fn lemma_covers_concat(table: Seq<Seq<u8>>, first: Seq<Seq<u8>>, second: Seq<Seq<u8>>)
    ensures
        covers(table, first + second) <==> covers(table, first) && covers(table, second),
{
    let both = first + second;
    if covers(table, both) {
        assert forall|i: int| 0 <= i < first.len() implies position(table, #[trigger] first[i], 0)
            < table.len() by {
            assert(both[i] == first[i]);
        }
        assert forall|i: int| 0 <= i < second.len() implies position(
            table,
            #[trigger] second[i],
            0,
        ) < table.len() by {
            assert(both[first.len() + i] == second[i]);
        }
    }
    if covers(table, first) && covers(table, second) {
        assert forall|i: int| 0 <= i < both.len() implies position(table, #[trigger] both[i], 0)
            < table.len() by {
            if i < first.len() {
                assert(both[i] == first[i]);
            } else {
                assert(both[i] == second[i - first.len()]);
            }
        }
    }
}

/// The sizes of what properties and children are written as are not
/// negative, and a node takes at least twelve bytes.
pub proof fn lemma_sizes(node: NodeView, from: int)
    ensures
        props_size(node.properties, from) >= 0,
        children_size(node, from) >= 0,
        node_size(node) >= 12,
    decreases node, node.children.len() + 1, 0nat,
{
    lemma_props_size(node.properties, from);
    lemma_children_size(node, from);
    lemma_props_size(node.properties, 0);
    lemma_children_size(node, 0);
    crate::codec::lemma_align4(node.name.len() as int + 1);
}

/// The size of what properties are written as is not negative.
pub proof fn lemma_props_size(props: Seq<PropertyView>, from: int)
    ensures
        props_size(props, from) >= 0,
    decreases props.len() - from,
{
    if 0 <= from < props.len() {
        lemma_props_size(props, from + 1);
    }
}

/// The size of what children are written as is not negative.
pub proof fn lemma_children_size(node: NodeView, from: int)
    ensures
        children_size(node, from) >= 0,
    decreases node, node.children.len() - from,
{
    if 0 <= from < node.children.len() {
        let child = node.children[from];
        lemma_children_size(child, 0);
        lemma_props_size(child.properties, 0);
        lemma_children_size(node, from + 1);
        crate::codec::lemma_align4(child.name.len() as int + 1);
        assert(node_size(child) == 4 + align4(child.name.len() as int + 1) + props_size(
            child.properties,
            0,
        ) + children_size(child, 0) + 4);
    }
}

/// The strings block for the first `count` names has the size that
/// [`table_size`] gives.
pub proof fn lemma_strings_len(table: Seq<Seq<u8>>, count: int)
    ensures
        strings_image(table, count).len() == table_size(table, count),
    decreases count,
{
    if count > 0 {
        lemma_strings_len(table, count - 1);
    }
}

} // verus!
