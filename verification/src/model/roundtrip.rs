//! Reading back what was written.
//!
//! The blob that a tree is written to is well formed, and the tree that it
//! holds is the tree that was written, provided that no name holds a zero
//! byte and no memory reservation is the terminating entry.

use vstd::prelude::*;

use crate::codec::{align4, be32, be32_bytes, be64, be64_bytes, lemma_align4};
use crate::fdt::blob_ok;
use crate::fdt::header::{
    header_check, header_of, rsvmap_start, strings_end, strings_start, struct_end, struct_start,
    FDT_LAST_COMP_VERSION, FDT_MAGIC, FDT_VERSION, FdtHeader,
};
use crate::fdt::structure::{
    finish, has_root, node_body, prop_check, prop_len, prop_name_start, prop_next, scan, scan_step,
    structure_check, FDT_BEGIN_NODE, FDT_END, FDT_END_NODE, FDT_PROP, Walk,
};
use crate::fdt::tree::{
    children_from, forest_from, is_node, node_name, node_properties, prop_at, props_from, tree_at,
    NodeView, PropertyView,
};
use crate::memreserve::{reservation_at, reservations_end, reservations_from, MemoryReservation};
use crate::model::image::{
    begin_image, children_image, children_names, children_size, covers, dtb_fits, dtb_image,
    header_image, intern, intern_all, lemma_covers_concat, lemma_position, lemma_table_size,
    name_offset, node_image, node_names, node_size, padding_after, plan_of, position, prop_image,
    prop_size, property_names, props_image, props_size, reservation_image, reservations_image,
    string_table, strings_image, struct_image, table_size,
};
use crate::model::node::DeviceTreeNode;
use crate::model::tree::{blob_tree, DeviceTree, TreeView};
use crate::text::{clean_text, cstr_bytes, cstr_ok, find_nul, lemma_find_byte_is, zero_free};

verus! {

/// Whether `blob` holds the bytes `image` at offset `at`.
#[verifier::opaque]
pub open spec fn holds(blob: Seq<u8>, at: int, image: Seq<u8>) -> bool {
    &&& 0 <= at
    &&& at + image.len() <= blob.len()
    &&& forall|k: int| 0 <= k < image.len() ==> blob[at + k] == #[trigger] image[k]
}

/// A blob that holds two images one after the other holds each of them.
pub proof fn lemma_holds_split(blob: Seq<u8>, at: int, first: Seq<u8>, second: Seq<u8>)
    requires
        holds(blob, at, first + second),
    ensures
        holds(blob, at, first),
        holds(blob, at + first.len(), second),
{
    reveal(holds);
    let both = first + second;
    assert forall|k: int| 0 <= k < first.len() implies blob[at + k] == #[trigger] first[k] by {
        assert(both[k] == first[k]);
    }
    assert forall|k: int| 0 <= k < second.len() implies blob[at + first.len() + k]
        == #[trigger] second[k] by {
        assert(both[first.len() + k] == second[k]);
    }
}

/// A blob that holds a whole image holds every part of it.
pub proof fn lemma_holds_whole(blob: Seq<u8>, image: Seq<u8>)
    requires
        blob == image,
    ensures
        holds(blob, 0, image),
{
    reveal(holds);
}

/// The word that is read where a blob holds the bytes of a word is that
/// word.
pub proof fn lemma_holds_word(blob: Seq<u8>, at: int, word: u32)
    requires
        holds(blob, at, be32_bytes(word)),
    ensures
        be32(blob, at) == word,
        at + 4 <= blob.len(),
{
    reveal(holds);
    let bytes = be32_bytes(word);
    assert(blob[at + 0] == bytes[0]);
    assert(blob[at + 1] == bytes[1]);
    assert(blob[at + 2] == bytes[2]);
    assert(blob[at + 3] == bytes[3]);
}

/// The 64-bit value that is read where a blob holds the bytes of such a
/// value is that value.
pub proof fn lemma_holds_u64(blob: Seq<u8>, at: int, value: u64)
    requires
        holds(blob, at, be64_bytes(value)),
    ensures
        be64(blob, at) == value,
        at + 8 <= blob.len(),
{
    let hi = (value as int / 0x1_0000_0000) as u32;
    let lo = (value as int % 0x1_0000_0000) as u32;
    lemma_holds_split(blob, at, be32_bytes(hi), be32_bytes(lo));
    lemma_holds_word(blob, at, hi);
    lemma_holds_word(blob, at + 4, lo);
}

/// Where a blob holds a clean name and a zero byte after it, a terminated
/// string stands, and it is that name.
pub proof fn lemma_holds_name(blob: Seq<u8>, at: int, name: Seq<u8>, limit: int)
    requires
        holds(blob, at, name + seq![0u8]),
        clean_text(name),
        at + name.len() < limit <= blob.len(),
    ensures
        find_nul(blob, at, limit) == at + name.len(),
        cstr_ok(blob, at, limit),
        cstr_bytes(blob, at, limit) == name,
{
    reveal(holds);
    let both = name + seq![0u8];
    assert(blob[at + name.len()] == both[name.len() as int]);
    assert forall|i: int| at <= i < at + name.len() implies blob[i] != 0 by {
        assert(blob[at + (i - at)] == both[i - at]);
        assert(both[i - at] == name[i - at]);
    }
    lemma_find_byte_is(blob, 0, at, at + name.len(), limit);
    assert forall|k: int| 0 <= k < name.len() implies blob.subrange(at, at + name.len())[k]
        == name[k] by {
        assert(blob[at + k] == both[k]);
    }
    assert(blob.subrange(at, at + name.len()) =~= name);
}

/// The strings block of a table holds each of its names, with a zero byte
/// after it, at the offset that the table gives for the name.
pub proof fn lemma_strings_hold(table: Seq<Seq<u8>>, count: int, index: int)
    requires
        0 <= index < count <= table.len(),
    ensures
        holds(strings_image(table, count), table_size(table, index), table[index] + seq![0u8]),
        table_size(table, index) + table[index].len() + 1 <= table_size(table, count),
        strings_image(table, count).len() == table_size(table, count),
    decreases count,
{
    reveal(holds);
    crate::model::image::lemma_strings_len(table, count);
    crate::model::image::lemma_strings_len(table, count - 1);
    lemma_table_size(table, table, index, count - 1);
    let before = strings_image(table, count - 1);
    let whole = strings_image(table, count);
    let entry = table[index] + seq![0u8];
    if index < count - 1 {
        lemma_strings_hold(table, count - 1, index);
        assert forall|k: int| 0 <= k < entry.len() implies whole[table_size(table, index) + k]
            == #[trigger] entry[k] by {
            assert(before[table_size(table, index) + k] == entry[k]);
        }
    } else {
        assert forall|k: int| 0 <= k < entry.len() implies whole[table_size(table, index) + k]
            == #[trigger] entry[k] by {
        }
    }
}

/// A blob that holds an image holds what the image holds.
pub proof fn lemma_holds_within(blob: Seq<u8>, at: int, image: Seq<u8>, inner: int, part: Seq<u8>)
    requires
        holds(blob, at, image),
        holds(image, inner, part),
    ensures
        holds(blob, at + inner, part),
{
    reveal(holds);
    assert forall|k: int| 0 <= k < part.len() implies blob[at + inner + k] == #[trigger] part[k] by {
        assert(image[inner + k] == part[k]);
        assert(blob[at + (inner + k)] == image[inner + k]);
    }
}

/// A blob that holds two images one after the other holds both as one.
pub proof fn lemma_holds_join(blob: Seq<u8>, at: int, first: Seq<u8>, second: Seq<u8>)
    requires
        holds(blob, at, first),
        holds(blob, at + first.len(), second),
    ensures
        holds(blob, at, first + second),
{
    reveal(holds);
    let both = first + second;
    assert forall|k: int| 0 <= k < both.len() implies blob[at + k] == #[trigger] both[k] by {
        if k < first.len() {
            assert(both[k] == first[k]);
        } else {
            assert(both[k] == second[k - first.len()]);
            assert(blob[at + first.len() + (k - first.len())] == second[k - first.len()]);
        }
    }
}

/// Whether `n` is a multiple of four.
#[verifier::opaque]
pub open spec fn aligned(n: int) -> bool {
    n % 4 == 0
}

/// The sum of two multiples of four is a multiple of four.
pub proof fn lemma_aligned_sum(a: int, b: int)
    requires
        aligned(a),
        aligned(b),
    ensures
        aligned(a + b),
{
    reveal(aligned);
}

/// Rounding up behind a multiple of four rounds up what was added to it.
pub proof fn lemma_aligned_shift(base: int, more: int, n: int)
    requires
        aligned(base),
        more % 4 == 0,
    ensures
        align4(base + more + n) == base + more + align4(n),
{
    reveal(aligned);
    crate::codec::lemma_align4_shift(base + more, n);
}

/// Four more than a number rounded up to a multiple of four is a multiple
/// of four, and so is twelve more.
pub proof fn lemma_aligned_round(n: int)
    ensures
        aligned(4),
        aligned(4 + align4(n)),
        aligned(12 + align4(n)),
{
    reveal(aligned);
    lemma_align4(n);
}

/// Whether `blob` has its structure block before its strings block, and
/// its strings block is that of `table`, whose names are clean.
#[verifier::opaque]
pub open spec fn framed(blob: Seq<u8>, table: Seq<Seq<u8>>) -> bool {
    &&& 0 <= struct_start(blob) <= struct_end(blob) <= strings_start(blob)
    &&& struct_start(blob) % 4 == 0
    &&& strings_end(blob) == strings_start(blob) + table_size(table, table.len() as int)
    &&& strings_end(blob) <= blob.len()
    &&& table_size(table, table.len() as int) <= u32::MAX
    &&& holds(blob, strings_start(blob), strings_image(table, table.len() as int))
    &&& forall|i: int| 0 <= i < table.len() ==> clean_text(#[trigger] table[i])
}

/// The blocks of a framed blob lie inside it, the structure block first.
pub proof fn lemma_framed(blob: Seq<u8>, table: Seq<Seq<u8>>)
    requires
        framed(blob, table),
    ensures
        0 <= struct_start(blob) <= struct_end(blob) <= strings_start(blob) <= strings_end(blob)
            <= blob.len(),
        aligned(struct_start(blob)),
        strings_end(blob) == strings_start(blob) + table_size(table, table.len() as int),
{
    reveal(framed);
    reveal(aligned);
    lemma_table_size(table, table, 0, table.len() as int);
}

/// Where a blob holds the start of a node, a `BEGIN_NODE` token stands,
/// and after it the name that was written, as a terminated string.
pub proof fn lemma_begin_facts(blob: Seq<u8>, off: int, name: Seq<u8>)
    requires
        holds(blob, off, begin_image(name)),
        clean_text(name),
        0 <= off,
        aligned(off),
        off + 4 + align4(name.len() as int + 1) <= struct_end(blob) <= blob.len(),
    ensures
        be32(blob, off) == FDT_BEGIN_NODE,
        off + 4 <= struct_end(blob),
        cstr_ok(blob, off + 4, struct_end(blob)),
        find_nul(blob, off + 4, struct_end(blob)) == off + 4 + name.len(),
        node_body(blob, off) == off + 4 + align4(name.len() as int + 1),
        node_name(blob, off) == name,
        aligned(4 + align4(name.len() as int + 1)),
{
    let word = be32_bytes(FDT_BEGIN_NODE);
    let nul = seq![0u8];
    let pad = padding_after(name.len() as int + 1);
    lemma_align4(name.len() as int + 1);
    lemma_holds_split(blob, off, word + name + nul, pad);
    lemma_holds_split(blob, off, word + name, nul);
    lemma_holds_split(blob, off, word, name);
    lemma_holds_word(blob, off, FDT_BEGIN_NODE);
    lemma_holds_join(blob, off + 4, name, nul);
    lemma_holds_name(blob, off + 4, name, struct_end(blob));
    lemma_aligned_shift(off, 4, name.len() as int + 1);
    lemma_aligned_round(name.len() as int + 1);
}

/// Where a blob holds the start of a node, the walk over the tokens steps
/// into the node.
pub proof fn lemma_walk_begin(blob: Seq<u8>, off: int, depth: nat, name: Seq<u8>)
    requires
        holds(blob, off, begin_image(name)),
        clean_text(name),
        0 <= off,
        aligned(off),
        off + 4 + align4(name.len() as int + 1) <= struct_end(blob) <= blob.len(),
    ensures
        scan(blob, off, depth) == scan(
            blob,
            off + 4 + align4(name.len() as int + 1),
            depth + 1,
        ),
{
    lemma_begin_facts(blob, off, name);
    assert(scan_step(blob, off, depth) == Ok::<Walk, crate::error::FdtParseError>(
        Walk::Next { off: off + 4 + align4(name.len() as int + 1), depth: depth + 1 },
    )) by {
        reveal(scan_step);
    }
}

/// Where a blob holds the `END_NODE` token, the walk over the tokens steps
/// out of a node, and ends when it was the last open one.
pub proof fn lemma_walk_end(blob: Seq<u8>, off: int, depth: nat)
    requires
        holds(blob, off, be32_bytes(FDT_END_NODE)),
        0 <= off,
        off + 4 <= struct_end(blob),
        depth >= 1,
    ensures
        be32(blob, off) == FDT_END_NODE,
        depth == 1 ==> scan(blob, off, depth) == Ok::<int, crate::error::FdtParseError>(off + 4),
        depth > 1 ==> scan(blob, off, depth) == scan(blob, off + 4, (depth - 1) as nat),
{
    lemma_holds_word(blob, off, FDT_END_NODE);
    assert(scan_step(blob, off, depth) == Ok::<Walk, crate::error::FdtParseError>(
        if depth == 1 {
            Walk::Done { after: off + 4 }
        } else {
            Walk::Next { off: off + 4, depth: (depth - 1) as nat }
        },
    )) by {
        reveal(scan_step);
    }
}

/// Where a blob holds a property, the `PROP` token, the length of the
/// value, the offset of the name and the value stand that were written.
pub proof fn lemma_prop_words(blob: Seq<u8>, table: Seq<Seq<u8>>, off: int, prop: PropertyView)
    requires
        holds(blob, off, prop_image(prop, table)),
        prop.value.len() <= u32::MAX,
        0 <= name_offset(table, prop.name) <= u32::MAX,
    ensures
        be32(blob, off) == FDT_PROP,
        be32(blob, off + 4) == prop.value.len(),
        be32(blob, off + 8) == name_offset(table, prop.name),
        blob.subrange(off + 12, off + 12 + prop.value.len()) == prop.value,
        off + 12 + prop.value.len() <= blob.len(),
{
    reveal(holds);
    let len = prop.value.len() as int;
    let name_at = name_offset(table, prop.name);
    let w0 = be32_bytes(FDT_PROP);
    let w1 = be32_bytes(prop.value.len() as u32);
    let w2 = be32_bytes(name_at as u32);
    let pad = padding_after(len);
    lemma_holds_split(blob, off, w0 + w1 + w2 + prop.value, pad);
    lemma_holds_split(blob, off, w0 + w1 + w2, prop.value);
    lemma_holds_split(blob, off, w0 + w1, w2);
    lemma_holds_split(blob, off, w0, w1);
    lemma_holds_word(blob, off, FDT_PROP);
    lemma_holds_word(blob, off + 4, prop.value.len() as u32);
    lemma_holds_word(blob, off + 8, name_at as u32);
    assert forall|k: int| 0 <= k < len implies blob.subrange(off + 12, off + 12 + len)[k]
        == prop.value[k] by {
        assert(blob[off + 12 + k] == prop.value[k]);
    }
    assert(blob.subrange(off + 12, off + 12 + len) =~= prop.value);
}

/// The strings block of a framed blob holds each name of the table as a
/// terminated string at the offset that the table gives for it.
pub proof fn lemma_table_name(blob: Seq<u8>, table: Seq<Seq<u8>>, name: Seq<u8>)
    requires
        framed(blob, table),
        position(table, name, 0) < table.len(),
    ensures
        0 <= name_offset(table, name) < table_size(table, table.len() as int),
        table_size(table, table.len() as int) <= u32::MAX,
        cstr_ok(blob, strings_start(blob) + name_offset(table, name), strings_end(blob)),
        cstr_bytes(blob, strings_start(blob) + name_offset(table, name), strings_end(blob))
            == name,
{
    reveal(framed);
    let at = position(table, name, 0);
    let name_at = name_offset(table, name);
    lemma_position(table, name, 0);
    lemma_table_size(table, table, at, table.len() as int);
    lemma_strings_hold(table, table.len() as int, at);
    lemma_holds_within(
        blob,
        strings_start(blob),
        strings_image(table, table.len() as int),
        name_at,
        name + seq![0u8],
    );
    assert(clean_text(table[at]));
    lemma_holds_name(blob, strings_start(blob) + name_at, name, strings_end(blob));
}

/// Where a blob holds a property, a well-formed property stands, and it
/// is the one that was written.
pub proof fn lemma_prop_facts(blob: Seq<u8>, table: Seq<Seq<u8>>, off: int, prop: PropertyView)
    requires
        framed(blob, table),
        holds(blob, off, prop_image(prop, table)),
        aligned(off),
        0 <= off,
        off + prop_size(prop) <= struct_end(blob),
        position(table, prop.name, 0) < table.len(),
        prop.value.len() <= u32::MAX,
    ensures
        be32(blob, off) == FDT_PROP,
        off + 4 <= struct_end(blob),
        prop_check(blob, off) is Ok,
        prop_next(blob, off) == off + prop_size(prop),
        prop_at(blob, off) == prop,
{
    let len = prop.value.len() as int;
    lemma_framed(blob, table);
    lemma_table_name(blob, table, prop.name);
    lemma_prop_words(blob, table, off, prop);
    lemma_align4(len);
    lemma_aligned_shift(off, 12, len);
    assert(prop_len(blob, off) == len);
    assert(prop_name_start(blob, off) == strings_start(blob) + name_offset(table, prop.name));
    assert(prop_next(blob, off) == off + 12 + align4(len));
    assert(prop_size(prop) == 12 + align4(len));
}

/// Where a well-formed property stands, the walk over the tokens steps
/// over it.
pub proof fn lemma_walk_prop(blob: Seq<u8>, off: int, depth: nat)
    requires
        0 <= off,
        off + 4 <= struct_end(blob),
        be32(blob, off) == FDT_PROP,
        prop_check(blob, off) is Ok,
        depth >= 1,
    ensures
        scan(blob, off, depth) == scan(blob, prop_next(blob, off), depth),
{
    assert(scan_step(blob, off, depth) == Ok::<Walk, crate::error::FdtParseError>(
        Walk::Next { off: prop_next(blob, off), depth },
    )) by {
        reveal(scan_step);
    }
}

/// The properties that the property iteration meets from `cur`.
pub open spec fn props_seq(blob: Seq<u8>, cur: int) -> Seq<PropertyView> {
    let offsets = props_from(blob, cur);
    Seq::new(offsets.len(), |k: int| prop_at(blob, offsets[k]))
}

/// Where a well-formed property stands, the property iteration meets it
/// and goes on behind it, and the child iteration passes over it.
pub proof fn lemma_iter_prop(blob: Seq<u8>, cur: int)
    requires
        0 <= cur,
        cur + 4 <= struct_end(blob),
        be32(blob, cur) == FDT_PROP,
        prop_check(blob, cur) is Ok,
    ensures
        props_seq(blob, cur) == seq![prop_at(blob, cur)] + props_seq(blob, prop_next(blob, cur)),
        children_from(blob, cur) == children_from(blob, prop_next(blob, cur)),
        forest_from(blob, cur) == forest_from(blob, prop_next(blob, cur)),
{
    let next = prop_next(blob, cur);
    assert(props_from(blob, cur) == seq![cur] + props_from(blob, next));
    assert(props_seq(blob, cur) =~= seq![prop_at(blob, cur)] + props_seq(blob, next));
}

/// Where an `END_NODE` token stands, both iterations end.
pub proof fn lemma_iter_end(blob: Seq<u8>, cur: int)
    requires
        0 <= cur,
        cur + 4 <= struct_end(blob),
        be32(blob, cur) == FDT_END_NODE,
    ensures
        props_seq(blob, cur) == Seq::<PropertyView>::empty(),
        children_from(blob, cur) == Seq::<int>::empty(),
        forest_from(blob, cur) == Seq::<NodeView>::empty(),
{
    assert(props_from(blob, cur) =~= Seq::<int>::empty());
    assert(props_seq(blob, cur) =~= Seq::<PropertyView>::empty());
}

/// Where a well-formed node stands, the property iteration ends, and the
/// child iteration meets the node and goes on behind its subtree.
pub proof fn lemma_iter_begin(blob: Seq<u8>, cur: int, after: int)
    requires
        0 <= cur,
        cur + 4 <= struct_end(blob),
        be32(blob, cur) == FDT_BEGIN_NODE,
        scan(blob, cur, 0) == Ok::<int, crate::error::FdtParseError>(after),
    ensures
        props_seq(blob, cur) == Seq::<PropertyView>::empty(),
        forest_from(blob, cur) == seq![tree_at(blob, cur)] + forest_from(blob, after),
{
    assert(props_from(blob, cur) =~= Seq::<int>::empty());
    assert(props_seq(blob, cur) =~= Seq::<PropertyView>::empty());
}

/// The tree below a node is made of its name, the properties that the
/// property iteration meets from its first item, and the trees that the
/// child iteration meets from there.
pub proof fn lemma_tree_parts(blob: Seq<u8>, off: int)
    requires
        off < node_body(blob, off) <= struct_end(blob),
    ensures
        tree_at(blob, off) == (NodeView {
            name: node_name(blob, off),
            properties: props_seq(blob, node_body(blob, off)),
            children: forest_from(blob, node_body(blob, off)),
        }),
{
    assert(node_properties(blob, off) =~= props_seq(blob, node_body(blob, off)));
}

/// Whether the properties in `props` can be written with `table` and read
/// back: the table holds their names, and their values are not too long.
pub open spec fn props_ready(props: Seq<PropertyView>, table: Seq<Seq<u8>>) -> bool {
    forall|k: int|
        0 <= k < props.len() ==> position(table, (#[trigger] props[k]).name, 0) < table.len()
            && props[k].value.len() <= u32::MAX
}

/// Whether the tree `node` can be written with `table` and read back: the
/// names of all nodes are clean, the table holds the names of all
/// properties, and no value is too long.
pub open spec fn node_ready(node: NodeView, table: Seq<Seq<u8>>) -> bool
    decreases node,
{
    &&& clean_text(node.name)
    &&& props_ready(node.properties, table)
    &&& forall|j: int|
        0 <= j < node.children.len() ==> node_ready(#[trigger] node.children[j], table)
}

/// What properties are written as has the size that [`props_size`] gives,
/// a multiple of four.
pub proof fn lemma_props_image_len(props: Seq<PropertyView>, table: Seq<Seq<u8>>, from: int)
    ensures
        props_image(props, table, from).len() == props_size(props, from),
        aligned(props_size(props, from)),
        props_size(props, from) >= 0,
        0 <= from < props.len() ==> prop_image(props[from], table).len() == prop_size(
            props[from],
        ) && aligned(prop_size(props[from])) && prop_size(props[from]) >= 12
            && props_image(props, table, from) == prop_image(props[from], table) + props_image(
            props,
            table,
            from + 1,
        ) && props_size(props, from) == prop_size(props[from]) + props_size(props, from + 1),
    decreases props.len() - from,
{
    if 0 <= from < props.len() {
        lemma_align4(props[from].value.len() as int);
        lemma_aligned_round(props[from].value.len() as int);
        lemma_props_image_len(props, table, from + 1);
        lemma_aligned_sum(prop_size(props[from]), props_size(props, from + 1));
    } else {
        assert(aligned(0)) by {
            reveal(aligned);
        }
    }
}

/// What a tree is written as has the size that [`node_size`] gives, a
/// multiple of four.
pub proof fn lemma_node_image_len(node: NodeView, table: Seq<Seq<u8>>)
    ensures
        begin_image(node.name).len() == 4 + align4(node.name.len() as int + 1),
        node_image(node, table).len() == node_size(node),
        node_size(node) == 4 + align4(node.name.len() as int + 1) + props_size(node.properties, 0)
            + children_size(node, 0) + 4,
        aligned(node_size(node)),
        aligned(4 + align4(node.name.len() as int + 1)),
        node_size(node) >= 12,
    decreases node, node.children.len() + 1,
{
    let begin = 4 + align4(node.name.len() as int + 1);
    lemma_align4(node.name.len() as int + 1);
    lemma_aligned_round(node.name.len() as int + 1);
    lemma_props_image_len(node.properties, table, 0);
    lemma_children_image_len(node, table, 0);
    lemma_aligned_sum(begin, props_size(node.properties, 0));
    lemma_aligned_sum(begin + props_size(node.properties, 0), children_size(node, 0));
    lemma_aligned_sum(
        begin + props_size(node.properties, 0) + children_size(node, 0),
        4,
    );
}

/// What children are written as has the size that [`children_size`]
/// gives, a multiple of four.
pub proof fn lemma_children_image_len(node: NodeView, table: Seq<Seq<u8>>, from: int)
    ensures
        children_image(node, table, from).len() == children_size(node, from),
        aligned(children_size(node, from)),
        children_size(node, from) >= 0,
        0 <= from < node.children.len() ==> children_image(node, table, from) == node_image(
            node.children[from],
            table,
        ) + children_image(node, table, from + 1) && children_size(node, from) == node_size(
            node.children[from],
        ) + children_size(node, from + 1),
    decreases node, node.children.len() - from,
{
    if 0 <= from < node.children.len() {
        lemma_node_image_len(node.children[from], table);
        lemma_children_image_len(node, table, from + 1);
        lemma_aligned_sum(node_size(node.children[from]), children_size(node, from + 1));
    } else {
        assert(aligned(0)) by {
            reveal(aligned);
        }
    }
}

/// Where a blob holds properties, the walk over the tokens steps over
/// them; the property iteration meets them, in order, and the child
/// iteration passes over them.
#[verifier::rlimit(60)]
pub proof fn lemma_props_read(
    blob: Seq<u8>,
    table: Seq<Seq<u8>>,
    props: Seq<PropertyView>,
    from: int,
    cur: int,
    depth: nat,
)
    requires
        framed(blob, table),
        props_ready(props, table),
        0 <= from <= props.len(),
        0 <= cur,
        aligned(cur),
        holds(blob, cur, props_image(props, table, from)),
        cur + props_size(props, from) <= struct_end(blob),
        depth >= 1,
    ensures
        scan(blob, cur, depth) == scan(blob, cur + props_size(props, from), depth),
        props_seq(blob, cur) == props.subrange(from, props.len() as int) + props_seq(
            blob,
            cur + props_size(props, from),
        ),
        children_from(blob, cur) == children_from(blob, cur + props_size(props, from)),
        forest_from(blob, cur) == forest_from(blob, cur + props_size(props, from)),
    decreases props.len() - from,
{
    lemma_props_image_len(props, table, from);
    if from < props.len() {
        let prop = props[from];
        let next = cur + prop_size(prop);
        lemma_props_image_len(props, table, from + 1);
        lemma_holds_split(blob, cur, prop_image(prop, table), props_image(props, table, from + 1));
        lemma_prop_facts(blob, table, cur, prop);
        lemma_aligned_sum(cur, prop_size(prop));
        lemma_walk_prop(blob, cur, depth);
        lemma_iter_prop(blob, cur);
        lemma_props_read(blob, table, props, from + 1, next, depth);
        assert(props.subrange(from, props.len() as int) =~= seq![prop] + props.subrange(
            from + 1,
            props.len() as int,
        ));
        let tail = props_seq(blob, next + props_size(props, from + 1));
        assert(seq![prop] + (props.subrange(from + 1, props.len() as int) + tail) =~= (seq![prop]
            + props.subrange(from + 1, props.len() as int)) + tail);
    } else {
        assert(props.subrange(from, props.len() as int) + props_seq(blob, cur) =~= props_seq(
            blob,
            cur,
        ));
    }
}

/// Where a blob holds a tree, the walk over the tokens steps over it, and
/// the tree that is read there is the one that was written.
#[verifier::rlimit(60)]
pub proof fn lemma_node_read(
    blob: Seq<u8>,
    table: Seq<Seq<u8>>,
    node: NodeView,
    off: int,
    depth: nat,
)
    requires
        framed(blob, table),
        node_ready(node, table),
        0 <= off,
        aligned(off),
        holds(blob, off, node_image(node, table)),
        off + node_size(node) <= struct_end(blob),
    ensures
        be32(blob, off) == FDT_BEGIN_NODE,
        off + 4 <= struct_end(blob),
        depth == 0 ==> scan(blob, off, depth) == Ok::<int, crate::error::FdtParseError>(
            off + node_size(node),
        ),
        depth >= 1 ==> scan(blob, off, depth) == scan(blob, off + node_size(node), depth),
        tree_at(blob, off) == node,
    decreases node, node.children.len() + 1,
{
    let begin = begin_image(node.name);
    let props = props_image(node.properties, table, 0);
    let kids = children_image(node, table, 0);
    let end = be32_bytes(FDT_END_NODE);
    lemma_framed(blob, table);
    lemma_node_image_len(node, table);
    lemma_props_image_len(node.properties, table, 0);
    lemma_children_image_len(node, table, 0);
    let body = off + 4 + align4(node.name.len() as int + 1);
    let first_child = body + props_size(node.properties, 0);
    let last = first_child + children_size(node, 0);
    lemma_holds_split(blob, off, begin + props + kids, end);
    lemma_holds_split(blob, off, begin + props, kids);
    lemma_holds_split(blob, off, begin, props);
    lemma_aligned_sum(off, 4 + align4(node.name.len() as int + 1));
    lemma_aligned_sum(body, props_size(node.properties, 0));
    lemma_aligned_sum(first_child, children_size(node, 0));
    lemma_begin_facts(blob, off, node.name);
    lemma_walk_begin(blob, off, depth, node.name);
    lemma_props_read(blob, table, node.properties, 0, body, depth + 1);
    lemma_children_read(blob, table, node, 0, first_child, depth + 1);
    lemma_walk_end(blob, last, depth + 1);
    lemma_iter_end(blob, last);
    lemma_tree_parts(blob, off);
    // The property iteration ends where the children start.
    if node.children.len() > 0 {
        lemma_node_image_len(node.children[0], table);
        lemma_holds_split(
            blob,
            first_child,
            node_image(node.children[0], table),
            children_image(node, table, 1),
        );
        lemma_node_read(blob, table, node.children[0], first_child, 0);
        lemma_iter_begin(blob, first_child, first_child + node_size(node.children[0]));
    }
    assert(props_seq(blob, first_child) == Seq::<PropertyView>::empty());
    assert(node.properties.subrange(0, node.properties.len() as int) =~= node.properties);
    assert(node.properties + Seq::<PropertyView>::empty() =~= node.properties);
    assert(node.children.subrange(0, node.children.len() as int) =~= node.children);
    assert(node.children + Seq::<NodeView>::empty() =~= node.children);
}

/// Where a blob holds the subtrees of children, the walk over the tokens
/// steps over them, and the child iteration meets the trees that were
/// written, in order.
#[verifier::rlimit(60)]
pub proof fn lemma_children_read(
    blob: Seq<u8>,
    table: Seq<Seq<u8>>,
    node: NodeView,
    from: int,
    cur: int,
    depth: nat,
)
    requires
        framed(blob, table),
        node_ready(node, table),
        0 <= from <= node.children.len(),
        0 <= cur,
        aligned(cur),
        holds(blob, cur, children_image(node, table, from)),
        cur + children_size(node, from) <= struct_end(blob),
        depth >= 1,
    ensures
        scan(blob, cur, depth) == scan(blob, cur + children_size(node, from), depth),
        forest_from(blob, cur) == node.children.subrange(from, node.children.len() as int)
            + forest_from(blob, cur + children_size(node, from)),
    decreases node, node.children.len() - from,
{
    lemma_children_image_len(node, table, from);
    if from < node.children.len() {
        let child = node.children[from];
        let next = cur + node_size(child);
        lemma_node_image_len(child, table);
        lemma_children_image_len(node, table, from + 1);
        lemma_holds_split(
            blob,
            cur,
            node_image(child, table),
            children_image(node, table, from + 1),
        );
        lemma_aligned_sum(cur, node_size(child));
        lemma_node_read(blob, table, child, cur, depth);
        lemma_node_read(blob, table, child, cur, 0);
        lemma_iter_begin(blob, cur, next);
        lemma_children_read(blob, table, node, from + 1, next, depth);
        assert(node.children.subrange(from, node.children.len() as int) =~= seq![child]
            + node.children.subrange(from + 1, node.children.len() as int));
        let tail = forest_from(blob, next + children_size(node, from + 1));
        assert(seq![child] + (node.children.subrange(from + 1, node.children.len() as int)
            + tail) =~= (seq![child] + node.children.subrange(
            from + 1,
            node.children.len() as int,
        )) + tail);
    } else {
        assert(node.children.subrange(from, node.children.len() as int) + forest_from(blob, cur)
            =~= forest_from(blob, cur));
    }
}

/// Whether all names in the tree `node` can be read back: each is valid
/// UTF-8 and holds no zero byte.
pub open spec fn clean_tree(node: NodeView) -> bool
    decreases node,
{
    &&& clean_text(node.name)
    &&& forall|k: int|
        0 <= k < node.properties.len() ==> clean_text((#[trigger] node.properties[k]).name)
    &&& forall|j: int| 0 <= j < node.children.len() ==> clean_tree(#[trigger] node.children[j])
}

/// Whether `tree` can be read back from its blob: all names are clean, and
/// no memory reservation is the entry that ends the block.
pub open spec fn readable(tree: TreeView) -> bool {
    &&& clean_tree(tree.root)
    &&& forall|i: int|
        0 <= i < tree.memory_reservations.len() ==> !(
        #[trigger] tree.memory_reservations[i]).is_terminator()
}

/// Whether every name in `names` is clean.
pub open spec fn clean_names(names: Seq<Seq<u8>>) -> bool {
    forall|i: int| 0 <= i < names.len() ==> clean_text(#[trigger] names[i])
}

/// The names of the properties of a clean tree are clean.
pub proof fn lemma_clean_names(node: NodeView, from: int)
    requires
        clean_tree(node),
        0 <= from,
    ensures
        clean_names(property_names(node.properties, from)),
        clean_names(children_names(node, from)),
        clean_names(node_names(node)),
    decreases node, node.children.len() + 1, 0nat,
{
    lemma_clean_property_names(node, from);
    lemma_clean_property_names(node, 0);
    if from <= node.children.len() {
        lemma_clean_children_names(node, from);
    }
    lemma_clean_children_names(node, 0);
    let own = property_names(node.properties, 0);
    let below = children_names(node, 0);
    assert forall|i: int| 0 <= i < (own + below).len() implies clean_text(
        #[trigger] (own + below)[i],
    ) by {
        if i < own.len() {
            assert((own + below)[i] == own[i]);
        } else {
            assert((own + below)[i] == below[i - own.len()]);
        }
    }
}

/// The names of the properties of a node of a clean tree are clean.
pub proof fn lemma_clean_property_names(node: NodeView, from: int)
    requires
        clean_tree(node),
        0 <= from,
    ensures
        clean_names(property_names(node.properties, from)),
    decreases node.properties.len() - from,
{
    if from < node.properties.len() {
        lemma_clean_property_names(node, from + 1);
        let first = seq![node.properties[from].name];
        let rest = property_names(node.properties, from + 1);
        assert forall|i: int| 0 <= i < (first + rest).len() implies clean_text(
            #[trigger] (first + rest)[i],
        ) by {
            if i > 0 {
                assert((first + rest)[i] == rest[i - 1]);
            }
        }
    }
}

/// The names of the properties below the children of a clean tree are
/// clean.
pub proof fn lemma_clean_children_names(node: NodeView, from: int)
    requires
        clean_tree(node),
        0 <= from,
    ensures
        clean_names(children_names(node, from)),
    decreases node, node.children.len() - from,
{
    if from < node.children.len() {
        lemma_clean_names(node.children[from], 0);
        lemma_clean_children_names(node, from + 1);
        let first = node_names(node.children[from]);
        let rest = children_names(node, from + 1);
        assert forall|i: int| 0 <= i < (first + rest).len() implies clean_text(
            #[trigger] (first + rest)[i],
        ) by {
            if i < first.len() {
                assert((first + rest)[i] == first[i]);
            } else {
                assert((first + rest)[i] == rest[i - first.len()]);
            }
        }
    }
}

/// Entering clean names into a table of clean names gives a table of
/// clean names.
pub proof fn lemma_clean_table(table: Seq<Seq<u8>>, names: Seq<Seq<u8>>)
    requires
        clean_names(table),
        clean_names(names),
    ensures
        clean_names(intern_all(table, names)),
    decreases names.len(),
{
    if names.len() > 0 {
        let next = intern(table, names[0]);
        assert(clean_text(names[0]));
        assert forall|i: int| 0 <= i < next.len() implies clean_text(#[trigger] next[i]) by {
            if i < table.len() {
                assert(next[i] == table[i]);
            }
        }
        assert forall|i: int| 0 <= i < names.drop_first().len() implies clean_text(
            #[trigger] names.drop_first()[i],
        ) by {
            assert(names.drop_first()[i] == names[i + 1]);
        }
        lemma_clean_table(next, names.drop_first());
    }
}

/// A clean tree whose property names a table holds, and which is not too
/// large, is ready to be written with the table and read back.
pub proof fn lemma_ready(node: NodeView, table: Seq<Seq<u8>>)
    requires
        clean_tree(node),
        covers(table, node_names(node)),
        node_size(node) <= u32::MAX,
    ensures
        node_ready(node, table),
    decreases node, node.children.len() + 1,
{
    lemma_node_image_len(node, table);
    lemma_props_image_len(node.properties, table, 0);
    lemma_children_image_len(node, table, 0);
    lemma_covers_concat(table, property_names(node.properties, 0), children_names(node, 0));
    lemma_props_ready(node.properties, table, 0);
    lemma_children_ready(node, table, 0);
}

/// Properties whose names a table holds, and which are not too large, are
/// ready to be written with the table and read back.
pub proof fn lemma_props_ready(props: Seq<PropertyView>, table: Seq<Seq<u8>>, from: int)
    requires
        0 <= from,
        covers(table, property_names(props, from)),
        props_size(props, from) <= u32::MAX,
    ensures
        forall|k: int|
            from <= k < props.len() ==> position(table, (#[trigger] props[k]).name, 0)
                < table.len() && props[k].value.len() <= u32::MAX,
    decreases props.len() - from,
{
    if from < props.len() {
        lemma_props_image_len(props, table, from);
        lemma_props_image_len(props, table, from + 1);
        lemma_align4(props[from].value.len() as int);
        lemma_covers_concat(table, seq![props[from].name], property_names(props, from + 1));
        assert(seq![props[from].name][0] == props[from].name);
        lemma_props_ready(props, table, from + 1);
    }
}

/// The children of a clean tree whose property names a table holds, and
/// which is not too large, are ready to be written with the table and read
/// back.
pub proof fn lemma_children_ready(node: NodeView, table: Seq<Seq<u8>>, from: int)
    requires
        clean_tree(node),
        0 <= from,
        covers(table, children_names(node, from)),
        children_size(node, from) <= u32::MAX,
    ensures
        forall|j: int|
            from <= j < node.children.len() ==> node_ready(#[trigger] node.children[j], table),
    decreases node, node.children.len() - from,
{
    if from < node.children.len() {
        lemma_children_image_len(node, table, from);
        lemma_children_image_len(node, table, from + 1);
        lemma_node_image_len(node.children[from], table);
        lemma_covers_concat(
            table,
            node_names(node.children[from]),
            children_names(node, from + 1),
        );
        lemma_ready(node.children[from], table);
        lemma_children_ready(node, table, from + 1);
    }
}

/// The memory reservation block for entries has sixteen bytes for each of
/// them and for the terminator.
pub proof fn lemma_reservations_len(entries: Seq<MemoryReservation>, from: int)
    requires
        0 <= from <= entries.len(),
    ensures
        reservations_image(entries, from).len() == (entries.len() - from + 1) * 16,
        reservation_image(entries[from]).len() == 16,
    decreases entries.len() - from,
{
    if from < entries.len() {
        lemma_reservations_len(entries, from + 1);
    }
}

/// Where a blob holds an entry of the memory reservation block, that
/// entry is read.
pub proof fn lemma_reservation_read(blob: Seq<u8>, at: int, entry: MemoryReservation)
    requires
        holds(blob, at, reservation_image(entry)),
    ensures
        reservation_at(blob, at) == entry,
{
    lemma_holds_split(blob, at, be64_bytes(entry.address), be64_bytes(entry.size));
    lemma_holds_u64(blob, at, entry.address);
    lemma_holds_u64(blob, at + 8, entry.size);
}

/// Where a blob holds a memory reservation block before its structure
/// block, the block is terminated, and the entries that were written are
/// read back.
pub proof fn lemma_reservations_read(
    blob: Seq<u8>,
    entries: Seq<MemoryReservation>,
    from: int,
    at: int,
)
    requires
        0 <= from <= entries.len(),
        0 <= at,
        holds(blob, at, reservations_image(entries, from)),
        at + (entries.len() - from + 1) * 16 <= struct_start(blob),
        forall|i: int| 0 <= i < entries.len() ==> !(#[trigger] entries[i]).is_terminator(),
    ensures
        reservations_end(blob, at) is Ok,
        reservations_from(blob, at) == entries.subrange(from, entries.len() as int),
    decreases entries.len() - from,
{
    if from < entries.len() {
        lemma_reservations_len(entries, from);
        lemma_reservations_len(entries, from + 1);
        lemma_holds_split(
            blob,
            at,
            reservation_image(entries[from]),
            reservations_image(entries, from + 1),
        );
        lemma_reservation_read(blob, at, entries[from]);
        lemma_reservations_read(blob, entries, from + 1, at + 16);
        assert(!entries[from].is_terminator());
        assert(entries.subrange(from, entries.len() as int) =~= seq![entries[from]]
            + entries.subrange(from + 1, entries.len() as int));
    } else {
        lemma_reservation_read(blob, at, MemoryReservation { address: 0, size: 0 });
        assert(entries.subrange(from, entries.len() as int) =~= Seq::<
            MemoryReservation,
        >::empty());
    }
}

/// Where a blob starts with what a header is written as, that header is
/// read.
pub proof fn lemma_header_read(blob: Seq<u8>, h: FdtHeader)
    requires
        holds(blob, 0, header_image(h)),
    ensures
        header_of(blob) == h,
        blob.len() >= 40,
{
    let w0 = be32_bytes(h.magic);
    let w1 = be32_bytes(h.totalsize);
    let w2 = be32_bytes(h.off_dt_struct);
    let w3 = be32_bytes(h.off_dt_strings);
    let w4 = be32_bytes(h.off_mem_rsvmap);
    let w5 = be32_bytes(h.version);
    let w6 = be32_bytes(h.last_comp_version);
    let w7 = be32_bytes(h.boot_cpuid_phys);
    let w8 = be32_bytes(h.size_dt_strings);
    let w9 = be32_bytes(h.size_dt_struct);
    lemma_holds_split(blob, 0, w0 + w1 + w2 + w3 + w4 + w5 + w6 + w7 + w8, w9);
    lemma_holds_split(blob, 0, w0 + w1 + w2 + w3 + w4 + w5 + w6 + w7, w8);
    lemma_holds_split(blob, 0, w0 + w1 + w2 + w3 + w4 + w5 + w6, w7);
    lemma_holds_split(blob, 0, w0 + w1 + w2 + w3 + w4 + w5, w6);
    lemma_holds_split(blob, 0, w0 + w1 + w2 + w3 + w4, w5);
    lemma_holds_split(blob, 0, w0 + w1 + w2 + w3, w4);
    lemma_holds_split(blob, 0, w0 + w1 + w2, w3);
    lemma_holds_split(blob, 0, w0 + w1, w2);
    lemma_holds_split(blob, 0, w0, w1);
    lemma_holds_word(blob, 0, h.magic);
    lemma_holds_word(blob, 4, h.totalsize);
    lemma_holds_word(blob, 8, h.off_dt_struct);
    lemma_holds_word(blob, 12, h.off_dt_strings);
    lemma_holds_word(blob, 16, h.off_mem_rsvmap);
    lemma_holds_word(blob, 20, h.version);
    lemma_holds_word(blob, 24, h.last_comp_version);
    lemma_holds_word(blob, 28, h.boot_cpuid_phys);
    lemma_holds_word(blob, 32, h.size_dt_strings);
    lemma_holds_word(blob, 36, h.size_dt_struct);
}

/// The blocks of the blob that a tree is written to have the sizes that
/// the plan gives, and the blob holds each of them at its offset.
pub proof fn lemma_image_parts(tree: TreeView)
    ensures
        ({
            let plan = plan_of(tree);
            let table = string_table(tree.root);
            let blob = dtb_image(tree);
            &&& plan.reservations >= 16
            &&& plan.structure >= 16
            &&& plan.strings >= 0
            &&& blob.len() == plan.totalsize()
            &&& holds(blob, 0, header_image(plan.header()))
            &&& holds(blob, 40, reservations_image(tree.memory_reservations, 0))
            &&& holds(blob, plan.off_dt_struct(), node_image(tree.root, table))
            &&& holds(blob, plan.off_dt_struct() + node_size(tree.root), be32_bytes(FDT_END))
            &&& holds(blob, plan.off_dt_strings(), strings_image(table, table.len() as int))
        }),
{
    let plan = plan_of(tree);
    let table = string_table(tree.root);
    let blob = dtb_image(tree);
    let head = header_image(plan.header());
    let rsv = reservations_image(tree.memory_reservations, 0);
    let tokens = struct_image(tree.root, table);
    let strings = strings_image(table, table.len() as int);
    lemma_reservations_len(tree.memory_reservations, 0);
    lemma_node_image_len(tree.root, table);
    crate::model::image::lemma_strings_len(table, table.len() as int);
    lemma_table_size(table, table, 0, table.len() as int);
    assert(head.len() == 40);
    lemma_holds_whole(blob, blob);
    lemma_holds_split(blob, 0, head + rsv + tokens, strings);
    lemma_holds_split(blob, 0, head + rsv, tokens);
    lemma_holds_split(blob, 0, head, rsv);
    lemma_holds_split(blob, plan.off_dt_struct(), node_image(tree.root, table), be32_bytes(FDT_END));
}

/// The numbers of the plan of a tree that fits are not negative and fit in
/// 32 bits, so the header holds them as they are.
pub proof fn lemma_plan_header(tree: TreeView)
    requires
        dtb_fits(tree),
    ensures
        ({
            let plan = plan_of(tree);
            let h = plan.header();
            &&& h.magic == FDT_MAGIC
            &&& h.version == FDT_VERSION
            &&& h.last_comp_version == FDT_LAST_COMP_VERSION
            &&& h.totalsize == plan.totalsize()
            &&& h.off_mem_rsvmap == 40
            &&& h.off_dt_struct == plan.off_dt_struct()
            &&& h.off_dt_strings == plan.off_dt_strings()
            &&& h.size_dt_struct == plan.structure
            &&& h.size_dt_strings == plan.strings
            &&& plan.reservations >= 16
            &&& plan.structure >= 16
            &&& plan.strings >= 0
            &&& aligned(plan.off_dt_struct())
        }),
{
    let table = string_table(tree.root);
    lemma_node_image_len(tree.root, table);
    lemma_table_size(table, table, 0, table.len() as int);
    assert(aligned(plan_of(tree).off_dt_struct())) by {
        reveal(aligned);
    }
}

/// A header whose blocks follow each other from offset 40 on and fill the
/// blob passes the header checks.
pub proof fn lemma_header_accepted(blob: Seq<u8>, reservations: int, structure: int, strings: int)
    requires
        header_of(blob).magic == FDT_MAGIC,
        header_of(blob).version == FDT_VERSION,
        header_of(blob).last_comp_version == FDT_LAST_COMP_VERSION,
        header_of(blob).off_mem_rsvmap == 40,
        header_of(blob).off_dt_struct == 40 + reservations,
        header_of(blob).off_dt_strings == 40 + reservations + structure,
        header_of(blob).totalsize == 40 + reservations + structure + strings,
        header_of(blob).size_dt_struct == structure,
        header_of(blob).size_dt_strings == strings,
        blob.len() == 40 + reservations + structure + strings,
        reservations >= 0,
        structure >= 0,
        strings >= 0,
        aligned(40 + reservations),
    ensures
        header_check(blob) is Ok,
{
    reveal(aligned);
}

/// The header of the blob that a tree is written to passes its checks
/// when the tree fits, and gives the blocks the offsets of the plan.
pub proof fn lemma_image_header(tree: TreeView)
    requires
        dtb_fits(tree),
    ensures
        header_check(dtb_image(tree)) is Ok,
        rsvmap_start(dtb_image(tree)) == 40,
        struct_start(dtb_image(tree)) == plan_of(tree).off_dt_struct(),
        struct_end(dtb_image(tree)) == plan_of(tree).off_dt_strings(),
        strings_start(dtb_image(tree)) == plan_of(tree).off_dt_strings(),
        strings_end(dtb_image(tree)) == plan_of(tree).totalsize(),
        aligned(plan_of(tree).off_dt_struct()),
{
    let plan = plan_of(tree);
    let blob = dtb_image(tree);
    lemma_image_parts(tree);
    lemma_plan_header(tree);
    lemma_header_read(blob, plan.header());
    lemma_header_accepted(blob, plan.reservations, plan.structure, plan.strings);
}

/// The blob that a readable tree is written to is framed by the string
/// table of the tree.
pub proof fn lemma_image_framed(tree: TreeView)
    requires
        dtb_fits(tree),
        clean_tree(tree.root),
    ensures
        framed(dtb_image(tree), string_table(tree.root)),
        node_ready(tree.root, string_table(tree.root)),
{
    let table = string_table(tree.root);
    lemma_image_parts(tree);
    lemma_image_header(tree);
    lemma_clean_names(tree.root, 0);
    lemma_clean_table(Seq::empty(), node_names(tree.root));
    crate::model::image::lemma_intern_all(Seq::empty(), node_names(tree.root));
    lemma_ready(tree.root, table);
    reveal(framed);
    reveal(aligned);
}

/// Reading back what was written.
///
/// The blob that a tree is written to passes all checks, and the tree
/// that it holds is the tree that was written: the same names, property
/// values, children and memory reservations, each in the same order. The
/// tree must fit in a blob, its names must be valid UTF-8 without zero
/// bytes, and none of its memory reservations may be the terminating
/// entry.
pub proof fn lemma_read_back(tree: TreeView)
    requires
        dtb_fits(tree),
        readable(tree),
    ensures
        blob_ok(dtb_image(tree)),
        blob_tree(dtb_image(tree)) == tree,
{
    let plan = plan_of(tree);
    let table = string_table(tree.root);
    let blob = dtb_image(tree);
    let start = plan.off_dt_struct();
    lemma_image_parts(tree);
    lemma_image_header(tree);
    lemma_image_framed(tree);
    lemma_node_image_len(tree.root, table);
    lemma_node_read(blob, table, tree.root, start, 0);
    // What follows the root node.
    lemma_holds_word(blob, start + node_size(tree.root), FDT_END);
    assert(finish(blob, start + node_size(tree.root)) is Ok);
    assert(has_root(blob));
    assert(structure_check(blob) is Ok);
    // The memory reservations.
    lemma_reservations_read(blob, tree.memory_reservations, 0, 40);
    assert(tree.memory_reservations.subrange(0, tree.memory_reservations.len() as int)
        =~= tree.memory_reservations);
    assert(is_node(blob, start));
}

/// Writing back what was read.
///
/// A blob that a readable tree was written to is written again, byte for
/// byte, from the tree that is read from it.
pub proof fn lemma_write_back(tree: TreeView)
    requires
        dtb_fits(tree),
        readable(tree),
    ensures
        dtb_image(blob_tree(dtb_image(tree))) == dtb_image(tree),
{
    lemma_read_back(tree);
}

/// Whether no name in the tree `node` holds a zero byte.
pub open spec fn zero_free_tree(node: NodeView) -> bool
    decreases node,
{
    &&& zero_free(node.name)
    &&& forall|k: int|
        0 <= k < node.properties.len() ==> zero_free((#[trigger] node.properties[k]).name)
    &&& forall|j: int|
        0 <= j < node.children.len() ==> zero_free_tree(#[trigger] node.children[j])
}

/// The names of an owned tree are valid UTF-8, so they are clean when
/// they hold no zero byte.
pub proof fn lemma_owned_clean(node: &DeviceTreeNode)
    requires
        zero_free_tree(node@),
    ensures
        clean_tree(node@),
    decreases node,
{
    node.lemma_view();
    vstd::utf8::encode_utf8_valid_utf8(node.name@);
    assert forall|k: int| 0 <= k < node@.properties.len() implies clean_text(
        (#[trigger] node@.properties[k]).name,
    ) by {
        node.properties@[k].lemma_view();
        vstd::utf8::encode_utf8_valid_utf8(node.properties@[k].name@);
    }
    assert forall|j: int| 0 <= j < node@.children.len() implies clean_tree(
        #[trigger] node@.children[j],
    ) by {
        vstd::std_specs::vec::axiom_vec_index_decreases(node.children, j);
        assert(node@.children[j] == node.children@[j]@);
        lemma_owned_clean(&node.children@[j]);
    }
}

/// Round-trip fidelity.
///
/// An owned tree is read back from the blob that it is written to: the
/// blob passes all checks, and the tree that it holds has the same names,
/// property values, children and memory reservations as the tree that was
/// written, each in the same order. The tree must fit in a blob, no name
/// in it may hold a zero byte, and none of its memory reservations may be
/// the terminating entry.
pub proof fn lemma_round_trip(tree: &DeviceTree)
    requires
        dtb_fits(tree@),
        zero_free_tree(tree@.root),
        forall|i: int|
            0 <= i < tree@.memory_reservations.len() ==> !(
            #[trigger] tree@.memory_reservations[i]).is_terminator(),
    ensures
        blob_ok(dtb_image(tree@)),
        blob_tree(dtb_image(tree@)) == tree@,
        dtb_image(blob_tree(dtb_image(tree@))) == dtb_image(tree@),
{
    lemma_owned_clean(&tree.root);
    lemma_read_back(tree@);
}

} // verus!
