//! The tree that a well-formed structure block describes.
//!
//! A node is identified by the offset of its `BEGIN_NODE` token. This
//! module says, for such an offset, what the node's name is, where its
//! properties and children are, and what tree hangs below it.

use vstd::prelude::*;

use crate::codec::{be32, padding, read_u32_be};
use crate::error::FdtParseError;
use crate::fdt::header::{strings_end, struct_end};
use crate::fdt::structure::{
    lemma_scan_step, node_body, prop_check, prop_len, prop_name_start, prop_next, read_word, scan,
    scan_step, FDT_BEGIN_NODE, FDT_END_NODE, FDT_NOP, FDT_PROP, Layout, Stride, Walk,
};
use crate::text::{cstr_bytes, cstr_ok, find_nul_in, lemma_find_nul};

verus! {

/// A property as the tree holds it: a name and a value.
pub struct PropertyView {
    /// The UTF-8 bytes of the name of the property.
    pub name: Seq<u8>,
    /// The bytes of its value.
    pub value: Seq<u8>,
}

/// A node as the tree holds it: a name, properties and children, each in
/// order.
pub struct NodeView {
    /// The UTF-8 bytes of the name of the node.
    pub name: Seq<u8>,
    /// The properties of the node.
    pub properties: Seq<PropertyView>,
    /// The children of the node.
    pub children: Seq<NodeView>,
}

/// Whether a well-formed node starts at `off`: a `BEGIN_NODE` token stands
/// there, and the walk over its subtree succeeds.
pub open spec fn is_node(blob: Seq<u8>, off: int) -> bool {
    &&& 0 <= off
    &&& off + 4 <= struct_end(blob)
    &&& be32(blob, off) == FDT_BEGIN_NODE
    &&& scan(blob, off, 0) is Ok
}

/// Whether the items from `cur` to the end of the enclosing node are well
/// formed.
pub open spec fn items_ok(blob: Seq<u8>, cur: int) -> bool {
    scan(blob, cur, 1) is Ok
}

/// The offset just after the `END_NODE` token of the node at `off`.
pub open spec fn subtree_end(blob: Seq<u8>, off: int) -> int {
    scan(blob, off, 0)->Ok_0
}

/// The UTF-8 bytes of the name of the node at `off`.
pub open spec fn node_name(blob: Seq<u8>, off: int) -> Seq<u8> {
    cstr_bytes(blob, off + 4, struct_end(blob))
}

/// The property whose `PROP` token is at `off`.
pub open spec fn prop_at(blob: Seq<u8>, off: int) -> PropertyView {
    PropertyView {
        name: cstr_bytes(blob, prop_name_start(blob, off), strings_end(blob)),
        value: blob.subrange(off + 12, off + 12 + prop_len(blob, off)),
    }
}

/// The offsets of the `PROP` tokens that a node's property iteration
/// meets from `cur`: `NOP` tokens are skipped, and the first token that is
/// neither ends the list.
pub open spec fn props_from(blob: Seq<u8>, cur: int) -> Seq<int>
    decreases struct_end(blob) - cur,
{
    if cur < 0 || cur + 4 > struct_end(blob) {
        Seq::empty()
    } else if be32(blob, cur) == FDT_PROP && prop_check(blob, cur) is Ok {
        seq![cur] + props_from(blob, prop_next(blob, cur))
    } else if be32(blob, cur) == FDT_NOP {
        props_from(blob, cur + 4)
    } else {
        Seq::empty()
    }
}

/// The offsets of the child nodes that a node's child iteration meets from
/// `cur`: properties and `NOP` tokens are skipped, each child's whole
/// subtree is stepped over, and the first token of another kind ends the
/// list.
pub open spec fn children_from(blob: Seq<u8>, cur: int) -> Seq<int>
    decreases struct_end(blob) - cur,
{
    if cur < 0 || cur + 4 > struct_end(blob) {
        Seq::empty()
    } else if be32(blob, cur) == FDT_BEGIN_NODE {
        match scan(blob, cur, 0) {
            Ok(after) => {
                proof {
                    lemma_scan_bounds(blob, cur, 0);
                }
                seq![cur] + children_from(blob, after)
            },
            Err(_) => Seq::empty(),
        }
    } else if be32(blob, cur) == FDT_PROP && prop_check(blob, cur) is Ok {
        children_from(blob, prop_next(blob, cur))
    } else if be32(blob, cur) == FDT_NOP {
        children_from(blob, cur + 4)
    } else {
        Seq::empty()
    }
}

/// The properties of the node at `off`, in order.
pub open spec fn node_properties(blob: Seq<u8>, off: int) -> Seq<PropertyView> {
    let offsets = props_from(blob, node_body(blob, off));
    Seq::new(offsets.len(), |i: int| prop_at(blob, offsets[i]))
}

/// The offsets of the children of the node at `off`, in order.
pub open spec fn node_children(blob: Seq<u8>, off: int) -> Seq<int> {
    children_from(blob, node_body(blob, off))
}

/// The tree below the node at `off`.
pub open spec fn tree_at(blob: Seq<u8>, off: int) -> NodeView
    decreases struct_end(blob) - off, 0nat,
{
    NodeView {
        name: node_name(blob, off),
        properties: node_properties(blob, off),
        children: if off < node_body(blob, off) <= struct_end(blob) {
            forest_from(blob, node_body(blob, off))
        } else {
            Seq::empty()
        },
    }
}

/// The trees below the children that [`children_from`] lists from `cur`.
pub open spec fn forest_from(blob: Seq<u8>, cur: int) -> Seq<NodeView>
    decreases struct_end(blob) - cur, 1nat,
{
    if cur < 0 || cur + 4 > struct_end(blob) {
        Seq::empty()
    } else if be32(blob, cur) == FDT_BEGIN_NODE {
        match scan(blob, cur, 0) {
            Ok(after) => {
                proof {
                    lemma_scan_bounds(blob, cur, 0);
                }
                seq![tree_at(blob, cur)] + forest_from(blob, after)
            },
            Err(_) => Seq::empty(),
        }
    } else if be32(blob, cur) == FDT_PROP && prop_check(blob, cur) is Ok {
        forest_from(blob, prop_next(blob, cur))
    } else if be32(blob, cur) == FDT_NOP {
        forest_from(blob, cur + 4)
    } else {
        Seq::empty()
    }
}

/// A walk that succeeds ends behind where it started, inside the structure
/// block.
pub proof fn lemma_scan_bounds(blob: Seq<u8>, off: int, depth: nat)
    ensures
        scan(blob, off, depth) matches Ok(after) ==> off + 4 <= after <= struct_end(blob),
    decreases struct_end(blob) - off,
{
    lemma_scan_step(blob, off, depth);
    match scan_step(blob, off, depth) {
        Ok(Walk::Next { off: next, depth: d }) => {
            lemma_scan_bounds(blob, next, d);
        },
        _ => {},
    }
}

/// A walk with `depth + more` nodes open is the walk with `depth` nodes
/// open, followed by the walk with `more` nodes open from where that one
/// ended.
pub proof fn lemma_scan_split(blob: Seq<u8>, off: int, depth: nat, more: nat)
    requires
        depth >= 1,
        more >= 1,
    ensures
        scan(blob, off, depth + more) == match scan(blob, off, depth) {
            Ok(after) => scan(blob, after, more),
            Err(e) => Err(e),
        },
    decreases struct_end(blob) - off,
{
    reveal(scan_step);
    lemma_scan_step(blob, off, depth);
    match scan_step(blob, off, depth) {
        Ok(Walk::Next { off: next, depth: d }) => {
            lemma_scan_split(blob, next, d, more);
        },
        _ => {},
    }
}

/// The first item of a well-formed node is where its items start, and the
/// items are well formed.
pub proof fn lemma_node_items(blob: Seq<u8>, off: int)
    requires
        is_node(blob, off),
    ensures
        items_ok(blob, node_body(blob, off)),
        off + 4 < node_body(blob, off) <= struct_end(blob),
        cstr_ok(blob, off + 4, struct_end(blob)),
        subtree_end(blob, off) == scan(blob, node_body(blob, off), 1)->Ok_0,
{
    reveal(scan_step);
    lemma_find_nul(blob, off + 4, struct_end(blob));
}

/// What the token at `cur` is when the items from `cur` are well formed,
/// and what follows it.
pub proof fn lemma_items_step(blob: Seq<u8>, cur: int)
    requires
        items_ok(blob, cur),
    ensures
        0 <= cur,
        cur + 4 <= struct_end(blob),
        be32(blob, cur) == FDT_BEGIN_NODE || be32(blob, cur) == FDT_END_NODE || be32(blob, cur)
            == FDT_PROP || be32(blob, cur) == FDT_NOP,
        be32(blob, cur) == FDT_BEGIN_NODE ==> is_node(blob, cur) && items_ok(
            blob,
            subtree_end(blob, cur),
        ) && cur + 4 <= subtree_end(blob, cur) <= struct_end(blob),
        be32(blob, cur) == FDT_PROP ==> prop_check(blob, cur) is Ok && items_ok(
            blob,
            prop_next(blob, cur),
        ) && cur + 12 <= prop_next(blob, cur) <= struct_end(blob),
        be32(blob, cur) == FDT_NOP ==> items_ok(blob, cur + 4),
{
    reveal(scan_step);
    lemma_scan_step(blob, cur, 1);
    if be32(blob, cur) == FDT_BEGIN_NODE {
        let body = node_body(blob, cur);
        lemma_scan_split(blob, body, 1, 1);
        lemma_scan_bounds(blob, cur, 0);
    }
}

/// The children that the walk lists lie behind the cursor, and each is a
/// well-formed node.
pub proof fn lemma_children_from(blob: Seq<u8>, cur: int)
    requires
        items_ok(blob, cur),
    ensures
        forall|i: int|
            0 <= i < children_from(blob, cur).len() ==> cur <= #[trigger] children_from(
                blob,
                cur,
            )[i] && is_node(blob, children_from(blob, cur)[i]),
        forest_from(blob, cur).len() == children_from(blob, cur).len(),
        forall|i: int|
            0 <= i < children_from(blob, cur).len() ==> #[trigger] forest_from(blob, cur)[i]
                == tree_at(blob, children_from(blob, cur)[i]),
    decreases struct_end(blob) - cur,
{
    lemma_items_step(blob, cur);
    let word = be32(blob, cur);
    if word == FDT_BEGIN_NODE {
        lemma_children_from(blob, subtree_end(blob, cur));
    } else if word == FDT_PROP {
        lemma_children_from(blob, prop_next(blob, cur));
    } else if word == FDT_NOP {
        lemma_children_from(blob, cur + 4);
    }
}

/// The children of a well-formed node lie behind it, each is a
/// well-formed node, and the tree below the node holds their trees.
pub proof fn lemma_node_children(blob: Seq<u8>, off: int)
    requires
        is_node(blob, off),
    ensures
        forall|i: int|
            0 <= i < node_children(blob, off).len() ==> off < #[trigger] node_children(
                blob,
                off,
            )[i] && is_node(blob, node_children(blob, off)[i]),
        tree_at(blob, off).children.len() == node_children(blob, off).len(),
        forall|i: int|
            0 <= i < node_children(blob, off).len() ==> #[trigger] tree_at(blob, off).children[i]
                == tree_at(blob, node_children(blob, off)[i]),
{
    lemma_node_items(blob, off);
    lemma_children_from(blob, node_body(blob, off));
}

/// Moves over the token at `off` of a well-formed stream without checking
/// it again.
pub fn skip_step(data: &[u8], lay: &Layout, off: usize, depth: usize) -> (r: Stride)
    requires
        lay.matches(data@),
        scan_step(data@, off as int, depth as nat) is Ok,
        depth < usize::MAX,
    ensures
        scan_step(data@, off as int, depth as nat) == Ok::<Walk, FdtParseError>(r@),
{
    proof {
        reveal(scan_step);
    }
    let word = match read_word(data, lay, off) {
        Ok(w) => w,
        Err(_) => 0,
    };
    if word == FDT_BEGIN_NODE {
        let nul = find_nul_in(data, off + 4, lay.struct_end);
        let pad = padding(nul + 1);
        Stride::Next { off: nul + 1 + pad, depth: depth + 1 }
    } else if word == FDT_END_NODE {
        if depth == 1 {
            Stride::Done { after: off + 4 }
        } else {
            Stride::Next { off: off + 4, depth: depth - 1 }
        }
    } else if word == FDT_PROP {
        Stride::Next { off: skip_prop(data, lay, off), depth }
    } else {
        Stride::Next { off: off + 4, depth }
    }
}

/// Returns the offset of the token that follows the well-formed property
/// at `off`.
pub fn skip_prop(data: &[u8], lay: &Layout, off: usize) -> (r: usize)
    requires
        lay.matches(data@),
        off + 4 <= lay.struct_end,
        prop_check(data@, off as int) is Ok,
    ensures
        r == prop_next(data@, off as int),
        off + 12 <= r <= lay.struct_end,
{
    let len = match read_u32_be(data, off + 4) {
        Ok(v) => v as usize,
        Err(_) => 0,
    };
    let value_end = off + 12 + len;
    value_end + padding(value_end)
}

/// Returns the offset just after the subtree of the well-formed node at
/// `off`: the offset of its next sibling, if it has one.
pub fn next_sibling_offset(data: &[u8], lay: &Layout, off: usize) -> (r: usize)
    requires
        lay.matches(data@),
        is_node(data@, off as int),
    ensures
        r == subtree_end(data@, off as int),
        off + 4 <= r <= lay.struct_end,
{
    let mut cur: usize = off;
    let mut open: usize = 0;
    proof {
        lemma_scan_bounds(data@, off as int, 0);
    }
    loop
        invariant
            lay.matches(data@),
            off <= cur,
            open * 4 <= cur - off,
            scan(data@, off as int, 0) is Ok,
            scan(data@, off as int, 0) == scan(data@, cur as int, open as nat),
            off + 4 <= subtree_end(data@, off as int) <= lay.struct_end,
        decreases lay.struct_end + 4 - cur,
    {
        proof {
            lemma_scan_step(data@, cur as int, open as nat);
        }
        match skip_step(data, lay, cur, open) {
            Stride::Done { after } => {
                return after;
            },
            Stride::Next { off: next, depth: d } => {
                cur = next;
                open = d;
            },
        }
    }
}

/// Whether `offsets` are the machine integers of `places`.
pub open spec fn offsets_are(offsets: Seq<usize>, places: Seq<int>) -> bool {
    offsets.len() == places.len() && forall|i: int|
        0 <= i < offsets.len() ==> #[trigger] offsets[i] as int == places[i]
}

/// Collects the offsets of the properties that the property iteration
/// meets from `body`, as [`props_from`] lists them.
pub fn collect_props(data: &[u8], lay: &Layout, body: usize) -> (r: Vec<usize>)
    requires
        lay.matches(data@),
        items_ok(data@, body as int),
    ensures
        offsets_are(r@, props_from(data@, body as int)),
        forall|i: int|
            0 <= i < r@.len() ==> #[trigger] r@[i] + 4 <= lay.struct_end && prop_check(
                data@,
                r@[i] as int,
            ) is Ok,
{
    let mut out: Vec<usize> = Vec::new();
    let mut cur: usize = body;
    let ghost places: Seq<int> = Seq::empty();
    assert(places + props_from(data@, cur as int) =~= props_from(data@, body as int));
    loop
        invariant
            lay.matches(data@),
            items_ok(data@, cur as int),
            places + props_from(data@, cur as int) == props_from(data@, body as int),
            offsets_are(out@, places),
            forall|i: int|
                0 <= i < out@.len() ==> #[trigger] out@[i] + 4 <= lay.struct_end && prop_check(
                    data@,
                    out@[i] as int,
                ) is Ok,
        decreases lay.struct_end + 4 - cur,
    {
        proof {
            lemma_items_step(data@, cur as int);
        }
        let word = match read_word(data, lay, cur) {
            Ok(w) => w,
            Err(_) => 0,
        };
        if word == FDT_PROP {
            let next = skip_prop(data, lay, cur);
            proof {
                let rest = props_from(data@, next as int);
                assert(places + (seq![cur as int] + rest) =~= places.push(cur as int) + rest);
                places = places.push(cur as int);
            }
            out.push(cur);
            cur = next;
        } else if word == FDT_NOP {
            cur = cur + 4;
        } else {
            proof {
                assert(places + Seq::<int>::empty() =~= places);
            }
            return out;
        }
    }
}

/// Collects the offsets of the children that the child iteration meets
/// from `body`, as [`children_from`] lists them.
pub fn collect_children(data: &[u8], lay: &Layout, body: usize) -> (r: Vec<usize>)
    requires
        lay.matches(data@),
        items_ok(data@, body as int),
    ensures
        offsets_are(r@, children_from(data@, body as int)),
        forall|i: int| 0 <= i < r@.len() ==> is_node(data@, #[trigger] r@[i] as int),
{
    let mut out: Vec<usize> = Vec::new();
    let mut cur: usize = body;
    let ghost places: Seq<int> = Seq::empty();
    assert(places + children_from(data@, cur as int) =~= children_from(data@, body as int));
    loop
        invariant
            lay.matches(data@),
            items_ok(data@, cur as int),
            places + children_from(data@, cur as int) == children_from(data@, body as int),
            offsets_are(out@, places),
            forall|i: int| 0 <= i < out@.len() ==> is_node(data@, #[trigger] out@[i] as int),
        decreases lay.struct_end + 4 - cur,
    {
        proof {
            lemma_items_step(data@, cur as int);
        }
        let word = match read_word(data, lay, cur) {
            Ok(w) => w,
            Err(_) => 0,
        };
        if word == FDT_BEGIN_NODE {
            let next = next_sibling_offset(data, lay, cur);
            proof {
                let rest = children_from(data@, next as int);
                assert(places + (seq![cur as int] + rest) =~= places.push(cur as int) + rest);
                places = places.push(cur as int);
            }
            out.push(cur);
            cur = next;
        } else if word == FDT_PROP {
            cur = skip_prop(data, lay, cur);
        } else if word == FDT_NOP {
            cur = cur + 4;
        } else {
            proof {
                assert(places + Seq::<int>::empty() =~= places);
            }
            return out;
        }
    }
}

} // verus!
