//! An owned device tree.

use vstd::prelude::*;
use vstd::slice::slice_subrange;
use vstd::string::StringSliceAdditionalSpecFns;

use crate::fdt::Fdt;
use crate::fdt::header::{rsvmap_start, struct_start};
use crate::fdt::node::{subtree_at, FdtNode};
use crate::fdt::tree::NodeView;
use crate::memreserve::{reservations_from, MemoryReservation};
use crate::model::node::{child_index, DeviceTreeNode};
use crate::node::{is_segment, PATH_SEPARATOR};
use crate::text::{find_byte, find_byte_in, lemma_find_byte};

verus! {

/// A device tree as a value: the tree below its root, and its memory
/// reservations.
pub struct TreeView {
    /// The tree below the root node.
    pub root: NodeView,
    /// The memory reservations, in order.
    pub memory_reservations: Seq<MemoryReservation>,
}

/// The device tree that the well-formed blob `blob` holds.
pub open spec fn blob_tree(blob: Seq<u8>) -> TreeView {
    TreeView {
        root: subtree_at(blob, struct_start(blob)),
        memory_reservations: reservations_from(blob, rsvmap_start(blob)),
    }
}

/// The way from `node` to the node that the rest of `path` from byte index
/// `from` names, as the index of the child to take at each step.
///
/// The path is cut at each `/`; empty segments are passed over, and every
/// other segment must be the whole name of a child of the node reached so
/// far. There is no way when a segment names no child.
pub open spec fn descend(node: NodeView, path: Seq<u8>, from: int) -> Option<Seq<int>>
    decreases path.len() - from,
{
    let end = find_byte(path, PATH_SEPARATOR, from, path.len() as int);
    if from < 0 || from >= path.len() {
        Some(Seq::empty())
    } else if end == from {
        descend(node, path, from + 1)
    } else {
        proof {
            lemma_find_byte(path, PATH_SEPARATOR, from, path.len() as int);
        }
        let i = child_index(node.children, path.subrange(from, end), 0);
        if i < node.children.len() {
            match descend(node.children[i], path, end) {
                Some(way) => Some(seq![i] + way),
                None => None,
            }
        } else {
            None
        }
    }
}

/// The way from `root` to the node that `path` names: the path must begin
/// with `/`.
pub open spec fn way_to(root: NodeView, path: Seq<u8>) -> Option<Seq<int>> {
    if path.len() == 0 || path[0] != PATH_SEPARATOR {
        None
    } else {
        descend(root, path, 1)
    }
}

/// The node that the way `way` leads to from `node`.
pub open spec fn node_at(node: NodeView, way: Seq<int>) -> NodeView
    decreases way.len(),
{
    if way.len() == 0 {
        node
    } else {
        node_at(node.children[way[0]], way.drop_first())
    }
}

/// The tree `node` with `new` in the place of the node that the way `way`
/// leads to.
pub open spec fn replaced(node: NodeView, way: Seq<int>, new: NodeView) -> NodeView
    decreases way.len(),
{
    if way.len() == 0 {
        new
    } else {
        NodeView {
            name: node.name,
            properties: node.properties,
            children: node.children.update(
                way[0],
                replaced(node.children[way[0]], way.drop_first(), new),
            ),
        }
    }
}

/// A mutable, in-memory representation of a device tree.
///
/// This struct provides a high-level API for creating and modifying a device
/// tree. It can be created from scratch or by parsing an existing FDT blob.
#[derive(Debug, Clone, PartialEq, Eq)]
#[non_exhaustive]
pub struct DeviceTree {
    /// The root node for this device tree.
    pub root: DeviceTreeNode,
    /// The memory reservations for this device tree.
    pub memory_reservations: Vec<MemoryReservation>,
}

impl View for DeviceTree {
    type V = TreeView;

    /// The tree below the root and the memory reservations.
    open spec fn view(&self) -> TreeView {
        TreeView { root: self.root@, memory_reservations: self.memory_reservations@ }
    }
}

/// Finds the node that the rest of `path` names below `node`.
fn find_from<'t>(node: &'t DeviceTreeNode, path: &[u8], from: usize) -> (r: Option<
    &'t DeviceTreeNode,
>)
    ensures
        match r {
            Some(n) => descend(node@, path@, from as int) is Some && n@ == node_at(
                node@,
                descend(node@, path@, from as int)->0,
            ),
            None => descend(node@, path@, from as int) is None,
        },
    decreases path@.len() - from,
{
    let n = path.len();
    if from >= n {
        return Some(node);
    }
    let end = find_byte_in(path, PATH_SEPARATOR, from, n);
    if end == from {
        return find_from(node, path, from + 1);
    }
    match node.child_named(slice_subrange(path, from, end)) {
        Some(c) => {
            let r = find_from(c, path, end);
            proof {
                let i = child_index(node@.children, path@.subrange(from as int, end as int), 0);
                if r is Some {
                    let way = descend(c@, path@, end as int)->0;
                    assert((seq![i] + way).drop_first() =~= way);
                }
            }
            r
        },
        None => None,
    }
}

/// Finds the node that the rest of `path` names below `node`, for changing
/// it.
fn find_from_mut<'t>(node: &'t mut DeviceTreeNode, path: &[u8], from: usize) -> (r: Option<
    &'t mut DeviceTreeNode,
>)
    ensures
        match r {
            Some(n) => {
                let way = descend(old(node)@, path@, from as int);
                &&& way is Some
                &&& n@ == node_at(old(node)@, way->0)
                &&& final(node)@ == replaced(old(node)@, way->0, final(n)@)
            },
            None => descend(old(node)@, path@, from as int) is None && final(node)@ == old(node)@,
        },
    decreases path@.len() - from,
{
    let n = path.len();
    if from >= n {
        return Some(node);
    }
    let end = find_byte_in(path, PATH_SEPARATOR, from, n);
    if end == from {
        return find_from_mut(node, path, from + 1);
    }
    let ghost before = node@;
    let ghost i = child_index(before.children, path@.subrange(from as int, end as int), 0);
    match node.child_named_mut(slice_subrange(path, from, end)) {
        Some(c) => {
            let ghost child = c@;
            proof {
                crate::model::node::lemma_child_index(
                    before.children,
                    path@.subrange(from as int, end as int),
                    0,
                );
                assert(child == before.children[i]);
            }
            let r = find_from_mut(c, path, end);
            proof {
                if r is Some {
                    let way = descend(child, path@, end as int)->0;
                    assert((seq![i] + way).drop_first() =~= way);
                } else {
                    assert(before.children.update(i, child) =~= before.children);
                }
            }
            r
        },
        None => None,
    }
}

impl DeviceTree {
    /// Creates a new `DeviceTree`: a root node with the empty name, without
    /// properties, children or memory reservations.
    pub fn new() -> (r: DeviceTree)
        ensures
            r@ == (TreeView {
                root: NodeView {
                    name: Seq::empty(),
                    properties: Seq::empty(),
                    children: Seq::empty(),
                },
                memory_reservations: Seq::empty(),
            }),
    {
        proof {
            reveal_strlit("");
            assert("".spec_bytes() =~= Seq::<u8>::empty());
        }
        DeviceTree { root: DeviceTreeNode::new(""), memory_reservations: Vec::new() }
    }

    /// Creates a new `DeviceTree` from a `Fdt`, by copying names, property
    /// values, children and memory reservations.
    pub fn from_fdt(fdt: &Fdt<'_>) -> (r: DeviceTree)
        ensures
            r@ == blob_tree(fdt@),
    {
        let root_view = fdt.root();
        proof {
            FdtNode::lemma_root_of(*fdt);
        }
        let root = DeviceTreeNode::from_fdt(&root_view);
        let memory_reservations = fdt.memory_reservations();
        DeviceTree { root, memory_reservations }
    }

    /// Finds a node by its path.
    ///
    /// The path must begin with `/`, and `/` alone names the root. Every
    /// segment must be the whole name of a child; empty segments are
    /// passed over. Returns `None` when the path names no node.
    pub fn find_node(&self, path: &str) -> (r: Option<&DeviceTreeNode>)
        ensures
            match r {
                Some(n) => way_to(self@.root, path.spec_bytes()) is Some && n@ == node_at(
                    self@.root,
                    way_to(self@.root, path.spec_bytes())->0,
                ),
                None => way_to(self@.root, path.spec_bytes()) is None,
            },
    {
        let bytes = path.as_bytes();
        if bytes.len() == 0 || bytes[0] != PATH_SEPARATOR {
            return None;
        }
        find_from(&self.root, bytes, 1)
    }

    /// Finds a node by its path and returns a mutable reference to it.
    ///
    /// The path is read as [`DeviceTree::find_node`] reads it. What the
    /// caller makes of the node takes its place in the tree; nothing else
    /// of the tree changes.
    pub fn find_node_mut(&mut self, path: &str) -> (r: Option<&mut DeviceTreeNode>)
        ensures
            match r {
                Some(n) => {
                    let way = way_to(old(self)@.root, path.spec_bytes());
                    &&& way is Some
                    &&& n@ == node_at(old(self)@.root, way->0)
                    &&& final(self)@ == (TreeView {
                        root: replaced(old(self)@.root, way->0, final(n)@),
                        memory_reservations: old(self)@.memory_reservations,
                    })
                },
                None => way_to(old(self)@.root, path.spec_bytes()) is None && final(self)@ == old(
                    self,
                )@,
            },
    {
        let bytes = path.as_bytes();
        if bytes.len() == 0 || bytes[0] != PATH_SEPARATOR {
            return None;
        }
        find_from_mut(&mut self.root, bytes, 1)
    }
}

impl Default for DeviceTree {
    fn default() -> (r: DeviceTree)
        ensures
            r@ == (TreeView {
                root: NodeView {
                    name: Seq::empty(),
                    properties: Seq::empty(),
                    children: Seq::empty(),
                },
                memory_reservations: Seq::empty(),
            }),
    {
        DeviceTree::new()
    }
}

/// Whether `way` is a way through the tree `node` that a path can
/// describe: each step takes a child of the node reached so far, whose
/// name can stand as a segment and is the name of no earlier child.
pub open spec fn walkable(node: NodeView, way: Seq<int>) -> bool
    decreases way.len(),
{
    way.len() > 0 ==> {
        &&& 0 <= way[0] < node.children.len()
        &&& is_segment(node.children[way[0]].name)
        &&& forall|j: int|
            0 <= j < way[0] ==> (#[trigger] node.children[j]).name != node.children[way[0]].name
        &&& walkable(node.children[way[0]], way.drop_first())
    }
}

/// The segments of the path along `way`, each with a `/` before it.
pub open spec fn segments_along(node: NodeView, way: Seq<int>) -> Seq<u8>
    decreases way.len(),
{
    if way.len() == 0 {
        Seq::empty()
    } else {
        seq![PATH_SEPARATOR] + node.children[way[0]].name + segments_along(
            node.children[way[0]],
            way.drop_first(),
        )
    }
}

/// The path of the node that `way` leads to from `root`: `/` for the root
/// itself, and otherwise the names of the nodes on the way, each with a
/// `/` before it.
pub open spec fn path_along(root: NodeView, way: Seq<int>) -> Seq<u8> {
    if way.len() == 0 {
        seq![PATH_SEPARATOR]
    } else {
        segments_along(root, way)
    }
}

/// The segments along a way are found again, whatever the path holds
/// before them.
pub proof fn lemma_descend_along(node: NodeView, way: Seq<int>, before: Seq<u8>)
    requires
        walkable(node, way),
    ensures
        descend(node, before + segments_along(node, way), before.len() as int) == Some(way),
    decreases way.len(),
{
    let path = before + segments_along(node, way);
    let from = before.len() as int;
    if way.len() == 0 {
        assert(path =~= before);
    } else {
        let child = node.children[way[0]];
        let name = child.name;
        let rest = segments_along(child, way.drop_first());
        let start = from + 1;
        let end = start + name.len();
        let limit = path.len() as int;
        assert(path =~= before + seq![PATH_SEPARATOR] + name + rest);
        assert(path[from] == PATH_SEPARATOR);
        crate::text::lemma_find_byte_is(path, PATH_SEPARATOR, from, from, limit);
        // The segment ends at the next separator, or at the end of the path.
        assert forall|i: int| start <= i < end implies path[i] != PATH_SEPARATOR by {
            assert(path[i] == name[i - start]);
        }
        if way.len() > 1 {
            assert(rest[0] == PATH_SEPARATOR);
            assert(path[end] == rest[0]);
        } else {
            assert(rest =~= Seq::<u8>::empty());
        }
        crate::text::lemma_find_byte_is(path, PATH_SEPARATOR, start, end, limit);
        assert(path.subrange(start, end) =~= name);
        crate::model::node::lemma_child_index(node.children, name, 0);
        let i = child_index(node.children, name, 0);
        assert(i == way[0]) by {
            if i < way[0] {
                assert(node.children[i].name == name);
            }
        }
        let longer = before + seq![PATH_SEPARATOR] + name;
        assert(longer + rest =~= path);
        lemma_descend_along(child, way.drop_first(), longer);
        assert(seq![way[0]] + way.drop_first() =~= way);
        assert(descend(node, path, start) == Some(way));
    }
}

/// Path lookup finds what a walk of the tree names.
///
/// The path along a way through the tree leads back to the node at the
/// end of that way, when the names on the way can stand as segments and
/// each is the name of no earlier sibling.
pub proof fn lemma_path_found(root: NodeView, way: Seq<int>)
    requires
        walkable(root, way),
    ensures
        way_to(root, path_along(root, way)) == Some(way),
{
    if way.len() > 0 {
        lemma_descend_along(root, way, Seq::empty());
        let path = segments_along(root, way);
        assert(Seq::<u8>::empty() + path =~= path);
        assert(path[0] == PATH_SEPARATOR);
        crate::text::lemma_find_byte_is(path, PATH_SEPARATOR, 0, 0, path.len() as int);
    } else {
        assert(way =~= Seq::<int>::empty());
    }
}

/// In a tree without siblings of the same name, every way whose names can
/// stand as segments is one that a path can describe.
pub proof fn lemma_unique_walkable(node: NodeView, way: Seq<int>)
    requires
        crate::model::node::unique_siblings(node),
        named_way(node, way),
    ensures
        walkable(node, way),
    decreases way.len(),
{
    if way.len() > 0 {
        lemma_unique_walkable(node.children[way[0]], way.drop_first());
    }
}

/// Whether `way` is a way through the tree `node` on which every name can
/// stand as a segment of a path.
pub open spec fn named_way(node: NodeView, way: Seq<int>) -> bool
    decreases way.len(),
{
    way.len() > 0 ==> {
        &&& 0 <= way[0] < node.children.len()
        &&& is_segment(node.children[way[0]].name)
        &&& named_way(node.children[way[0]], way.drop_first())
    }
}

} // verus!
