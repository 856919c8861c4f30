//! An owned node of a device tree.

use vstd::prelude::*;
use vstd::string::StringSliceAdditionalSpecFns;
use vstd::utf8::encode_utf8;

use crate::fdt::header::struct_end;
use crate::fdt::node::{subtree_at, FdtNode};
use crate::fdt::tree::{lemma_node_children, NodeView, PropertyView};
use crate::model::property::DeviceTreeProperty;
use crate::node::{first_named, models, Node};
use crate::property::Property;
use crate::text::{bytes_eq, str_eq};

verus! {

/// The least index at or after `from` of a node named exactly `name`, or
/// the length of `children` when there is none.
pub open spec fn child_index(children: Seq<NodeView>, name: Seq<u8>, from: int) -> int
    decreases children.len() - from,
{
    if from < 0 || from >= children.len() {
        children.len() as int
    } else if children[from].name == name {
        from
    } else {
        child_index(children, name, from + 1)
    }
}

/// The children after `node` was added: it takes the place of the child of
/// the same name, if there is one, and else it becomes the last child.
pub open spec fn with_child(children: Seq<NodeView>, node: NodeView) -> Seq<NodeView> {
    let i = child_index(children, node.name, 0);
    if i < children.len() {
        children.update(i, node)
    } else {
        children.push(node)
    }
}

/// Whether no two of `children` have the same name.
pub open spec fn unique_names(children: Seq<NodeView>) -> bool {
    forall|i: int, j: int|
        0 <= i < j < children.len() ==> (#[trigger] children[i]).name != (
        #[trigger] children[j]).name
}

/// Whether no two siblings anywhere in the tree `node` have the same name.
pub open spec fn unique_siblings(node: NodeView) -> bool
    decreases node,
{
    &&& unique_names(node.children)
    &&& forall|i: int|
        0 <= i < node.children.len() ==> unique_siblings(#[trigger] node.children[i])
}

/// [`child_index`] returns an index between `from` and the length; no
/// child before it has the name, and the child at it has.
pub proof fn lemma_child_index(children: Seq<NodeView>, name: Seq<u8>, from: int)
    requires
        0 <= from <= children.len(),
    ensures
        from <= child_index(children, name, from) <= children.len(),
        forall|i: int| from <= i < child_index(children, name, from) ==> children[i].name != name,
        child_index(children, name, from) < children.len() ==> children[child_index(
            children,
            name,
            from,
        )].name == name,
    decreases children.len() - from,
{
    if from < children.len() && children[from].name != name {
        lemma_child_index(children, name, from + 1);
    }
}

/// Adding a child keeps the names of the children distinct.
pub proof fn lemma_with_child_unique(children: Seq<NodeView>, node: NodeView)
    requires
        unique_names(children),
    ensures
        unique_names(with_child(children, node)),
{
    lemma_child_index(children, node.name, 0);
    let i = child_index(children, node.name, 0);
    let after = with_child(children, node);
    assert forall|a: int, b: int| 0 <= a < b < after.len() implies (#[trigger] after[a]).name != (
    #[trigger] after[b]).name by {
        if i < children.len() {
            if a != i && b != i {
                assert(children[a].name != children[b].name);
            } else if a == i {
                assert(children[i].name != children[b].name);
            } else {
                assert(children[a].name != children[i].name);
            }
        } else {
            if b < children.len() {
                assert(children[a].name != children[b].name);
            }
        }
    }
}

/// A mutable, in-memory representation of a device tree node.
///
/// Children and properties are stored in the order in which they were
/// added.
#[derive(Debug, PartialEq, Eq)]
pub struct DeviceTreeNode {
    pub(crate) name: String,
    pub(crate) properties: Vec<DeviceTreeProperty>,
    pub(crate) children: Vec<DeviceTreeNode>,
}

/// The views of the properties in `props`.
pub open spec fn property_views(props: Seq<DeviceTreeProperty>) -> Seq<PropertyView> {
    Seq::new(props.len(), |i: int| props[i]@)
}

/// The views of the nodes in `nodes`.
pub open spec fn node_views(nodes: Seq<DeviceTreeNode>) -> Seq<NodeView> {
    Seq::new(nodes.len(), |i: int| nodes[i]@)
}

impl View for DeviceTreeNode {
    type V = NodeView;

    /// The tree below the node: its name, as UTF-8 bytes, its properties
    /// and the trees below its children.
    closed spec fn view(&self) -> NodeView {
        self.tree()
    }
}

impl DeviceTreeNode {
    /// The tree below the node.
    pub(crate) closed spec fn tree(&self) -> NodeView
        decreases self, self.children@.len() + 1,
    {
        NodeView {
            name: encode_utf8(self.name@),
            properties: Seq::new(self.properties@.len(), |i: int| self.properties@[i]@),
            children: self.views_from(0),
        }
    }

    /// The trees below the children of the node, from the child at index
    /// `from` on.
    pub(crate) closed spec fn views_from(&self, from: int) -> Seq<NodeView>
        decreases self, self.children@.len() - from,
    {
        if 0 <= from < self.children@.len() {
            seq![self.children@[from].tree()] + self.views_from(from + 1)
        } else {
            Seq::empty()
        }
    }

    /// The trees below the children from index `from` on are the views of
    /// those children.
    proof fn lemma_views_from(&self, from: int)
        requires
            0 <= from <= self.children@.len(),
        ensures
            self.views_from(from) == node_views(
                self.children@.subrange(from, self.children@.len() as int),
            ),
        decreases self.children@.len() - from,
    {
        let rest = self.children@.subrange(from, self.children@.len() as int);
        if from < self.children@.len() {
            self.lemma_views_from(from + 1);
            let tail = self.children@.subrange(from + 1, self.children@.len() as int);
            assert(seq![self.children@[from]@] + node_views(tail) =~= node_views(rest));
        } else {
            assert(node_views(rest) =~= Seq::<NodeView>::empty());
        }
    }

    /// The view of a node is made of its name, the views of its properties
    /// and the views of its children.
    pub(crate) proof fn lemma_view(&self)
        ensures
            self@.name == encode_utf8(self.name@),
            self@.properties == property_views(self.properties@),
            self@.children == node_views(self.children@),
    {
        self.lemma_views_from(0);
        assert(self.children@.subrange(0, self.children@.len() as int) =~= self.children@);
        assert(self@.properties =~= property_views(self.properties@));
    }

    /// The view of every node is made of its name, the views of its
    /// properties and the views of its children.
    pub(crate) proof fn lemma_views()
        ensures
            forall|n: DeviceTreeNode|
                (#[trigger] n@).name == encode_utf8(n.name@) && n@.properties == property_views(
                    n.properties@,
                ) && n@.children == node_views(n.children@),
    {
        assert forall|n: DeviceTreeNode|
            (#[trigger] n@).name == encode_utf8(n.name@) && n@.properties == property_views(
                n.properties@,
            ) && n@.children == node_views(n.children@) by {
            n.lemma_view();
        }
    }

    /// Creates a new node with the given name, without properties or
    /// children.
    pub fn new(name: &str) -> (r: DeviceTreeNode)
        ensures
            r@ == (NodeView {
                name: name.spec_bytes(),
                properties: Seq::empty(),
                children: Seq::empty(),
            }),
    {
        let r = DeviceTreeNode {
            name: name.to_owned(),
            properties: Vec::new(),
            children: Vec::new(),
        };
        proof {
            r.lemma_view();
            assert(r@.properties =~= Seq::<PropertyView>::empty());
            assert(r@.children =~= Seq::<NodeView>::empty());
        }
        r
    }

    /// Creates a builder for a node with the given name.
    pub fn builder(name: &str) -> (r: DeviceTreeNodeBuilder)
        ensures
            r@ == (NodeView {
                name: name.spec_bytes(),
                properties: Seq::empty(),
                children: Seq::empty(),
            }),
    {
        DeviceTreeNodeBuilder { node: DeviceTreeNode::new(name) }
    }

    /// Returns the name of this node.
    pub fn name(&self) -> (r: &str)
        ensures
            r.spec_bytes() == self@.name,
    {
        self.name.as_str()
    }

    /// Returns the properties of this node, in the order in which they were
    /// added.
    pub fn properties(&self) -> (r: &[DeviceTreeProperty])
        ensures
            property_views(r@) == self@.properties,
    {
        proof {
            self.lemma_view();
        }
        self.properties.as_slice()
    }

    /// Returns the children of this node, in the order in which they were
    /// added.
    pub fn children(&self) -> (r: &[DeviceTreeNode])
        ensures
            node_views(r@) == self@.children,
            forall|i: int| 0 <= i < r@.len() ==> decreases_to!(self => #[trigger] r@[i]),
    {
        proof {
            self.lemma_view();
            assert forall|i: int| 0 <= i < self.children@.len() implies decreases_to!(self => #[trigger] self.children@[i]) by {
                vstd::std_specs::vec::axiom_vec_index_decreases(self.children, i);
            }
        }
        self.children.as_slice()
    }

    /// Adds a property to this node, after those that it has.
    pub fn add_property(&mut self, property: DeviceTreeProperty)
        ensures
            final(self)@ == (NodeView {
                name: old(self)@.name,
                properties: old(self)@.properties.push(property@),
                children: old(self)@.children,
            }),
    {
        proof {
            self.lemma_view();
        }
        self.properties.push(property);
        proof {
            self.lemma_view();
            assert(self@.properties =~= old(self)@.properties.push(property@));
            assert(self@.children =~= old(self)@.children);
        }
    }

    /// Adds a child to this node. A child of the same name is replaced, in
    /// its place; otherwise the new child comes after those that the node
    /// has.
    pub fn add_child(&mut self, child: DeviceTreeNode)
        ensures
            final(self)@ == (NodeView {
                name: old(self)@.name,
                properties: old(self)@.properties,
                children: with_child(old(self)@.children, child@),
            }),
    {
        proof {
            self.lemma_view();
        }
        let i = self.index_of(child.name.as_str().as_bytes());
        proof {
            child.lemma_view();
        }
        if i < self.children.len() {
            self.children[i] = child;
        } else {
            self.children.push(child);
        }
        proof {
            self.lemma_view();
            assert(self@.properties =~= old(self)@.properties);
            assert(self@.children =~= with_child(old(self)@.children, child@));
        }
    }

    /// Returns the index of the first child whose name consists of the
    /// bytes `name`, or the number of children when there is none.
    fn index_of(&self, name: &[u8]) -> (r: usize)
        ensures
            r == child_index(self@.children, name@, 0),
            r <= self.children@.len(),
            self@.children.len() == self.children@.len(),
    {
        proof {
            self.lemma_view();
        }
        let mut i: usize = 0;
        while i < self.children.len()
            invariant
                i <= self.children@.len(),
                self@.children == node_views(self.children@),
                child_index(self@.children, name@, 0) == child_index(
                    self@.children,
                    name@,
                    i as int,
                ),
            decreases self.children@.len() - i,
        {
            proof {
                self.children@[i as int].lemma_view();
            }
            if bytes_eq(self.children[i].name.as_str().as_bytes(), name) {
                return i;
            }
            i += 1;
        }
        i
    }

    /// Returns the child whose name consists of the bytes `name`, if any.
    pub(crate) fn child_named(&self, name: &[u8]) -> (r: Option<&DeviceTreeNode>)
        ensures
            match r {
                Some(c) => {
                    let i = child_index(self@.children, name@, 0);
                    i < self@.children.len() && c@ == self@.children[i]
                },
                None => child_index(self@.children, name@, 0) == self@.children.len(),
            },
    {
        proof {
            self.lemma_view();
        }
        let i = self.index_of(name);
        if i < self.children.len() {
            Some(&self.children[i])
        } else {
            None
        }
    }

    /// Returns the child whose name consists of the bytes `name` for
    /// changing it, if any.
    pub(crate) fn child_named_mut(&mut self, name: &[u8]) -> (r: Option<&mut DeviceTreeNode>)
        ensures
            match r {
                Some(c) => {
                    let i = child_index(old(self)@.children, name@, 0);
                    &&& i < old(self)@.children.len()
                    &&& c@ == old(self)@.children[i]
                    &&& final(self)@ == (NodeView {
                        name: old(self)@.name,
                        properties: old(self)@.properties,
                        children: old(self)@.children.update(i, final(c)@),
                    })
                },
                None => child_index(old(self)@.children, name@, 0) == old(self)@.children.len()
                    && final(self)@ == old(self)@,
            },
    {
        proof {
            self.lemma_view();
            Self::lemma_views();
        }
        let i = self.index_of(name);
        let ghost before = self.children@;
        if i < self.children.len() {
            let c = &mut self.children[i];
            proof {
                assert(node_views(before.update(i as int, *final(c))) =~= node_views(
                    before,
                ).update(i as int, final(c)@));
            }
            Some(c)
        } else {
            None
        }
    }

    /// Returns the child with the given name, if any. The whole name must
    /// be equal, unit address included.
    pub fn child(&self, name: &str) -> (r: Option<&DeviceTreeNode>)
        ensures
            match r {
                Some(c) => {
                    let i = child_index(self@.children, name.spec_bytes(), 0);
                    i < self@.children.len() && c@ == self@.children[i]
                },
                None => child_index(self@.children, name.spec_bytes(), 0) == self@.children.len(),
            },
    {
        self.child_named(name.as_bytes())
    }

    /// Returns the child with the given name for changing it, if any. The
    /// whole name must be equal, unit address included.
    ///
    /// What the caller makes of the child takes its place among the
    /// children; nothing else of this node changes.
    pub fn child_mut(&mut self, name: &str) -> (r: Option<&mut DeviceTreeNode>)
        ensures
            match r {
                Some(c) => {
                    let i = child_index(old(self)@.children, name.spec_bytes(), 0);
                    &&& i < old(self)@.children.len()
                    &&& c@ == old(self)@.children[i]
                    &&& final(self)@ == (NodeView {
                        name: old(self)@.name,
                        properties: old(self)@.properties,
                        children: old(self)@.children.update(i, final(c)@),
                    })
                },
                None => child_index(old(self)@.children, name.spec_bytes(), 0) == old(
                    self,
                )@.children.len() && final(self)@ == old(self)@,
            },
    {
        self.child_named_mut(name.as_bytes())
    }

    /// Returns the first property with the given name, if any.
    pub fn property(&self, name: &str) -> (r: Option<&DeviceTreeProperty>)
        ensures
            match r {
                Some(p) => {
                    let i = first_named(self@.properties, name.spec_bytes(), 0);
                    i < self@.properties.len() && p@ == self@.properties[i]
                },
                None => first_named(self@.properties, name.spec_bytes(), 0)
                    == self@.properties.len(),
            },
    {
        proof {
            self.lemma_view();
        }
        let mut i: usize = 0;
        while i < self.properties.len()
            invariant
                i <= self.properties@.len(),
                self@.properties == property_views(self.properties@),
                first_named(self@.properties, name.spec_bytes(), 0) == first_named(
                    self@.properties,
                    name.spec_bytes(),
                    i as int,
                ),
            decreases self.properties@.len() - i,
        {
            if str_eq(self.properties[i].name(), name) {
                return Some(&self.properties[i]);
            }
            i += 1;
        }
        None
    }

    /// Copies the tree below a node of a flattened device tree: names,
    /// property values and children, each in order.
    pub fn from_fdt(node: &FdtNode<'_>) -> (r: DeviceTreeNode)
        ensures
            r@ == subtree_at(node@.blob, node@.offset),
        decreases struct_end(node@.blob) - node@.offset,
    {
        let _ = node.fdt();
        let name = node.name().to_owned();
        let props = node.properties();
        let mut properties: Vec<DeviceTreeProperty> = Vec::new();
        let mut i: usize = 0;
        while i < props.len()
            invariant
                i <= props@.len(),
                properties@.len() == i,
                forall|k: int| 0 <= k < i ==> (#[trigger] properties@[k])@ == props@[k]@,
            decreases props@.len() - i,
        {
            properties.push(DeviceTreeProperty::from_fdt(&props[i]));
            i += 1;
        }
        let kids = node.children();
        let mut children: Vec<DeviceTreeNode> = Vec::new();
        let mut j: usize = 0;
        proof {
            if crate::fdt::tree::is_node(node@.blob, node@.offset) {
                lemma_node_children(node@.blob, node@.offset);
            }
            assert forall|k: int| 0 <= k < kids@.len() implies (#[trigger] kids@[k])@.blob
                == node@.blob && kids@[k]@.offset == crate::fdt::node::children_at(
                node@.blob,
                node@.offset,
            )[k] by {
                node.lemma_child_at(
                    crate::fdt::node::children_at(node@.blob, node@.offset)[k],
                );
            }
        }
        while j < kids.len()
            invariant
                j <= kids@.len(),
                children@.len() == j,
                forall|k: int|
                    0 <= k < kids@.len() ==> (#[trigger] kids@[k])@.blob == node@.blob
                        && node@.offset < kids@[k]@.offset && crate::fdt::tree::is_node(
                        node@.blob,
                        kids@[k]@.offset,
                    ),
                forall|k: int|
                    0 <= k < j ==> (#[trigger] children@[k])@ == subtree_at(
                        node@.blob,
                        kids@[k]@.offset,
                    ),
            decreases kids@.len() - j,
        {
            children.push(DeviceTreeNode::from_fdt(&kids[j]));
            j += 1;
        }
        let r = DeviceTreeNode { name, properties, children };
        proof {
            r.lemma_view();
            assert(r@.properties =~= models(props@));
            if crate::fdt::tree::is_node(node@.blob, node@.offset) {
                assert(r@.children =~= crate::fdt::tree::tree_at(node@.blob, node@.offset).children);
            } else {
                assert(r@.children =~= Seq::<NodeView>::empty());
            }
        }
        r
    }
}

impl Clone for DeviceTreeNode {
    /// Copies the node with everything below it.
    fn clone(&self) -> (r: DeviceTreeNode)
        ensures
            r@ == self@,
        decreases self,
    {
        let mut properties: Vec<DeviceTreeProperty> = Vec::new();
        let mut i: usize = 0;
        while i < self.properties.len()
            invariant
                i <= self.properties@.len(),
                properties@.len() == i,
                forall|k: int| 0 <= k < i ==> (#[trigger] properties@[k])@ == self.properties@[k]@,
            decreases self.properties@.len() - i,
        {
            properties.push(self.properties[i].clone());
            i += 1;
        }
        let mut children: Vec<DeviceTreeNode> = Vec::new();
        let mut j: usize = 0;
        while j < self.children.len()
            invariant
                j <= self.children@.len(),
                children@.len() == j,
                forall|k: int| 0 <= k < j ==> (#[trigger] children@[k])@ == self.children@[k]@,
            decreases self.children@.len() - j,
        {
            proof {
                vstd::std_specs::vec::axiom_vec_index_decreases(self.children, j as int);
            }
            children.push(self.children[j].clone());
            j += 1;
        }
        let r = DeviceTreeNode { name: self.name.clone(), properties, children };
        proof {
            r.lemma_view();
            self.lemma_view();
            assert(r@.properties =~= self@.properties);
            assert(r@.children =~= self@.children);
        }
        r
    }
}

/// A builder of a [`DeviceTreeNode`].
#[derive(Debug)]
pub struct DeviceTreeNodeBuilder {
    node: DeviceTreeNode,
}

impl View for DeviceTreeNodeBuilder {
    type V = NodeView;

    /// The tree below the node as it was built so far.
    closed spec fn view(&self) -> NodeView {
        self.node@
    }
}

impl DeviceTreeNodeBuilder {
    /// Adds a property to the node.
    pub fn property(self, property: DeviceTreeProperty) -> (r: DeviceTreeNodeBuilder)
        ensures
            r@ == (NodeView {
                name: self@.name,
                properties: self@.properties.push(property@),
                children: self@.children,
            }),
    {
        let mut node = self.node;
        node.add_property(property);
        DeviceTreeNodeBuilder { node }
    }

    /// Adds a child to the node, as [`DeviceTreeNode::add_child`] does.
    pub fn child(self, child: DeviceTreeNode) -> (r: DeviceTreeNodeBuilder)
        ensures
            r@ == (NodeView {
                name: self@.name,
                properties: self@.properties,
                children: with_child(self@.children, child@),
            }),
    {
        let mut node = self.node;
        node.add_child(child);
        DeviceTreeNodeBuilder { node }
    }

    /// Returns the node that was built.
    pub fn build(self) -> (r: DeviceTreeNode)
        ensures
            r@ == self@,
    {
        self.node
    }
}

impl<'a> Node<'a> for &'a DeviceTreeNode {
    type Property = &'a DeviceTreeProperty;

    open spec fn name_spec(&self) -> Seq<u8> {
        (**self)@.name
    }

    open spec fn properties_spec(&self) -> Seq<PropertyView> {
        (**self)@.properties
    }

    closed spec fn children_spec(&self) -> Seq<&'a DeviceTreeNode> {
        Seq::new(self.children@.len(), |i: int| &self.children@[i])
    }

    /// Returns the name of this node.
    fn name(&self) -> (r: &'a str) {
        self.name.as_str()
    }

    /// Returns the properties of this node, in order.
    fn properties(&self) -> (r: Vec<&'a DeviceTreeProperty>) {
        proof {
            self.lemma_view();
        }
        let mut out: Vec<&'a DeviceTreeProperty> = Vec::new();
        let mut i: usize = 0;
        while i < self.properties.len()
            invariant
                i <= self.properties@.len(),
                out@.len() == i,
                forall|k: int| 0 <= k < i ==> *(#[trigger] out@[k]) == self.properties@[k],
            decreases self.properties@.len() - i,
        {
            out.push(&self.properties[i]);
            i += 1;
        }
        assert(models(out@) =~= (**self)@.properties);
        out
    }

    /// Returns the children of this node, in order.
    fn children(&self) -> (r: Vec<&'a DeviceTreeNode>) {
        let mut out: Vec<&'a DeviceTreeNode> = Vec::new();
        let mut i: usize = 0;
        while i < self.children.len()
            invariant
                i <= self.children@.len(),
                out@.len() == i,
                forall|k: int| 0 <= k < i ==> *(#[trigger] out@[k]) == self.children@[k],
            decreases self.children@.len() - i,
        {
            out.push(&self.children[i]);
            i += 1;
        }
        assert(out@ =~= self.children_spec());
        out
    }
}

/// The children of an owned node, as the [`Node`] trait gives them, are
/// the nodes whose views the view of the node holds.
pub proof fn lemma_owned_children(node: &DeviceTreeNode)
    ensures
        node.children_spec().len() == node@.children.len(),
        forall|i: int|
            0 <= i < node@.children.len() ==> (*#[trigger] node.children_spec()[i])@
                == node@.children[i],
{
    node.lemma_view();
}

} // verus!
