//! Nodes of a device tree and the standard properties that any node can
//! have.

use vstd::prelude::*;
use vstd::string::StringSliceAdditionalSpecFns;

use crate::error::StandardError;
use crate::fdt::tree::PropertyView;
use crate::property::{decode_str, decode_str_list, decode_u32, texts, Property};
use crate::standard::{AddressSpaceProperties, DEFAULT_ADDRESS_CELLS, DEFAULT_SIZE_CELLS};
use crate::standard::status::{status_of, Status};
use crate::text::{bytes_eq, find_byte, find_byte_in, lemma_find_byte, str_eq, str_prefix};

verus! {

/// The byte `@`, which separates a node's name from its unit address.
pub const UNIT_ADDRESS_SEPARATOR: u8 = 0x40;

/// The names and values of the properties in `props`.
pub open spec fn models<'a, P: Property<'a>>(props: Seq<P>) -> Seq<PropertyView> {
    Seq::new(props.len(), |i: int| props[i].model())
}

/// The least index at or after `from` of a property named `name`, or the
/// length of `props` when there is none.
pub open spec fn first_named(props: Seq<PropertyView>, name: Seq<u8>, from: int) -> int
    decreases props.len() - from,
{
    if from < 0 || from >= props.len() {
        props.len() as int
    } else if props[from].name == name {
        from
    } else {
        first_named(props, name, from + 1)
    }
}

/// The first property named `name`, if there is one.
pub open spec fn find_property(props: Seq<PropertyView>, name: Seq<u8>) -> Option<PropertyView> {
    let i = first_named(props, name, 0);
    if i < props.len() {
        Some(props[i])
    } else {
        None
    }
}

/// The name without its unit address: what stands before the first `@`, or
/// the whole name when it holds none.
pub open spec fn unit_stripped(name: Seq<u8>) -> Seq<u8> {
    name.subrange(0, find_byte(name, UNIT_ADDRESS_SEPARATOR, 0, name.len() as int))
}

/// Whether a node named `name` is what a lookup of `wanted` looks for. If
/// `wanted` holds a unit address, the whole name must be equal to it;
/// otherwise the name without its unit address must be.
pub open spec fn name_matches(name: Seq<u8>, wanted: Seq<u8>) -> bool {
    if find_byte(wanted, UNIT_ADDRESS_SEPARATOR, 0, wanted.len() as int) < wanted.len() {
        name == wanted
    } else {
        unit_stripped(name) == wanted
    }
}

/// The least index at or after `from` of a name that a lookup of `wanted`
/// looks for, or the length of `names` when there is none.
pub open spec fn first_match(names: Seq<Seq<u8>>, wanted: Seq<u8>, from: int) -> int
    decreases names.len() - from,
{
    if from < 0 || from >= names.len() {
        names.len() as int
    } else if name_matches(names[from], wanted) {
        from
    } else {
        first_match(names, wanted, from + 1)
    }
}

/// The item at index `i`, if `items` has one.
pub open spec fn pick<T>(items: Seq<T>, i: int) -> Option<T> {
    if 0 <= i < items.len() {
        Some(items[i])
    } else {
        None
    }
}

/// Those of `items`, from index `from` on, whose entry in `keep` is set.
pub open spec fn kept<T>(items: Seq<T>, keep: Seq<bool>, from: int) -> Seq<T>
    decreases items.len() - from,
{
    if from < 0 || from >= items.len() {
        Seq::empty()
    } else if keep[from] {
        seq![items[from]] + kept(items, keep, from + 1)
    } else {
        kept(items, keep, from + 1)
    }
}

/// The strings of the `compatible` property, if the node has one.
pub open spec fn compatible_list(props: Seq<PropertyView>) -> Option<Seq<Seq<u8>>> {
    match find_property(props, "compatible".spec_bytes()) {
        Some(p) => Some(decode_str_list(p.value)),
        None => None,
    }
}

/// Whether the `compatible` property lists `filter`.
pub open spec fn is_compatible_with(props: Seq<PropertyView>, filter: Seq<u8>) -> bool {
    match compatible_list(props) {
        Some(list) => list.contains(filter),
        None => false,
    }
}

/// The value of the `u32` property named `name`, or `default` when the
/// node has no such property.
pub open spec fn u32_or(props: Seq<PropertyView>, name: Seq<u8>, default: u32) -> Result<
    u32,
    StandardError,
> {
    match find_property(props, name) {
        Some(p) => match decode_u32(p.value) {
            Ok(v) => Ok(v),
            Err(e) => Err(StandardError::PropertyConversion(e)),
        },
        None => Ok(default),
    }
}

/// The value of the `u32` property named `name`, if the node has one.
pub open spec fn optional_u32(props: Seq<PropertyView>, name: Seq<u8>) -> Result<
    Option<u32>,
    StandardError,
> {
    match find_property(props, name) {
        Some(p) => match decode_u32(p.value) {
            Ok(v) => Ok(Some(v)),
            Err(e) => Err(StandardError::PropertyConversion(e)),
        },
        None => Ok(None),
    }
}

/// The UTF-8 bytes of the string property named `name`, if the node has
/// one.
pub open spec fn optional_str(props: Seq<PropertyView>, name: Seq<u8>) -> Result<
    Option<Seq<u8>>,
    StandardError,
> {
    match find_property(props, name) {
        Some(p) => match decode_str(p.value) {
            Ok(s) => Ok(Some(s)),
            Err(e) => Err(StandardError::PropertyConversion(e)),
        },
        None => Ok(None),
    }
}

/// The value of the `status` property; a node without one is `okay`.
pub open spec fn status_value(props: Seq<PropertyView>) -> Result<Status, StandardError> {
    match optional_str(props, "status".spec_bytes()) {
        Ok(Some(s)) => status_of(s),
        Ok(None) => Ok(Status::Okay),
        Err(e) => Err(e),
    }
}

/// The values of `#address-cells` and `#size-cells`, each replaced by its
/// default when the property is missing or is no `u32`.
pub open spec fn address_space_of(props: Seq<PropertyView>) -> AddressSpaceProperties {
    AddressSpaceProperties {
        address_cells: match u32_or(props, "#address-cells".spec_bytes(), DEFAULT_ADDRESS_CELLS) {
            Ok(v) => v,
            Err(_) => DEFAULT_ADDRESS_CELLS,
        },
        size_cells: match u32_or(props, "#size-cells".spec_bytes(), DEFAULT_SIZE_CELLS) {
            Ok(v) => v,
            Err(_) => DEFAULT_SIZE_CELLS,
        },
    }
}

/// Returns the first of `props` that is named `name`.
pub fn find_named<'a, P: Property<'a>>(props: Vec<P>, name: &str) -> (r: Option<P>)
    ensures
        match r {
            Some(p) => find_property(models(props@), name.spec_bytes()) == Some(p.model()),
            None => find_property(models(props@), name.spec_bytes()) is None,
        },
{
    let ghost all = props@;
    let ghost views = models(props@);
    for p in it: props
        invariant
            it.seq() == all,
            views == models(all),
            first_named(views, name.spec_bytes(), 0) == first_named(
                views,
                name.spec_bytes(),
                it.index() as int,
            ),
    {
        if str_eq(p.name(), name) {
            return Some(p);
        }
    }
    None
}

/// The byte `/`, which separates the segments of a path.
pub const PATH_SEPARATOR: u8 = 0x2f;

/// The child of `node` that a lookup of `wanted` gives: the first child
/// whose name matches, see [`name_matches`].
pub open spec fn child_of<'a, N: Node<'a>>(node: N, wanted: Seq<u8>) -> Option<N> {
    pick(
        node.children_spec(),
        first_match(node.children_spec().map_values(|c: N| c.name_spec()), wanted, 0),
    )
}

/// The node that the rest of `path` from byte index `from` leads to,
/// starting at `node`. The path is cut at each `/`; empty segments are
/// passed over, and every other segment is looked up among the children of
/// the node reached so far.
pub open spec fn resolve<'a, N: Node<'a>>(node: N, path: Seq<u8>, from: int) -> Option<N>
    decreases path.len() - from,
{
    let end = find_byte(path, PATH_SEPARATOR, from, path.len() as int);
    if from < 0 || from >= path.len() {
        Some(node)
    } else if end == from {
        resolve(node, path, from + 1)
    } else {
        proof {
            lemma_find_byte(path, PATH_SEPARATOR, from, path.len() as int);
        }
        match child_of(node, path.subrange(from, end)) {
            Some(c) => resolve(c, path, end),
            None => None,
        }
    }
}

/// The node that `path` names below `root`: the path must begin with `/`.
pub open spec fn lookup<'a, N: Node<'a>>(root: N, path: Seq<u8>) -> Option<N> {
    if path.len() == 0 || path[0] != PATH_SEPARATOR {
        None
    } else {
        resolve(root, path, 1)
    }
}

/// Finds the node that `path` names below `root`, see [`lookup`].
pub fn find_by_path<'a, N: Node<'a>>(root: N, path: &str) -> (r: Option<N>)
    ensures
        r == lookup(root, path.spec_bytes()),
{
    let bytes = path.as_bytes();
    let n = bytes.len();
    if n == 0 || bytes[0] != PATH_SEPARATOR {
        return None;
    }
    let mut node = root;
    let mut pos: usize = 1;
    loop
        invariant
            n == bytes@.len(),
            bytes@ == path.spec_bytes(),
            1 <= pos <= n,
            lookup(root, bytes@) == resolve(node, bytes@, pos as int),
        decreases n - pos,
    {
        if pos >= n {
            return Some(node);
        }
        let end = find_byte_in(bytes, PATH_SEPARATOR, pos, n);
        if end == pos {
            pos = pos + 1;
        } else {
            match node.child_named(vstd::slice::slice_subrange(bytes, pos, end)) {
                Some(c) => {
                    node = c;
                    pos = end;
                },
                None => {
                    return None;
                },
            }
        }
    }
}

/// Whether `name` can stand as a segment of a path: it is not empty and
/// holds no `/`.
pub open spec fn is_segment(name: Seq<u8>) -> bool {
    name.len() > 0 && forall|i: int| 0 <= i < name.len() ==> name[i] != PATH_SEPARATOR
}

/// Whether `way` is a way below `node` that a path can describe: each step
/// takes a child of the node reached so far whose name can stand as a
/// segment, and which is the first child that a lookup of that name looks
/// for.
pub open spec fn lookup_way<'a, N: Node<'a>>(node: N, way: Seq<int>) -> bool
    decreases way.len(),
{
    way.len() > 0 ==> {
        let children = node.children_spec();
        &&& 0 <= way[0] < children.len()
        &&& is_segment(children[way[0]].name_spec())
        &&& forall|j: int|
            0 <= j < way[0] ==> !name_matches(
                (#[trigger] children[j]).name_spec(),
                children[way[0]].name_spec(),
            )
        &&& lookup_way(children[way[0]], way.drop_first())
    }
}

/// The node that the way `way` leads to from `node`.
pub open spec fn node_along<'a, N: Node<'a>>(node: N, way: Seq<int>) -> N
    decreases way.len(),
{
    if way.len() == 0 {
        node
    } else {
        node_along(node.children_spec()[way[0]], way.drop_first())
    }
}

/// The names of the nodes on the way `way` below `node`, each with a `/`
/// before it.
pub open spec fn names_along<'a, N: Node<'a>>(node: N, way: Seq<int>) -> Seq<u8>
    decreases way.len(),
{
    if way.len() == 0 {
        Seq::empty()
    } else {
        seq![PATH_SEPARATOR] + node.children_spec()[way[0]].name_spec() + names_along(
            node.children_spec()[way[0]],
            way.drop_first(),
        )
    }
}

/// The path of the node that `way` leads to from `root`: `/` for the root
/// itself, and otherwise the names of the nodes on the way, each with a
/// `/` before it.
pub open spec fn path_of<'a, N: Node<'a>>(root: N, way: Seq<int>) -> Seq<u8> {
    if way.len() == 0 {
        seq![PATH_SEPARATOR]
    } else {
        names_along(root, way)
    }
}

/// A name matches itself.
pub proof fn lemma_name_matches_itself(name: Seq<u8>)
    ensures
        name_matches(name, name),
{
    lemma_find_byte(name, UNIT_ADDRESS_SEPARATOR, 0, name.len() as int);
    if find_byte(name, UNIT_ADDRESS_SEPARATOR, 0, name.len() as int) >= name.len() {
        assert(name.subrange(0, name.len() as int) =~= name);
    }
}

/// [`first_match`] gives the index `at` when the name there matches and
/// no name between `from` and `at` does.
pub proof fn lemma_first_match_is(names: Seq<Seq<u8>>, wanted: Seq<u8>, from: int, at: int)
    requires
        0 <= from <= at < names.len(),
        name_matches(names[at], wanted),
        forall|j: int| from <= j < at ==> !name_matches(#[trigger] names[j], wanted),
    ensures
        first_match(names, wanted, from) == at,
    decreases at - from,
{
    if from < at {
        lemma_first_match_is(names, wanted, from + 1, at);
    }
}

/// The names along a way are resolved to the node at its end, whatever
/// the path holds before them.
pub proof fn lemma_resolve_along<'a, N: Node<'a>>(node: N, way: Seq<int>, before: Seq<u8>)
    requires
        lookup_way(node, way),
    ensures
        resolve(node, before + names_along(node, way), before.len() as int) == Some(
            node_along(node, way),
        ),
    decreases way.len(),
{
    let path = before + names_along(node, way);
    let from = before.len() as int;
    if way.len() == 0 {
        assert(path =~= before);
    } else {
        let children = node.children_spec();
        let child = children[way[0]];
        let name = child.name_spec();
        let rest = names_along(child, way.drop_first());
        let start = from + 1;
        let end = start + name.len();
        let limit = path.len() as int;
        assert(path =~= before + seq![PATH_SEPARATOR] + name + rest);
        assert(path[from] == PATH_SEPARATOR);
        crate::text::lemma_find_byte_is(path, PATH_SEPARATOR, from, from, limit);
        assert forall|i: int| start <= i < end implies path[i] != PATH_SEPARATOR by {
            assert(path[i] == name[i - start]);
        }
        if way.len() > 1 {
            assert(rest[0] == PATH_SEPARATOR);
            assert(path[end] == rest[0]);
        } else {
            assert(rest =~= Seq::<u8>::empty());
        }
        crate::text::lemma_find_byte_is(path, PATH_SEPARATOR, start, end, limit);
        assert(path.subrange(start, end) =~= name);
        let names = children.map_values(|c: N| c.name_spec());
        lemma_name_matches_itself(name);
        assert forall|j: int| 0 <= j < way[0] implies !name_matches(#[trigger] names[j], name) by {
            assert(names[j] == children[j].name_spec());
        }
        assert(names[way[0]] == name);
        lemma_first_match_is(names, name, 0, way[0]);
        assert(child_of(node, name) == Some(child));
        let longer = before + seq![PATH_SEPARATOR] + name;
        assert(longer + rest =~= path);
        lemma_resolve_along(child, way.drop_first(), longer);
        assert(resolve(node, path, start) == Some(node_along(node, way)));
    }
}

/// Path lookup finds what a walk of the tree names.
///
/// The path of the node at the end of a way below the root is resolved to
/// that node, when the names on the way can stand as segments and each
/// node on the way is the first among its siblings that a lookup of its
/// name looks for.
pub proof fn lemma_lookup_found<'a, N: Node<'a>>(root: N, way: Seq<int>)
    requires
        lookup_way(root, way),
    ensures
        lookup(root, path_of(root, way)) == Some(node_along(root, way)),
{
    if way.len() > 0 {
        lemma_resolve_along(root, way, Seq::empty());
        let path = names_along(root, way);
        assert(Seq::<u8>::empty() + path =~= path);
        assert(path[0] == PATH_SEPARATOR);
        crate::text::lemma_find_byte_is(path, PATH_SEPARATOR, 0, 0, path.len() as int);
    }
}

/// A device tree node.
pub trait Node<'a>: Sized {
    /// The type used for properties of the node.
    type Property: Property<'a>;

    /// The UTF-8 bytes of the name of the node.
    spec fn name_spec(&self) -> Seq<u8>;

    /// The properties of the node, in order.
    spec fn properties_spec(&self) -> Seq<PropertyView>;

    /// The children of the node, in order.
    spec fn children_spec(&self) -> Seq<Self>;

    /// Returns the name of this node.
    fn name(&self) -> (r: &'a str)
        ensures
            r.spec_bytes() == self.name_spec(),
    ;

    /// Returns the properties of this node, in order.
    fn properties(&self) -> (r: Vec<Self::Property>)
        ensures
            models(r@) == self.properties_spec(),
    ;

    /// Returns the children of this node, in order.
    fn children(&self) -> (r: Vec<Self>)
        ensures
            r@ == self.children_spec(),
    ;

    /// Returns the name of this node without the unit address, if any.
    fn name_without_address(&self) -> (r: &'a str)
        ensures
            r.spec_bytes() == unit_stripped(self.name_spec()),
    {
        let name = self.name();
        let bytes = name.as_bytes();
        let at = find_byte_in(bytes, UNIT_ADDRESS_SEPARATOR, 0, bytes.len());
        proof {
            lemma_find_byte(bytes@, UNIT_ADDRESS_SEPARATOR, 0, bytes@.len() as int);
        }
        str_prefix(name, at)
    }

    /// Returns the property with the given name, if any.
    ///
    /// Of several properties with that name the first is returned.
    fn property(&self, name: &str) -> (r: Option<Self::Property>)
        ensures
            match r {
                Some(p) => find_property(self.properties_spec(), name.spec_bytes()) == Some(
                    p.model(),
                ),
                None => find_property(self.properties_spec(), name.spec_bytes()) is None,
            },
    {
        find_named(self.properties(), name)
    }

    /// Returns a child node by its name.
    ///
    /// If the given name contains a _unit-address_ (the part after the `@`
    /// sign) then both the _node-name_ and _unit-address_ must match. If it
    /// doesn't have a _unit-address_, then nodes with any _unit-address_ or
    /// none will be allowed. Of several such children the first is returned.
    ///
    /// For example, searching for `memory` as a child of `/` would match either
    /// `/memory` or `/memory@4000`, while `memory@4000` would match only the
    /// latter.
    fn child(&self, name: &str) -> (r: Option<Self>)
        ensures
            r == pick(
                self.children_spec(),
                first_match(
                    self.children_spec().map_values(|c: Self| c.name_spec()),
                    name.spec_bytes(),
                    0,
                ),
            ),
    {
        self.child_named(name.as_bytes())
    }

    /// Returns a child node by the UTF-8 bytes of its name, as
    /// [`Node::child`] does.
    fn child_named(&self, name: &[u8]) -> (r: Option<Self>)
        ensures
            r == pick(
                self.children_spec(),
                first_match(self.children_spec().map_values(|c: Self| c.name_spec()), name@, 0),
            ),
    {
        let full = find_byte_in(name, UNIT_ADDRESS_SEPARATOR, 0, name.len()) < name.len();
        let children = self.children();
        let ghost all = children@;
        let ghost names = all.map_values(|c: Self| c.name_spec());
        for c in it: children
            invariant
                it.seq() == all,
                all == self.children_spec(),
                names == all.map_values(|c: Self| c.name_spec()),
                full == (find_byte(name@, UNIT_ADDRESS_SEPARATOR, 0, name@.len() as int)
                    < name@.len()),
                first_match(names, name@, 0) == first_match(names, name@, it.index() as int),
        {
            let found = if full {
                bytes_eq(c.name().as_bytes(), name)
            } else {
                bytes_eq(c.name_without_address().as_bytes(), name)
            };
            if found {
                return Some(c);
            }
        }
        None
    }

    /// Returns the value of the standard `compatible` property.
    fn compatible(&self) -> (r: Option<Vec<&'a str>>)
        ensures
            match r {
                Some(list) => compatible_list(self.properties_spec()) == Some(texts(list@)),
                None => compatible_list(self.properties_spec()) is None,
            },
    {
        match self.property("compatible") {
            Some(p) => Some(p.as_str_list()),
            None => None,
        }
    }

    /// Returns whether this node has a `compatible` properties containing the
    /// given string.
    fn is_compatible(&self, compatible_filter: &str) -> (r: bool)
        ensures
            r == is_compatible_with(self.properties_spec(), compatible_filter.spec_bytes()),
    {
        match self.compatible() {
            Some(list) => {
                let mut i: usize = 0;
                while i < list.len()
                    invariant
                        i <= list@.len(),
                        compatible_list(self.properties_spec()) == Some(texts(list@)),
                        forall|j: int|
                            0 <= j < i ==> #[trigger] texts(list@)[j]
                                != compatible_filter.spec_bytes(),
                    decreases list@.len() - i,
                {
                    if str_eq(list[i], compatible_filter) {
                        assert(texts(list@)[i as int] == compatible_filter.spec_bytes());
                        assert(texts(list@).contains(compatible_filter.spec_bytes()));
                        return true;
                    }
                    i += 1;
                }
                assert(!texts(list@).contains(compatible_filter.spec_bytes()));
                false
            },
            None => false,
        }
    }

    /// Finds all child nodes with a `compatible` property containing the given
    /// string.
    fn find_compatible(&self, compatible_filter: &str) -> (r: Vec<Self>)
        ensures
            r@ == kept(
                self.children_spec(),
                self.children_spec().map_values(
                    |c: Self|
                        is_compatible_with(c.properties_spec(), compatible_filter.spec_bytes()),
                ),
                0,
            ),
    {
        let children = self.children();
        let ghost all = children@;
        let ghost keep = all.map_values(
            |c: Self| is_compatible_with(c.properties_spec(), compatible_filter.spec_bytes()),
        );
        let mut out: Vec<Self> = Vec::new();
        for c in it: children
            invariant
                it.seq() == all,
                all == self.children_spec(),
                keep == all.map_values(
                    |c: Self|
                        is_compatible_with(c.properties_spec(), compatible_filter.spec_bytes()),
                ),
                out@ + kept(all, keep, it.index() as int) == kept(all, keep, 0),
        {
            if c.is_compatible(compatible_filter) {
                proof {
                    let rest = kept(all, keep, it.index() as int + 1);
                    assert(out@ + (seq![c] + rest) =~= out@.push(c) + rest);
                }
                out.push(c);
            }
        }
        assert(out@ + Seq::<Self>::empty() =~= out@);
        out
    }

    /// Returns the value of the standard `model` property.
    ///
    /// Fails when the value isn't a valid string.
    fn model(&self) -> (r: Result<Option<&'a str>, StandardError>)
        ensures
            match r {
                Ok(Some(s)) => optional_str(self.properties_spec(), "model".spec_bytes()) == Ok::<
                    Option<Seq<u8>>,
                    StandardError,
                >(Some(s.spec_bytes())),
                Ok(None) => optional_str(self.properties_spec(), "model".spec_bytes()) == Ok::<
                    Option<Seq<u8>>,
                    StandardError,
                >(None),
                Err(e) => optional_str(self.properties_spec(), "model".spec_bytes()) == Err::<
                    Option<Seq<u8>>,
                    StandardError,
                >(e),
            },
    {
        match self.property("model") {
            Some(p) => match p.as_str() {
                Ok(s) => Ok(Some(s)),
                Err(e) => Err(StandardError::PropertyConversion(e)),
            },
            None => Ok(None),
        }
    }

    /// Returns the value of the standard `phandle` property.
    ///
    /// Fails when the value isn't a valid u32.
    fn phandle(&self) -> (r: Result<Option<u32>, StandardError>)
        ensures
            r == optional_u32(self.properties_spec(), "phandle".spec_bytes()),
    {
        match self.property("phandle") {
            Some(p) => match p.as_u32() {
                Ok(v) => Ok(Some(v)),
                Err(e) => Err(StandardError::PropertyConversion(e)),
            },
            None => Ok(None),
        }
    }

    /// Returns the value of the standard `status` property.
    ///
    /// If there is no `status` property then `okay` is assumed. Fails when
    /// the value isn't a valid status.
    fn status(&self) -> (r: Result<Status, StandardError>)
        ensures
            r == status_value(self.properties_spec()),
    {
        match self.property("status") {
            Some(p) => match p.as_str() {
                Ok(s) => Status::parse(s),
                Err(e) => Err(StandardError::PropertyConversion(e)),
            },
            None => Ok(Status::Okay),
        }
    }

    /// Returns the value of the standard `#address-cells` property, or its
    /// default when the node has none.
    ///
    /// Fails when the value isn't a valid u32.
    fn address_cells(&self) -> (r: Result<u32, StandardError>)
        ensures
            r == u32_or(
                self.properties_spec(),
                "#address-cells".spec_bytes(),
                DEFAULT_ADDRESS_CELLS,
            ),
    {
        match self.property("#address-cells") {
            Some(p) => match p.as_u32() {
                Ok(v) => Ok(v),
                Err(e) => Err(StandardError::PropertyConversion(e)),
            },
            None => Ok(DEFAULT_ADDRESS_CELLS),
        }
    }

    /// Returns the value of the standard `#size-cells` property, or its
    /// default when the node has none.
    ///
    /// Fails when the value isn't a valid u32.
    fn size_cells(&self) -> (r: Result<u32, StandardError>)
        ensures
            r == u32_or(self.properties_spec(), "#size-cells".spec_bytes(), DEFAULT_SIZE_CELLS),
    {
        match self.property("#size-cells") {
            Some(p) => match p.as_u32() {
                Ok(v) => Ok(v),
                Err(e) => Err(StandardError::PropertyConversion(e)),
            },
            None => Ok(DEFAULT_SIZE_CELLS),
        }
    }

    /// Returns the values of the standard `#address-cells` and `#size_cells`
    /// properties, each replaced by its default when it cannot be read.
    fn address_space(&self) -> (r: AddressSpaceProperties)
        ensures
            r == address_space_of(self.properties_spec()),
    {
        let address_cells = match self.address_cells() {
            Ok(v) => v,
            Err(_) => DEFAULT_ADDRESS_CELLS,
        };
        let size_cells = match self.size_cells() {
            Ok(v) => v,
            Err(_) => DEFAULT_SIZE_CELLS,
        };
        AddressSpaceProperties { address_cells, size_cells }
    }

    /// Returns the value of the standard `virtual-reg` property.
    ///
    /// Fails when the value isn't a valid u32.
    fn virtual_reg(&self) -> (r: Result<Option<u32>, StandardError>)
        ensures
            r == optional_u32(self.properties_spec(), "virtual-reg".spec_bytes()),
    {
        match self.property("virtual-reg") {
            Some(p) => match p.as_u32() {
                Ok(v) => Ok(Some(v)),
                Err(e) => Err(StandardError::PropertyConversion(e)),
            },
            None => Ok(None),
        }
    }

    /// Returns whether the standard `dma-coherent` property is present.
    fn dma_coherent(&self) -> (r: bool)
        ensures
            r == find_property(self.properties_spec(), "dma-coherent".spec_bytes()).is_some(),
    {
        self.property("dma-coherent").is_some()
    }
}

} // verus!
