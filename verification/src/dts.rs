//! Device tree source text.
//!
//! A flattened device tree can be shown as the text of a device tree
//! source file. This module says what that text is, character for
//! character, and builds it.

use vstd::prelude::*;
use vstd::string::{StringExecFns, StringSliceAdditionalSpecFns};
use vstd::utf8::decode_utf8;

use crate::cells::Cells;
use crate::codec::{be32, read_u32_be};
use crate::fdt::header::struct_end;
use crate::fdt::node::{children_at, subtree_at, FdtNode};
use crate::fdt::property::FdtProperty;
use crate::fdt::tree::{is_node, lemma_node_children, NodeView, PropertyView};
use crate::fdt::{blob_ok, Fdt};
use crate::memreserve::MemoryReservation;
use crate::model::image::{dtb_fits, dtb_image};
use crate::model::tree::{blob_tree, DeviceTree, TreeView};
use crate::node::Node;
use crate::property::{
    decode_str_list, form_of, texts, value_as_str_list, value_form, Property, ValueForm,
};
use crate::standard::ranges::Range;
use crate::standard::reg::Reg;

verus! {

/// The hexadecimal digit for `n`, which is less than sixteen.
pub open spec fn hex_digit(n: nat) -> char {
    "0123456789abcdef"@[n as int]
}

/// The hexadecimal digits of `value`, in lower case, filled up with zeros
/// at the front to at least `min_digits` digits. Zero has one digit.
pub open spec fn hex_text(value: nat, min_digits: nat) -> Seq<char>
    decreases value, min_digits,
{
    if value >= 16 || min_digits > 1 {
        hex_text(value / 16, if min_digits > 0 { (min_digits - 1) as nat } else { 0 }) + seq![
            hex_digit(value % 16),
        ]
    } else {
        seq![hex_digit(value % 16)]
    }
}

/// `n` spaces.
pub open spec fn spaces(n: nat) -> Seq<char> {
    Seq::new(n, |i: int| ' ')
}

/// The text whose UTF-8 bytes are `bytes`.
pub open spec fn text_of(bytes: Seq<u8>) -> Seq<char> {
    decode_utf8(bytes)
}

/// The strings of `list` from index `from` on as they are shown: each in
/// double quotes, the first after ` = ` and each further one after a comma.
pub open spec fn strings_text(list: Seq<Seq<u8>>, from: int) -> Seq<char>
    decreases list.len() - from,
{
    if 0 <= from < list.len() {
        (if from == 0 { " = \""@ } else { ", \""@ }) + text_of(list[from]) + "\""@ + strings_text(
            list,
            from + 1,
        )
    } else {
        Seq::empty()
    }
}

/// The cells of `value` from the cell at index `from` on as they are
/// shown: each as `0x` and at least two hexadecimal digits, with a space
/// between two cells.
pub open spec fn cells_text(value: Seq<u8>, from: int) -> Seq<char>
    decreases value.len() - 4 * from,
{
    if 0 <= from && 4 * from + 4 <= value.len() {
        (if from == 0 { ""@ } else { " "@ }) + "0x"@ + hex_text(be32(value, 4 * from) as nat, 2)
            + cells_text(value, from + 1)
    } else {
        Seq::empty()
    }
}

/// The bytes of `value` from index `from` on as they are shown: each as
/// two hexadecimal digits, with a space between two bytes.
pub open spec fn bytes_text(value: Seq<u8>, from: int) -> Seq<char>
    decreases value.len() - from,
{
    if 0 <= from < value.len() {
        (if from == 0 { ""@ } else { " "@ }) + hex_text(value[from] as nat, 2) + bytes_text(
            value,
            from + 1,
        )
    } else {
        Seq::empty()
    }
}

/// The value of a property as it is shown behind the name of the
/// property, in the form that [`form_of`] gives.
pub open spec fn value_text(value: Seq<u8>) -> Seq<char> {
    match form_of(value) {
        ValueForm::Empty => ";\n"@,
        ValueForm::Strings => strings_text(decode_str_list(value), 0) + ";\n"@,
        ValueForm::Cells => " = <"@ + cells_text(value, 0) + ">;\n"@,
        ValueForm::Bytes => " = ["@ + bytes_text(value, 0) + "];\n"@,
    }
}

/// A property as it is shown, on a line of its own behind `indent`
/// spaces.
pub open spec fn property_text(prop: PropertyView, indent: nat) -> Seq<char> {
    spaces(indent) + text_of(prop.name) + value_text(prop.value)
}

/// The properties of `props` from index `from` on as they are shown.
pub open spec fn properties_text(props: Seq<PropertyView>, indent: nat, from: int) -> Seq<char>
    decreases props.len() - from,
{
    if 0 <= from < props.len() {
        property_text(props[from], indent) + properties_text(props, indent, from + 1)
    } else {
        Seq::empty()
    }
}

/// The tree `node` as it is shown behind `indent` spaces: the name of the
/// node, or `/` for a node without a name, then in braces its properties
/// and the subtrees of its children, four spaces further in. An empty line
/// stands before each child but the first child of a node without
/// properties.
pub open spec fn node_text(node: NodeView, indent: nat) -> Seq<char>
    decreases node, node.children.len() + 1,
{
    spaces(indent) + (if node.name.len() == 0 { "/"@ } else { text_of(node.name) }) + " {\n"@
        + properties_text(node.properties, indent + 4, 0) + children_text(node, indent + 4, 0)
        + spaces(indent) + "};\n"@
}

/// The subtrees of the children of `node` from index `from` on as they are
/// shown behind `indent` spaces.
pub open spec fn children_text(node: NodeView, indent: nat, from: int) -> Seq<char>
    decreases node, node.children.len() - from,
{
    if 0 <= from < node.children.len() {
        (if from > 0 || node.properties.len() > 0 { "\n"@ } else { ""@ }) + node_text(
            node.children[from],
            indent,
        ) + children_text(node, indent, from + 1)
    } else {
        Seq::empty()
    }
}

/// The memory reservations of `entries` from index `from` on as they are
/// shown: each on a line of its own, as `/memreserve/` with the address
/// and the size in hexadecimal.
pub open spec fn reservations_text(entries: Seq<MemoryReservation>, from: int) -> Seq<char>
    decreases entries.len() - from,
{
    if 0 <= from < entries.len() {
        "/memreserve/ 0x"@ + hex_text(entries[from].address as nat, 1) + " 0x"@ + hex_text(
            entries[from].size as nat,
            1,
        ) + ";\n"@ + reservations_text(entries, from + 1)
    } else {
        Seq::empty()
    }
}

/// A device tree as it is shown in device tree source: the version line,
/// the memory reservations, an empty line, and the tree below the root.
pub open spec fn dts_text(tree: TreeView) -> Seq<char> {
    "/dts-v1/;\n"@ + reservations_text(tree.memory_reservations, 0) + "\n"@ + node_text(
        tree.root,
        0,
    )
}

/// The cells stored in `bytes` from the cell at index `from` on as one
/// number is shown: eight hexadecimal digits for each cell.
pub open spec fn cell_digits(bytes: Seq<u8>, from: int) -> Seq<char>
    decreases bytes.len() - 4 * from,
{
    if 0 <= from && 4 * from + 4 <= bytes.len() {
        hex_text(be32(bytes, 4 * from) as nat, 8) + cell_digits(bytes, from + 1)
    } else {
        Seq::empty()
    }
}

/// A value of cells as it is shown: `0x` and eight hexadecimal digits for
/// each cell.
pub open spec fn number_text(bytes: Seq<u8>) -> Seq<char> {
    "0x"@ + cell_digits(bytes, 0)
}

/// The text of a string is what its UTF-8 bytes decode to.
pub proof fn lemma_text_of(s: &str)
    ensures
        text_of(s.spec_bytes()) == s@,
{
    vstd::utf8::encode_utf8_decode_utf8(s@);
}

/// Returns the hexadecimal digit for `n`.
fn hex_digit_str(n: u8) -> (r: &'static str)
    requires
        n < 16,
    ensures
        r@ == seq![hex_digit(n as nat)],
{
    proof {
        reveal_strlit("0123456789abcdef");
        reveal_strlit("0");
        reveal_strlit("1");
        reveal_strlit("2");
        reveal_strlit("3");
        reveal_strlit("4");
        reveal_strlit("5");
        reveal_strlit("6");
        reveal_strlit("7");
        reveal_strlit("8");
        reveal_strlit("9");
        reveal_strlit("a");
        reveal_strlit("b");
        reveal_strlit("c");
        reveal_strlit("d");
        reveal_strlit("e");
        reveal_strlit("f");
    }
    let r = if n == 0 {
        "0"
    } else if n == 1 {
        "1"
    } else if n == 2 {
        "2"
    } else if n == 3 {
        "3"
    } else if n == 4 {
        "4"
    } else if n == 5 {
        "5"
    } else if n == 6 {
        "6"
    } else if n == 7 {
        "7"
    } else if n == 8 {
        "8"
    } else if n == 9 {
        "9"
    } else if n == 10 {
        "a"
    } else if n == 11 {
        "b"
    } else if n == 12 {
        "c"
    } else if n == 13 {
        "d"
    } else if n == 14 {
        "e"
    } else {
        "f"
    };
    assert(r@ =~= seq![hex_digit(n as nat)]);
    r
}

/// Appends the hexadecimal digits of `value` to `out`, at least
/// `min_digits` of them.
pub fn push_hex(out: &mut String, value: u64, min_digits: usize)
    ensures
        final(out)@ == old(out)@ + hex_text(value as nat, min_digits as nat),
    decreases value, min_digits,
{
    if value >= 16 || min_digits > 1 {
        push_hex(out, value / 16, if min_digits > 0 { min_digits - 1 } else { 0 });
    }
    out.append(hex_digit_str((value % 16) as u8));
    assert(out@ =~= old(out)@ + hex_text(value as nat, min_digits as nat));
}

/// Appends `n` spaces to `out`.
pub fn push_spaces(out: &mut String, n: usize)
    ensures
        final(out)@ == old(out)@ + spaces(n as nat),
{
    let mut i: usize = 0;
    assert(out@ =~= old(out)@ + spaces(0));
    while i < n
        invariant
            i <= n,
            out@ == old(out)@ + spaces(i as nat),
        decreases n - i,
    {
        proof {
            reveal_strlit(" ");
        }
        out.append(" ");
        i += 1;
        assert(out@ =~= old(out)@ + spaces(i as nat));
    }
}

/// Appends the strings of a value that is shown as strings to `out`.
fn push_strings(out: &mut String, value: &[u8])
    ensures
        final(out)@ == old(out)@ + strings_text(decode_str_list(value@), 0),
{
    let list = value_as_str_list(value);
    let ghost all = decode_str_list(value@);
    let mut i: usize = 0;
    proof {
        assert(out@ + Seq::<char>::empty() =~= out@);
    }
    while i < list.len()
        invariant
            i <= list@.len(),
            texts(list@) == all,
            out@ + strings_text(all, i as int) == old(out)@ + strings_text(all, 0),
        decreases list@.len() - i,
    {
        let ghost so_far = out@;
        let ghost rest = strings_text(all, i as int + 1);
        let open = if i == 0 {
            " = \""
        } else {
            ", \""
        };
        proof {
            lemma_text_of(list@[i as int]);
            assert(all[i as int] == list@[i as int].spec_bytes());
        }
        out.append(open);
        out.append(list[i]);
        out.append("\"");
        proof {
            assert(so_far + (open@ + text_of(all[i as int]) + "\""@ + rest) =~= out@ + rest);
        }
        i += 1;
    }
    proof {
        assert(out@ + Seq::<char>::empty() =~= out@);
    }
}

/// Appends the cells of a value whose length is a multiple of four to
/// `out`.
fn push_cells(out: &mut String, value: &[u8])
    ensures
        final(out)@ == old(out)@ + cells_text(value@, 0),
{
    let len = value.len();
    let count = len / 4;
    let mut i: usize = 0;
    while i < count
        invariant
            i <= count,
            len == value@.len(),
            count == len / 4,
            out@ + cells_text(value@, i as int) == old(out)@ + cells_text(value@, 0),
        decreases count - i,
    {
        let ghost so_far = out@;
        let ghost rest = cells_text(value@, i as int + 1);
        let gap = if i == 0 {
            ""
        } else {
            " "
        };
        let word = match read_u32_be(value, 4 * i) {
            Ok(w) => w,
            Err(_) => 0,
        };
        out.append(gap);
        out.append("0x");
        push_hex(out, word as u64, 2);
        proof {
            assert(so_far + (gap@ + "0x"@ + hex_text(word as nat, 2) + rest) =~= out@ + rest);
        }
        i += 1;
    }
    proof {
        assert(out@ + Seq::<char>::empty() =~= out@);
    }
}

/// Appends the bytes of a value to `out`.
fn push_bytes(out: &mut String, value: &[u8])
    ensures
        final(out)@ == old(out)@ + bytes_text(value@, 0),
{
    let mut i: usize = 0;
    while i < value.len()
        invariant
            i <= value@.len(),
            out@ + bytes_text(value@, i as int) == old(out)@ + bytes_text(value@, 0),
        decreases value@.len() - i,
    {
        let ghost so_far = out@;
        let ghost rest = bytes_text(value@, i as int + 1);
        let gap = if i == 0 {
            ""
        } else {
            " "
        };
        out.append(gap);
        push_hex(out, value[i] as u64, 2);
        proof {
            assert(so_far + (gap@ + hex_text(value@[i as int] as nat, 2) + rest) =~= out@ + rest);
        }
        i += 1;
    }
    proof {
        assert(out@ + Seq::<char>::empty() =~= out@);
    }
}

/// Appends a property as it is shown to `out`.
fn push_property(out: &mut String, prop: &FdtProperty<'_>, indent: usize)
    ensures
        final(out)@ == old(out)@ + property_text(prop@, indent as nat),
{
    let name = prop.name();
    let value = prop.value();
    proof {
        lemma_text_of(name);
    }
    push_spaces(out, indent);
    out.append(name);
    let ghost named = out@;
    match value_form(value) {
        ValueForm::Empty => {
            out.append(";\n");
        },
        ValueForm::Strings => {
            push_strings(out, value);
            out.append(";\n");
        },
        ValueForm::Cells => {
            out.append(" = <");
            push_cells(out, value);
            out.append(">;\n");
        },
        ValueForm::Bytes => {
            out.append(" = [");
            push_bytes(out, value);
            out.append("];\n");
        },
    }
    assert(out@ =~= named + value_text(value@));
    assert(out@ =~= old(out)@ + property_text(prop@, indent as nat));
}

/// Appends the properties of `props` as they are shown to `out`.
fn push_properties(out: &mut String, props: &Vec<FdtProperty<'_>>, indent: usize)
    ensures
        final(out)@ == old(out)@ + properties_text(
            crate::node::models(props@),
            indent as nat,
            0,
        ),
{
    let ghost views = crate::node::models(props@);
    let mut i: usize = 0;
    while i < props.len()
        invariant
            i <= props@.len(),
            views == crate::node::models(props@),
            out@ + properties_text(views, indent as nat, i as int) == old(out)@
                + properties_text(views, indent as nat, 0),
        decreases props@.len() - i,
    {
        let ghost so_far = out@;
        let ghost rest = properties_text(views, indent as nat, i as int + 1);
        proof {
            assert(props@[i as int]@ == views[i as int]);
        }
        push_property(out, &props[i], indent);
        proof {
            assert(so_far + (property_text(views[i as int], indent as nat) + rest) =~= out@
                + rest);
        }
        i += 1;
    }
    proof {
        assert(out@ + Seq::<char>::empty() =~= out@);
    }
}

/// Appends the line that opens a node named `name` to `out`.
fn push_opening(out: &mut String, name: &str, indent: usize)
    ensures
        final(out)@ == old(out)@ + spaces(indent as nat) + (if name.spec_bytes().len() == 0 {
            "/"@
        } else {
            text_of(name.spec_bytes())
        }) + " {\n"@,
{
    proof {
        lemma_text_of(name);
    }
    push_spaces(out, indent);
    if name.as_bytes().len() == 0 {
        out.append("/");
    } else {
        out.append(name);
    }
    out.append(" {\n");
}

/// Appends the line that closes a node to `out`.
fn push_closing(out: &mut String, indent: usize)
    ensures
        final(out)@ == old(out)@ + spaces(indent as nat) + "};\n"@,
{
    push_spaces(out, indent);
    out.append("};\n");
}

/// The children of a node view are views of the children of the tree
/// below the node.
proof fn lemma_child_views(node: &FdtNode<'_>, children: Seq<FdtNode<'_>>)
    requires
        crate::fdt::blob_ok(node@.blob),
        crate::fdt::node::node_place(node@.blob, node@.offset),
        children == node.children_spec(),
    ensures
        subtree_at(node@.blob, node@.offset).children.len() == children.len(),
        forall|k: int|
            0 <= k < children.len() ==> (#[trigger] children[k])@.blob == node@.blob
                && node@.offset + 4 < children[k]@.offset && is_node(
                node@.blob,
                children[k]@.offset,
            ) && subtree_at(node@.blob, node@.offset).children[k] == subtree_at(
                node@.blob,
                children[k]@.offset,
            ),
        children.len() > 0 ==> is_node(node@.blob, node@.offset),
{
    let blob = node@.blob;
    if is_node(blob, node@.offset) {
        lemma_node_children(blob, node@.offset);
        crate::fdt::tree::lemma_node_items(blob, node@.offset);
        crate::fdt::tree::lemma_children_from(
            blob,
            crate::fdt::structure::node_body(blob, node@.offset),
        );
    }
    assert forall|k: int| 0 <= k < children.len() implies (#[trigger] children[k])@.blob == blob
        && children[k]@.offset == children_at(blob, node@.offset)[k] by {
        node.lemma_child_at(children_at(blob, node@.offset)[k]);
    }
}

/// Appends the tree below `node` as it is shown to `out`.
#[verifier::rlimit(60)]
fn push_node(out: &mut String, node: &FdtNode<'_>, indent: usize)
    requires
        indent + (struct_end(node@.blob) - node@.offset) <= usize::MAX,
    ensures
        final(out)@ == old(out)@ + node_text(subtree_at(node@.blob, node@.offset), indent as nat),
    decreases struct_end(node@.blob) - node@.offset,
{
    let _ = node.fdt();
    let ghost blob = node@.blob;
    let ghost tree = subtree_at(blob, node@.offset);
    let children = node.children();
    let props = node.properties();
    proof {
        lemma_child_views(node, children@);
    }
    // A node that has properties or children leaves room for its
    // indentation; the root of a blob without nodes has neither.
    let inner = if indent > usize::MAX - 4 {
        indent
    } else {
        indent + 4
    };
    proof {
        if inner != indent + 4 {
            assert(!is_node(blob, node@.offset));
            assert(properties_text(tree.properties, inner as nat, 0) =~= properties_text(
                tree.properties,
                (indent + 4) as nat,
                0,
            ));
        }
    }
    push_opening(out, node.name(), indent);
    push_properties(out, &props, inner);
    let ghost propped = out@;
    let has_properties = props.len() > 0;

    let mut j: usize = 0;
    while j < children.len()
        invariant
            j <= children@.len(),
            indent + (struct_end(blob) - node@.offset) <= usize::MAX,
            children@.len() > 0 ==> indent + 4 <= usize::MAX,
            blob == node@.blob,
            tree == subtree_at(blob, node@.offset),
            has_properties == (tree.properties.len() > 0),
            tree.children.len() == children@.len(),
            forall|k: int|
                0 <= k < children@.len() ==> (#[trigger] children@[k])@.blob == blob
                    && node@.offset + 4 < children@[k]@.offset && is_node(
                    blob,
                    children@[k]@.offset,
                ) && tree.children[k] == subtree_at(blob, children@[k]@.offset),
            out@ + children_text(tree, (indent + 4) as nat, j as int) == propped + children_text(
                tree,
                (indent + 4) as nat,
                0,
            ),
        decreases children@.len() - j,
    {
        let ghost so_far = out@;
        let ghost rest = children_text(tree, (indent + 4) as nat, j as int + 1);
        let gap = if j > 0 || has_properties {
            "\n"
        } else {
            ""
        };
        out.append(gap);
        push_node(out, &children[j], indent + 4);
        proof {
            assert(so_far + (gap@ + node_text(tree.children[j as int], (indent + 4) as nat)
                + rest) =~= out@ + rest);
        }
        j += 1;
    }
    proof {
        assert(out@ + Seq::<char>::empty() =~= out@);
    }
    push_closing(out, indent);
    assert(out@ =~= old(out)@ + node_text(tree, indent as nat));
}

impl<'a> FdtProperty<'a> {
    /// Returns the property as it is shown in device tree source, on a
    /// line of its own.
    pub fn to_string(&self) -> (r: String)
        ensures
            r@ == property_text(self@, 0),
    {
        let mut out = String::new();
        push_property(&mut out, self, 0);
        assert(Seq::<char>::empty() + property_text(self@, 0) =~= property_text(self@, 0));
        out
    }
}

impl<'a> FdtNode<'a> {
    /// Returns the tree below this node as it is shown in device tree
    /// source.
    pub fn to_string(&self) -> (r: String)
        ensures
            r@ == node_text(subtree_at(self@.blob, self@.offset), 0),
    {
        // The end of the structure block is a machine integer, so there is
        // room for the indentation of every node below this one.
        let _ = self.fdt().layout();
        let mut out = String::new();
        push_node(&mut out, self, 0);
        assert(Seq::<char>::empty() + node_text(subtree_at(self@.blob, self@.offset), 0)
            =~= node_text(subtree_at(self@.blob, self@.offset), 0));
        out
    }
}

impl<'a> Fdt<'a> {
    /// Returns the device tree as it is shown in device tree source.
    pub fn to_string(&self) -> (r: String)
        ensures
            r@ == dts_text(blob_tree(self@)),
    {
        let mut out = String::new();
        out.append("/dts-v1/;\n");
        let ghost versioned = out@;
        let reservations = self.memory_reservations();
        let ghost entries = reservations@;
        let mut i: usize = 0;
        proof {
            assert(Seq::<char>::empty() + "/dts-v1/;\n"@ =~= "/dts-v1/;\n"@);
        }
        while i < reservations.len()
            invariant
                i <= reservations@.len(),
                entries == reservations@,
                out@ + reservations_text(entries, i as int) == versioned + reservations_text(
                    entries,
                    0,
                ),
            decreases reservations@.len() - i,
        {
            let ghost so_far = out@;
            let ghost rest = reservations_text(entries, i as int + 1);
            out.append("/memreserve/ 0x");
            push_hex(&mut out, reservations[i].address, 1);
            out.append(" 0x");
            push_hex(&mut out, reservations[i].size, 1);
            out.append(";\n");
            proof {
                assert(so_far + ("/memreserve/ 0x"@ + hex_text(entries[i as int].address as nat, 1)
                    + " 0x"@ + hex_text(entries[i as int].size as nat, 1) + ";\n"@ + rest) =~= out@
                    + rest);
            }
            i += 1;
        }
        proof {
            assert(out@ + Seq::<char>::empty() =~= out@);
        }
        out.append("\n");
        let root = self.root();
        proof {
            FdtNode::lemma_root_of(*self);
        }
        push_node(&mut out, &root, 0);
        assert(out@ =~= dts_text(blob_tree(self@)));
        out
    }
}

impl DeviceTree {
    /// Returns the device tree as it is shown in device tree source: the
    /// text of the blob that the tree is written to.
    ///
    /// Returns `None` when the tree does not fit in a blob, and when the
    /// blob that it is written to is not well formed, which a name with a
    /// zero byte can bring about.
    pub fn to_string(&self) -> (r: Option<String>)
        ensures
            r is Some <==> dtb_fits(self@) && blob_ok(dtb_image(self@)),
            r is Some ==> r->0@ == dts_text(blob_tree(dtb_image(self@))),
    {
        let dtb = match self.try_to_dtb() {
            Some(dtb) => dtb,
            None => {
                return None;
            },
        };
        match Fdt::new(dtb.as_slice()) {
            Ok(fdt) => Some(fdt.to_string()),
            Err(_) => None,
        }
    }
}

/// Appends the digits of the cells stored in `bytes` to `out`.
fn push_cell_digits(out: &mut String, bytes: &[u8])
    ensures
        final(out)@ == old(out)@ + cell_digits(bytes@, 0),
{
    let len = bytes.len();
    let count = len / 4;
    let mut i: usize = 0;
    while i < count
        invariant
            i <= count,
            len == bytes@.len(),
            count == len / 4,
            out@ + cell_digits(bytes@, i as int) == old(out)@ + cell_digits(bytes@, 0),
        decreases count - i,
    {
        let ghost so_far = out@;
        let ghost rest = cell_digits(bytes@, i as int + 1);
        let word = match read_u32_be(bytes, 4 * i) {
            Ok(w) => w,
            Err(_) => 0,
        };
        push_hex(out, word as u64, 8);
        proof {
            assert(so_far + (hex_text(word as nat, 8) + rest) =~= out@ + rest);
        }
        i += 1;
    }
    proof {
        assert(out@ + Seq::<char>::empty() =~= out@);
    }
}

impl<'a> Cells<'a> {
    /// Returns the value as it is shown: `0x` and eight hexadecimal digits
    /// for each cell.
    pub fn to_string(&self) -> (r: String)
        ensures
            r@ == number_text(self@),
    {
        let mut out = String::new();
        out.append("0x");
        push_cell_digits(&mut out, self.as_bytes());
        assert(out@ =~= number_text(self@));
        out
    }
}

impl<'a> Reg<'a> {
    /// Returns the value as it is shown: the address and the size, with a
    /// space between them.
    pub fn to_string(&self) -> (r: String)
        ensures
            r@ == number_text(self.address@) + " "@ + number_text(self.size@),
    {
        let mut out = String::new();
        out.append("0x");
        push_cell_digits(&mut out, self.address.as_bytes());
        out.append(" ");
        out.append("0x");
        push_cell_digits(&mut out, self.size.as_bytes());
        assert(out@ =~= number_text(self.address@) + " "@ + number_text(self.size@));
        out
    }
}

impl<'a> Range<'a> {
    /// Returns the value as it is shown: the child bus address, the parent
    /// bus address and the length, with spaces between them.
    pub fn to_string(&self) -> (r: String)
        ensures
            r@ == number_text(self.child_bus_address@) + " "@ + number_text(
                self.parent_bus_address@,
            ) + " "@ + number_text(self.length@),
    {
        let mut out = String::new();
        out.append("0x");
        push_cell_digits(&mut out, self.child_bus_address.as_bytes());
        out.append(" ");
        out.append("0x");
        push_cell_digits(&mut out, self.parent_bus_address.as_bytes());
        out.append(" ");
        out.append("0x");
        push_cell_digits(&mut out, self.length.as_bytes());
        assert(out@ =~= number_text(self.child_bus_address@) + " "@ + number_text(
            self.parent_bus_address@,
        ) + " "@ + number_text(self.length@));
        out
    }
}

} // verus!
