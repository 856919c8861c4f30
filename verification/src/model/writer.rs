//! Writing an owned device tree to a flattened blob.
//!
//! The tree is written in two passes. The first walks the tree, adds up
//! the sizes of the blocks and enters every property name into the string
//! table; the second writes the header, the memory reservations, the
//! structure block and the strings block into a buffer of the size that
//! the first pass found. What is written is [`dtb_image`].

use vstd::prelude::*;
use vstd::string::StringSliceAdditionalSpecFns;

use crate::codec::{align4, be32_bytes, be_u32_array, be_u64_array, lemma_align4, padding};
use crate::fdt::header::{FDT_LAST_COMP_VERSION, FDT_MAGIC, FDT_VERSION, FdtHeader};
use crate::fdt::structure::{FDT_BEGIN_NODE, FDT_END, FDT_END_NODE, FDT_PROP};
use crate::memreserve::MemoryReservation;
use crate::model::image::{
    begin_image, children_image, children_names, children_size, covers, dtb_fits, dtb_image,
    header_image, intern, intern_all, lemma_covers_concat, lemma_intern_all,
    lemma_intern_all_concat, lemma_sizes, lemma_table_size, name_offset, node_image, node_names,
    node_size, padding_after, plan_of, position, prop_image, prop_size, property_names,
    props_image, props_size, reservation_image, reservations_image, string_table, strings_image,
    struct_image, table_size, zeros,
};
use crate::model::node::{node_views, property_views, DeviceTreeNode};
use crate::model::property::DeviceTreeProperty;
use crate::model::tree::DeviceTree;
use crate::property::texts;
use crate::text::str_eq;

verus! {

/// The largest length of a property value that can be written.
pub const MAX_VALUE_LEN: usize = 0xffff_fff0;

/// The table of the property names of a tree, each with the offset at
/// which it will stand in the strings block. Names are entered in the
/// order in which they are first seen.
pub struct StringMap<'a> {
    names: Vec<&'a str>,
    offsets: Vec<u32>,
    next_offset: u32,
}

impl<'a> View for StringMap<'a> {
    type V = Seq<Seq<u8>>;

    /// The names that were entered, as UTF-8 bytes, in the order in which
    /// they were entered.
    closed spec fn view(&self) -> Seq<Seq<u8>> {
        texts(self.names@)
    }
}

impl<'a> StringMap<'a> {
    /// Whether the offsets that the table holds are those of its names in
    /// the strings block.
    pub closed spec fn wf(&self) -> bool {
        &&& self.offsets@.len() == self.names@.len()
        &&& forall|i: int|
            0 <= i < self.offsets@.len() ==> #[trigger] self.offsets@[i] == table_size(self@, i)
        &&& self.next_offset == table_size(self@, self@.len() as int)
    }

    /// Creates an empty table.
    pub fn new() -> (r: StringMap<'a>)
        ensures
            r.wf(),
            r@ == Seq::<Seq<u8>>::empty(),
    {
        let r = StringMap { names: Vec::new(), offsets: Vec::new(), next_offset: 0 };
        assert(r@ =~= Seq::<Seq<u8>>::empty());
        r
    }

    /// Returns the size of the strings block for the names entered so far.
    pub fn size(&self) -> (r: u32)
        requires
            self.wf(),
        ensures
            r == table_size(self@, self@.len() as int),
    {
        self.next_offset
    }

    /// Returns the index of `key` in the table, or the number of names when
    /// the table does not hold it.
    fn find(&self, key: &str) -> (r: usize)
        ensures
            r == position(self@, key.spec_bytes(), 0),
            r <= self@.len(),
            self@.len() == self.names@.len(),
    {
        let mut i: usize = 0;
        while i < self.names.len()
            invariant
                i <= self.names@.len(),
                self@.len() == self.names@.len(),
                position(self@, key.spec_bytes(), 0) == position(self@, key.spec_bytes(), i as int),
            decreases self.names@.len() - i,
        {
            if str_eq(self.names[i], key) {
                return i;
            }
            i += 1;
        }
        i
    }

    /// Enters `key` into the table, unless the table holds it already.
    ///
    /// Returns `false`, and leaves the table as it is, when the strings
    /// block with the new name would be larger than `u32::MAX` bytes.
    pub fn insert(&mut self, key: &'a str) -> (ok: bool)
        requires
            old(self).wf(),
        ensures
            final(self).wf(),
            ok ==> final(self)@ == intern(old(self)@, key.spec_bytes()),
            !ok ==> final(self)@ == old(self)@ && table_size(
                intern(old(self)@, key.spec_bytes()),
                intern(old(self)@, key.spec_bytes()).len() as int,
            ) > u32::MAX,
    {
        let at = self.find(key);
        if at < self.names.len() {
            return true;
        }
        let ghost before = self@;
        let ghost after = before.push(key.spec_bytes());
        let len = key.as_bytes().len();
        proof {
            lemma_table_size(after, before, before.len() as int, before.len() as int);
            assert(table_size(after, after.len() as int) == table_size(after, before.len() as int)
                + key.spec_bytes().len() + 1);
        }
        if len >= u32::MAX as usize || len + 1 > (u32::MAX - self.next_offset) as usize {
            return false;
        }
        let offset = self.next_offset;
        self.names.push(key);
        self.offsets.push(offset);
        self.next_offset = offset + (len as u32 + 1);
        proof {
            assert(self@ =~= after);
            assert(self.offsets@.len() == self.names@.len());
            assert forall|i: int| 0 <= i < self.offsets@.len() implies #[trigger] self.offsets@[i]
                == table_size(self@, i) by {
                if i < before.len() {
                    assert(old(self).offsets@[i] == table_size(before, i));
                    lemma_table_size(after, before, i, i);
                }
            }
            assert(self.next_offset == table_size(self@, self@.len() as int));
        }
        true
    }

    /// Returns the offset in the strings block of `key`, which the table
    /// holds.
    pub fn get_offset(&self, key: &str) -> (r: u32)
        requires
            self.wf(),
            position(self@, key.spec_bytes(), 0) < self@.len(),
        ensures
            r == name_offset(self@, key.spec_bytes()),
    {
        let at = self.find(key);
        self.offsets[at]
    }

    /// Writes the strings block to `dtb`: the names in the order in which
    /// they were entered, each followed by a zero byte.
    pub fn write_string_block(&self, dtb: &mut Vec<u8>)
        ensures
            final(dtb)@ == old(dtb)@ + strings_image(self@, self@.len() as int),
    {
        let mut i: usize = 0;
        assert(dtb@ =~= old(dtb)@ + strings_image(self@, 0));
        while i < self.names.len()
            invariant
                i <= self.names@.len(),
                self@.len() == self.names@.len(),
                dtb@ == old(dtb)@ + strings_image(self@, i as int),
            decreases self.names@.len() - i,
        {
            let ghost so_far = dtb@;
            dtb.extend_from_slice(self.names[i].as_bytes());
            dtb.push(0);
            i += 1;
            proof {
                assert(dtb@ =~= so_far + self@[i - 1] + seq![0u8]);
                assert(dtb@ =~= old(dtb)@ + strings_image(self@, i as int));
            }
        }
    }
}

/// Adds `more` to `acc` when the sum is at most `u32::MAX`.
fn add_size(acc: usize, more: usize) -> (r: Option<usize>)
    requires
        acc <= u32::MAX,
    ensures
        r is Some <==> acc + more <= u32::MAX,
        r is Some ==> r->0 == acc + more,
{
    if more > u32::MAX as usize - acc {
        None
    } else {
        Some(acc + more)
    }
}

/// Appends `bytes` to `dtb`.
fn append(dtb: &mut Vec<u8>, bytes: &[u8])
    ensures
        final(dtb)@ == old(dtb)@ + bytes@,
{
    dtb.extend_from_slice(bytes);
    assert(dtb@ =~= old(dtb)@ + bytes@);
}

/// Appends the big-endian bytes of `word` to `dtb`.
fn append_u32(dtb: &mut Vec<u8>, word: u32)
    ensures
        final(dtb)@ == old(dtb)@ + be32_bytes(word),
{
    let bytes = be_u32_array(word);
    append(dtb, bytes.as_slice());
}

/// The name at index `k` of the names of the properties from `from` on is
/// the name of the property at index `from + k`.
proof fn lemma_property_names(props: Seq<crate::fdt::tree::PropertyView>, from: int)
    requires
        0 <= from <= props.len(),
    ensures
        property_names(props, from).len() == props.len() - from,
        forall|k: int|
            0 <= k < props.len() - from ==> #[trigger] property_names(props, from)[k] == props[from
                + k].name,
    decreases props.len() - from,
{
    if from < props.len() {
        lemma_property_names(props, from + 1);
        let rest = property_names(props, from + 1);
        assert forall|k: int| 0 <= k < props.len() - from implies #[trigger] property_names(
            props,
            from,
        )[k] == props[from + k].name by {
            if k > 0 {
                assert(property_names(props, from)[k] == rest[k - 1]);
            }
        }
    }
}

impl DeviceTree {
    /// Serializes the [`DeviceTree`] to a flattened device tree blob.
    ///
    /// The blob is [`dtb_image`] of the tree. The tree must fit: no blob is
    /// larger than `u32::MAX` bytes, see [`DeviceTree::try_to_dtb`].
    pub fn to_dtb(&self) -> (r: Vec<u8>)
        requires
            dtb_fits(self@),
        ensures
            r@ == dtb_image(self@),
    {
        match self.try_to_dtb() {
            Some(dtb) => dtb,
            None => Vec::new(),
        }
    }

    /// Serializes the [`DeviceTree`] to a flattened device tree blob, or
    /// returns `None` when the blob would be larger than `u32::MAX` bytes.
    pub fn try_to_dtb(&self) -> (r: Option<Vec<u8>>)
        ensures
            r is Some <==> dtb_fits(self@),
            r is Some ==> r->0@ == dtb_image(self@),
    {
        let mut string_map = StringMap::new();
        let header = match self.generate_header(&mut string_map) {
            Some(h) => h,
            None => {
                return None;
            },
        };
        let mut dtb: Vec<u8> = Vec::with_capacity(header.totalsize as usize);
        Self::write_header(&mut dtb, &header);
        Self::write_memory_reservations(&mut dtb, self.memory_reservations.as_slice());
        proof {
            lemma_intern_all(Seq::empty(), node_names(self@.root));
            lemma_sizes(self@.root, 0);
        }
        Self::write_root(&mut dtb, &string_map, &self.root);
        string_map.write_string_block(&mut dtb);
        assert(dtb@ =~= dtb_image(self@));
        Some(dtb)
    }

    /// Calculates the sizes of all blocks and enters every property name
    /// into `string_map`, and returns the header of the blob, or `None`
    /// when the blob would be larger than `u32::MAX` bytes.
    pub fn generate_header<'a>(&'a self, string_map: &mut StringMap<'a>) -> (r: Option<FdtHeader>)
        requires
            old(string_map).wf(),
            old(string_map)@ == Seq::<Seq<u8>>::empty(),
        ensures
            r is Some <==> dtb_fits(self@),
            r is Some ==> r->0 == plan_of(self@).header(),
            r is Some ==> final(string_map).wf(),
            r is Some ==> final(string_map)@ == string_table(self@.root),
    {
        proof {
            lemma_sizes(self@.root, 0);
            lemma_intern_all(Seq::empty(), node_names(self@.root));
            let table = string_table(self@.root);
            lemma_table_size(table, table, 0, table.len() as int);
        }
        let count = self.memory_reservations.len();
        if count >= (u32::MAX / 16 - 3) as usize {
            return None;
        }
        // entries + terminator
        let mem_reservations_size = (count + 1) * 16;
        let node_size = match Self::calculate_node_size(string_map, &self.root) {
            Some(size) => size,
            None => {
                return None;
            },
        };
        // + 4 for FDT_END
        let dt_struct_size = match add_size(node_size, 4) {
            Some(size) => size,
            None => {
                return None;
            },
        };
        let dt_strings_size = string_map.size() as usize;
        let off_mem_rsvmap: usize = 40;
        let off_dt_struct = off_mem_rsvmap + mem_reservations_size;
        let off_dt_strings = match add_size(off_dt_struct, dt_struct_size) {
            Some(size) => size,
            None => {
                return None;
            },
        };
        let totalsize = match add_size(off_dt_strings, dt_strings_size) {
            Some(size) => size,
            None => {
                return None;
            },
        };
        Some(
            FdtHeader {
                magic: FDT_MAGIC,
                totalsize: totalsize as u32,
                off_dt_struct: off_dt_struct as u32,
                off_dt_strings: off_dt_strings as u32,
                off_mem_rsvmap: off_mem_rsvmap as u32,
                version: FDT_VERSION,
                last_comp_version: FDT_LAST_COMP_VERSION,
                boot_cpuid_phys: 0,
                size_dt_strings: dt_strings_size as u32,
                size_dt_struct: dt_struct_size as u32,
            },
        )
    }

    /// Calculates the size of what `node` is written as, and enters the
    /// names of all properties below it into `string_map`.
    ///
    /// Returns `None` when that size, or the size of the strings block with
    /// these names, is larger than `u32::MAX`.
    pub fn calculate_node_size<'a>(string_map: &mut StringMap<'a>, node: &'a DeviceTreeNode) -> (r:
        Option<usize>)
        requires
            old(string_map).wf(),
        ensures
            final(string_map).wf(),
            match r {
                Some(size) => size == node_size(node@) && size <= u32::MAX && final(string_map)@
                    == intern_all(old(string_map)@, node_names(node@)),
                None => node_size(node@) > u32::MAX || table_size(
                    intern_all(old(string_map)@, node_names(node@)),
                    intern_all(old(string_map)@, node_names(node@)).len() as int,
                ) > u32::MAX,
            },
        decreases node,
    {
        let ghost start = string_map@;
        let ghost goal = intern_all(start, node_names(node@));
        let ghost below = children_names(node@, 0);
        proof {
            lemma_sizes(node@, 0);
            lemma_align4(node@.name.len() as int + 1);
        }
        // FDT_BEGIN_NODE, the name with its terminator, and padding
        let name_len = node.name().as_bytes().len();
        proof {
            assert(node_size(node@) == 4 + align4(node@.name.len() as int + 1) + props_size(
                node@.properties,
                0,
            ) + children_size(node@, 0) + 4);
        }
        if name_len >= u32::MAX as usize {
            return None;
        }
        let mut size: usize = match add_size(4, name_len + 1) {
            Some(s) => s,
            None => {
                return None;
            },
        };
        size = match add_size(size, padding(name_len + 1)) {
            Some(s) => s,
            None => {
                return None;
            },
        };

        let props = node.properties();
        let mut i: usize = 0;
        proof {
            assert(property_names(node@.properties, 0) + below =~= node_names(node@));
        }
        while i < props.len()
            invariant
                i <= props@.len(),
                string_map.wf(),
                property_views(props@) == node@.properties,
                start == old(string_map)@,
                goal == intern_all(start, node_names(node@)),
                below == children_names(node@, 0),
                intern_all(string_map@, property_names(node@.properties, i as int) + below)
                    == goal,
                size <= u32::MAX,
                size + props_size(node@.properties, i as int) + children_size(node@, 0) + 4
                    == node_size(node@),
                children_size(node@, 0) >= 0,
            decreases props@.len() - i,
        {
            proof {
                let names = property_names(node@.properties, i as int) + below;
                let rest = property_names(node@.properties, i as int + 1) + below;
                assert(names[0] == node@.properties[i as int].name);
                assert(names.drop_first() =~= rest);
                lemma_intern_all(intern(string_map@, names[0]), rest);
                crate::model::image::lemma_props_size(node@.properties, i as int + 1);
                lemma_align4(node@.properties[i as int].value.len() as int);
                assert(props@[i as int]@ == node@.properties[i as int]);
            }
            let ghost entered = intern(string_map@, node@.properties[i as int].name);
            let prop_size = match Self::calculate_prop_size(string_map, &props[i]) {
                Some(s) => s,
                None => {
                    proof {
                        assert(prop_size(node@.properties[i as int]) > u32::MAX || table_size(
                            entered,
                            entered.len() as int,
                        ) > u32::MAX);
                        assert(table_size(entered, entered.len() as int) <= table_size(
                            goal,
                            goal.len() as int,
                        ));
                        assert(props_size(node@.properties, i as int) >= prop_size(
                            node@.properties[i as int],
                        ));
                    }
                    return None;
                },
            };
            size = match add_size(size, prop_size) {
                Some(s) => s,
                None => {
                    return None;
                },
            };
            i += 1;
        }

        let children = node.children();
        let mut j: usize = 0;
        proof {
            assert(property_names(node@.properties, props@.len() as int) + below =~= below);
        }
        while j < children.len()
            invariant
                j <= children@.len(),
                string_map.wf(),
                node_views(children@) == node@.children,
                forall|k: int| 0 <= k < children@.len() ==> decreases_to!(node => #[trigger] children@[k]),
                start == old(string_map)@,
                goal == intern_all(start, node_names(node@)),
                intern_all(string_map@, children_names(node@, j as int)) == goal,
                size <= u32::MAX,
                size + children_size(node@, j as int) + 4 == node_size(node@),
            decreases children@.len() - j,
        {
            proof {
                let first = node_names(node@.children[j as int]);
                let rest = children_names(node@, j as int + 1);
                lemma_intern_all_concat(string_map@, first, rest);
                lemma_intern_all(intern_all(string_map@, first), rest);
                crate::model::image::lemma_children_size(node@, j as int + 1);
                lemma_sizes(node@.children[j as int], 0);
                assert(children@[j as int]@ == node@.children[j as int]);
            }
            let ghost entered = intern_all(string_map@, node_names(node@.children[j as int]));
            let child_size = match Self::calculate_node_size(string_map, &children[j]) {
                Some(s) => s,
                None => {
                    proof {
                        assert(node_size(node@.children[j as int]) > u32::MAX || table_size(
                            entered,
                            entered.len() as int,
                        ) > u32::MAX);
                        assert(table_size(entered, entered.len() as int) <= table_size(
                            goal,
                            goal.len() as int,
                        ));
                        assert(children_size(node@, j as int) >= node_size(
                            node@.children[j as int],
                        ));
                    }
                    return None;
                },
            };
            size = match add_size(size, child_size) {
                Some(s) => s,
                None => {
                    return None;
                },
            };
            j += 1;
        }
        // FDT_END_NODE
        add_size(size, 4)
    }

    /// Calculates the size of what `prop` is written as, and enters its
    /// name into `string_map`.
    ///
    /// Returns `None` when that size, or the size of the strings block with
    /// the name, is larger than `u32::MAX`.
    pub fn calculate_prop_size<'a>(string_map: &mut StringMap<'a>, prop: &'a DeviceTreeProperty) -> (r:
        Option<usize>)
        requires
            old(string_map).wf(),
        ensures
            final(string_map).wf(),
            match r {
                Some(size) => size == prop_size(prop@) && size <= u32::MAX && final(string_map)@
                    == intern(old(string_map)@, prop@.name),
                None => prop_size(prop@) > u32::MAX || table_size(
                    intern(old(string_map)@, prop@.name),
                    intern(old(string_map)@, prop@.name).len() as int,
                ) > u32::MAX,
            },
    {
        let len = prop.value().len();
        proof {
            lemma_align4(len as int);
        }
        if len > MAX_VALUE_LEN {
            return None;
        }
        // ensure the name is in the map
        if !string_map.insert(prop.name()) {
            return None;
        }
        // FDT_PROP, len, nameoff, and the value with its padding
        Some(12 + len + padding(len))
    }

    /// Writes the header to `dtb`.
    fn write_header(dtb: &mut Vec<u8>, header: &FdtHeader)
        ensures
            final(dtb)@ == old(dtb)@ + header_image(*header),
    {
        append_u32(dtb, header.magic);
        append_u32(dtb, header.totalsize);
        append_u32(dtb, header.off_dt_struct);
        append_u32(dtb, header.off_dt_strings);
        append_u32(dtb, header.off_mem_rsvmap);
        append_u32(dtb, header.version);
        append_u32(dtb, header.last_comp_version);
        append_u32(dtb, header.boot_cpuid_phys);
        append_u32(dtb, header.size_dt_strings);
        append_u32(dtb, header.size_dt_struct);
        assert(dtb@ =~= old(dtb)@ + header_image(*header));
    }

    /// Writes one memory reservation to `dtb`.
    fn write_reservation(dtb: &mut Vec<u8>, entry: &MemoryReservation)
        ensures
            final(dtb)@ == old(dtb)@ + reservation_image(*entry),
    {
        let address = be_u64_array(entry.address);
        append(dtb, address.as_slice());
        let size = be_u64_array(entry.size);
        append(dtb, size.as_slice());
        assert(dtb@ =~= old(dtb)@ + reservation_image(*entry));
    }

    /// Writes the memory reservations to `dtb`, and the terminating entry
    /// after them.
    pub fn write_memory_reservations(dtb: &mut Vec<u8>, reservations: &[MemoryReservation])
        ensures
            final(dtb)@ == old(dtb)@ + reservations_image(reservations@, 0),
    {
        let mut i: usize = 0;
        while i < reservations.len()
            invariant
                i <= reservations@.len(),
                dtb@ + reservations_image(reservations@, i as int) == old(dtb)@
                    + reservations_image(reservations@, 0),
            decreases reservations@.len() - i,
        {
            let ghost so_far = dtb@;
            Self::write_reservation(dtb, &reservations[i]);
            proof {
                let rest = reservations_image(reservations@, i as int + 1);
                assert(so_far + (reservation_image(reservations@[i as int]) + rest) =~= dtb@
                    + rest);
            }
            i += 1;
        }
        let ghost so_far = dtb@;
        Self::write_reservation(dtb, &MemoryReservation { address: 0, size: 0 });
        assert(dtb@ =~= so_far + reservations_image(reservations@, reservations@.len() as int));
    }

    /// Writes the structure block to `dtb`: the root node and the `END`
    /// token.
    pub fn write_root(dtb: &mut Vec<u8>, string_map: &StringMap<'_>, root_node: &DeviceTreeNode)
        requires
            string_map.wf(),
            covers(string_map@, node_names(root_node@)),
            node_size(root_node@) <= u32::MAX,
        ensures
            final(dtb)@ == old(dtb)@ + struct_image(root_node@, string_map@),
    {
        Self::write_node(dtb, string_map, root_node);
        append_u32(dtb, FDT_END);
        assert(dtb@ =~= old(dtb)@ + struct_image(root_node@, string_map@));
    }

    /// Writes `node` with everything below it to `dtb`.
    pub fn write_node(dtb: &mut Vec<u8>, string_map: &StringMap<'_>, node: &DeviceTreeNode)
        requires
            string_map.wf(),
            covers(string_map@, node_names(node@)),
            node_size(node@) <= u32::MAX,
        ensures
            final(dtb)@ == old(dtb)@ + node_image(node@, string_map@),
        decreases node,
    {
        let ghost table = string_map@;
        proof {
            lemma_sizes(node@, 0);
            lemma_align4(node@.name.len() as int + 1);
            lemma_covers_concat(
                table,
                property_names(node@.properties, 0),
                children_names(node@, 0),
            );
            lemma_property_names(node@.properties, 0);
        }
        append_u32(dtb, FDT_BEGIN_NODE);
        let name = node.name().as_bytes();
        append(dtb, name);
        dtb.push(0);
        Self::pad(dtb, name.len() + 1);
        assert(dtb@ =~= old(dtb)@ + begin_image(node@.name));
        let ghost begun = dtb@;

        let props = node.properties();
        let mut i: usize = 0;
        while i < props.len()
            invariant
                i <= props@.len(),
                string_map.wf(),
                table == string_map@,
                property_views(props@) == node@.properties,
                covers(table, property_names(node@.properties, 0)),
                property_names(node@.properties, 0).len() == node@.properties.len(),
                forall|k: int|
                    0 <= k < node@.properties.len() ==> #[trigger] property_names(
                        node@.properties,
                        0,
                    )[k] == node@.properties[k].name,
                0 <= props_size(node@.properties, i as int) <= u32::MAX,
                dtb@ + props_image(node@.properties, table, i as int) == begun + props_image(
                    node@.properties,
                    table,
                    0,
                ),
            decreases props@.len() - i,
        {
            let ghost so_far = dtb@;
            proof {
                crate::model::image::lemma_props_size(node@.properties, i as int + 1);
                lemma_align4(node@.properties[i as int].value.len() as int);
                assert(props@[i as int]@ == node@.properties[i as int]);
                assert(property_names(node@.properties, 0)[i as int] == node@.properties[i as int].name);
            }
            Self::write_prop(dtb, string_map, &props[i]);
            proof {
                let rest = props_image(node@.properties, table, i as int + 1);
                assert(so_far + (prop_image(node@.properties[i as int], table) + rest) =~= dtb@
                    + rest);
            }
            i += 1;
        }
        proof {
            assert(dtb@ + Seq::<u8>::empty() =~= dtb@);
        }
        let ghost propped = dtb@;

        let children = node.children();
        let mut j: usize = 0;
        while j < children.len()
            invariant
                j <= children@.len(),
                string_map.wf(),
                table == string_map@,
                node_views(children@) == node@.children,
                forall|k: int| 0 <= k < children@.len() ==> decreases_to!(node => #[trigger] children@[k]),
                covers(table, children_names(node@, j as int)),
                0 <= children_size(node@, j as int) <= u32::MAX,
                dtb@ + children_image(node@, table, j as int) == propped + children_image(
                    node@,
                    table,
                    0,
                ),
            decreases children@.len() - j,
        {
            let ghost so_far = dtb@;
            proof {
                lemma_covers_concat(
                    table,
                    node_names(node@.children[j as int]),
                    children_names(node@, j as int + 1),
                );
                crate::model::image::lemma_children_size(node@, j as int + 1);
                lemma_sizes(node@.children[j as int], 0);
                assert(children@[j as int]@ == node@.children[j as int]);
            }
            Self::write_node(dtb, string_map, &children[j]);
            proof {
                let rest = children_image(node@, table, j as int + 1);
                assert(so_far + (node_image(node@.children[j as int], table) + rest) =~= dtb@
                    + rest);
            }
            j += 1;
        }
        proof {
            assert(dtb@ + Seq::<u8>::empty() =~= dtb@);
        }
        append_u32(dtb, FDT_END_NODE);
        assert(dtb@ =~= old(dtb)@ + node_image(node@, table));
    }

    /// Writes `prop` to `dtb`.
    pub fn write_prop(dtb: &mut Vec<u8>, string_map: &StringMap<'_>, prop: &DeviceTreeProperty)
        requires
            string_map.wf(),
            position(string_map@, prop@.name, 0) < string_map@.len(),
            prop@.value.len() <= u32::MAX,
        ensures
            final(dtb)@ == old(dtb)@ + prop_image(prop@, string_map@),
    {
        let name_offset = string_map.get_offset(prop.name());
        let value = prop.value();
        append_u32(dtb, FDT_PROP);
        append_u32(dtb, value.len() as u32);
        append_u32(dtb, name_offset);
        append(dtb, value);
        Self::pad(dtb, value.len());
        assert(dtb@ =~= old(dtb)@ + prop_image(prop@, string_map@));
    }

    /// Writes the zero bytes that fill `len` bytes up to a multiple of
    /// four.
    fn pad(dtb: &mut Vec<u8>, len: usize)
        ensures
            final(dtb)@ == old(dtb)@ + padding_after(len as int),
    {
        let count = padding(len);
        let mut i: usize = 0;
        assert(dtb@ =~= old(dtb)@ + zeros(0));
        while i < count
            invariant
                i <= count,
                dtb@ == old(dtb)@ + zeros(i as int),
            decreases count - i,
        {
            dtb.push(0);
            i += 1;
            assert(dtb@ =~= old(dtb)@ + zeros(i as int));
        }
    }
}

} // verus!
