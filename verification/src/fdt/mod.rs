//! A read-only view of a flattened device tree.
//!
//! [`Fdt`] borrows a byte buffer that holds a device tree blob. The whole
//! blob is checked once, when the view is made; after that every traversal
//! is infallible.

pub mod header;
pub mod node;
pub mod property;
pub mod structure;
pub mod tree;

use vstd::prelude::*;
use vstd::string::StringSliceAdditionalSpecFns;

use crate::error::{parse_error, FdtErrorKind, FdtParseError};
use crate::memreserve::{
    read_reservations, reservations_end, reservations_from, validate_reservations,
    MemoryReservation,
};
use crate::node::{find_by_path, lookup};
use crate::text::{cstr_bytes, cstr_ok};
use header::{
    header_check, header_of, rsvmap_start, strings_end, strings_start, struct_start,
    validate_header, FdtHeader,
};
use structure::{structure_check, validate_structure, Layout};

pub use crate::cells::Cells;
pub use node::FdtNode;
pub use property::FdtProperty;

verus! {

/// What the checks say of `blob`: `Ok` when it is a well-formed device tree
/// blob, and otherwise the first problem met. The header is checked first,
/// then the memory reservation block, then the structure block.
pub open spec fn blob_check(blob: Seq<u8>) -> Result<(), FdtParseError> {
    match header_check(blob) {
        Err(e) => Err(e),
        Ok(_) => match reservations_end(blob, rsvmap_start(blob)) {
            Err(e) => Err(e),
            Ok(_) => structure_check(blob),
        },
    }
}

/// The string that starts at offset `nameoff` of the strings block of
/// `blob`, as its UTF-8 bytes.
pub open spec fn string_at(blob: Seq<u8>, nameoff: int) -> Result<Seq<u8>, FdtParseError> {
    let start = strings_start(blob) + nameoff;
    if start >= strings_end(blob) {
        Err(parse_error(FdtErrorKind::InvalidOffset, nameoff))
    } else if !cstr_ok(blob, start, strings_end(blob)) {
        Err(parse_error(FdtErrorKind::InvalidString, start))
    } else {
        Ok(cstr_bytes(blob, start, strings_end(blob)))
    }
}

/// Whether `blob` is a well-formed device tree blob.
pub open spec fn blob_ok(blob: Seq<u8>) -> bool {
    blob_check(blob) is Ok
}

/// What holds of every blob that is accepted: its header gives the magic
/// number, a version range that holds the supported version, and the
/// length of the blob as its total size; the memory reservation block, the
/// structure block and the strings block lie inside the blob in this
/// order, the first aligned to eight bytes and the second to four; the
/// memory reservation block is terminated before the structure block, and
/// the structure block holds a single rooted tree, or no node at all.
pub proof fn lemma_accepted(blob: Seq<u8>)
    requires
        blob_ok(blob),
    ensures
        header_of(blob).magic == header::FDT_MAGIC,
        header_of(blob).totalsize == blob.len(),
        header_of(blob).last_comp_version <= header::FDT_VERSION <= header_of(blob).version,
        header_of(blob).off_mem_rsvmap <= header_of(blob).off_dt_struct <= header_of(
            blob,
        ).off_dt_strings,
        header_of(blob).off_dt_struct + header_of(blob).size_dt_struct <= header_of(
            blob,
        ).off_dt_strings,
        header_of(blob).off_dt_strings + header_of(blob).size_dt_strings <= header_of(
            blob,
        ).totalsize,
        header_of(blob).off_mem_rsvmap % 8 == 0,
        header_of(blob).off_dt_struct % 4 == 0,
        reservations_end(blob, rsvmap_start(blob)) is Ok,
        structure_check(blob) is Ok,
{
}

/// The start of the structure block of a well-formed blob is a place that
/// a node view can point to.
pub proof fn lemma_root_place(blob: Seq<u8>)
    requires
        blob_ok(blob),
    ensures
        node::node_place(blob, struct_start(blob)),
{
}

/// A flattened device tree.
#[derive(Debug, Clone, Copy)]
pub struct Fdt<'a> {
    pub(crate) data: &'a [u8],
}

impl<'a> View for Fdt<'a> {
    type V = Seq<u8>;

    /// The bytes of the blob.
    closed spec fn view(&self) -> Seq<u8> {
        self.data@
    }
}

impl<'a> Fdt<'a> {
    /// Every `Fdt` holds a blob that has passed all checks.
    #[verifier::type_invariant]
    pub closed spec fn inv(self) -> bool {
        blob_ok(self.data@)
    }

    /// Creates a new `Fdt` from the given byte slice.
    ///
    /// The blob is checked as [`blob_check`] describes, and the first
    /// problem is returned: the returned view exists exactly for well-formed
    /// blobs, and it is a view of the given bytes.
    pub fn new(data: &'a [u8]) -> (r: Result<Fdt<'a>, FdtParseError>)
        ensures
            match r {
                Ok(fdt) => blob_ok(data@) && fdt@ == data@,
                Err(e) => blob_check(data@) == Err::<(), FdtParseError>(e),
            },
    {
        let h = validate_header(data)?;
        let lay = Layout::of(&h);
        validate_reservations(data, h.off_mem_rsvmap as usize, lay.struct_start)?;
        validate_structure(data, &lay)?;
        Ok(Fdt { data })
    }

    /// Returns the underlying data slice of the FDT.
    pub fn data(&self) -> (r: &'a [u8])
        ensures
            r@ == self@,
    {
        self.data
    }

    /// Returns the header of the device tree.
    pub fn header(&self) -> (r: FdtHeader)
        ensures
            r == header_of(self@),
            blob_ok(self@),
    {
        proof {
            use_type_invariant(self);
        }
        match FdtHeader::parse(self.data) {
            Some(h) => h,
            None => FdtHeader {
                magic: 0,
                totalsize: 0,
                off_dt_struct: 0,
                off_dt_strings: 0,
                off_mem_rsvmap: 0,
                version: 0,
                last_comp_version: 0,
                boot_cpuid_phys: 0,
                size_dt_strings: 0,
                size_dt_struct: 0,
            },
        }
    }

    /// Returns the bounds of the structure and strings blocks.
    pub fn layout(&self) -> (r: Layout)
        ensures
            r.matches(self@),
            blob_ok(self@),
    {
        let h = self.header();
        Layout::of(&h)
    }

    /// Returns the version of the FDT.
    pub fn version(&self) -> (r: u32)
        ensures
            r == header_of(self@).version,
    {
        self.header().version
    }

    /// Returns the last compatible version of the FDT.
    pub fn last_comp_version(&self) -> (r: u32)
        ensures
            r == header_of(self@).last_comp_version,
    {
        self.header().last_comp_version
    }

    /// Returns the physical ID of the boot CPU.
    pub fn boot_cpuid_phys(&self) -> (r: u32)
        ensures
            r == header_of(self@).boot_cpuid_phys,
    {
        self.header().boot_cpuid_phys
    }

    /// Returns the root node of the device tree.
    ///
    /// A blob whose structure block holds no node has a root without a
    /// name, properties or children.
    pub fn root(&self) -> (r: FdtNode<'a>)
        ensures
            r == FdtNode::root_of(*self),
    {
        let lay = self.layout();
        FdtNode::new(*self, lay.struct_start)
    }

    /// Finds a node by its path.
    ///
    /// The path must begin with `/`, and `/` alone names the root. Each
    /// segment is looked up as [`crate::node::Node::child`] does it; empty
    /// segments are passed over. Returns `None` when the path names no
    /// node.
    pub fn find_node(&self, path: &str) -> (r: Option<FdtNode<'a>>)
        ensures
            r == lookup(FdtNode::root_of(*self), path.spec_bytes()),
    {
        find_by_path(self.root(), path)
    }

    /// Returns the string that starts at offset `nameoff` of the strings
    /// block, without its terminator.
    ///
    /// Fails with `InvalidOffset`, at the offset that was given, when the
    /// offset does not lie inside the strings block, and with
    /// `InvalidString`, at the offset of the string in the blob, when no
    /// terminated UTF-8 string starts there.
    pub fn string(&self, nameoff: usize) -> (r: Result<&'a str, FdtParseError>)
        ensures
            match r {
                Ok(s) => string_at(self@, nameoff as int) == Ok::<Seq<u8>, FdtParseError>(
                    s.spec_bytes(),
                ),
                Err(e) => string_at(self@, nameoff as int) == Err::<Seq<u8>, FdtParseError>(e),
            },
    {
        let lay = self.layout();
        if nameoff >= lay.strings_end - lay.strings_start {
            return Err(FdtParseError::new(FdtErrorKind::InvalidOffset, nameoff));
        }
        let start = lay.strings_start + nameoff;
        match structure::check_cstr(self.data, start, lay.strings_end) {
            Some(nul) => match crate::text::str_from_utf8(
                vstd::slice::slice_subrange(self.data, start, nul),
            ) {
                Some(s) => Ok(s),
                None => Err(FdtParseError::new(FdtErrorKind::InvalidString, start)),
            },
            None => Err(FdtParseError::new(FdtErrorKind::InvalidString, start)),
        }
    }

    /// Returns the memory reservations of the blob, in the order in which
    /// the blob lists them, without the terminating entry.
    pub fn memory_reservations(&self) -> (r: Vec<MemoryReservation>)
        ensures
            r@ == reservations_from(self@, rsvmap_start(self@)),
    {
        let h = self.header();
        read_reservations(self.data, h.off_mem_rsvmap as usize, h.off_dt_struct as usize)
    }
}

} // verus!
