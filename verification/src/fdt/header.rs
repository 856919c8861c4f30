//! The fixed header of a device tree blob and the layout of its blocks.

use vstd::prelude::*;

use crate::codec::{be32, read_u32_be};
use crate::error::{parse_error, FdtErrorKind, FdtParseError};

verus! {

/// The magic number that starts every device tree blob.
pub const FDT_MAGIC: u32 = 0xd00d_feed;

/// The version of the flattened format that this library reads and writes.
pub const FDT_VERSION: u32 = 17;

/// The oldest version that blobs written by this library are compatible with.
pub const FDT_LAST_COMP_VERSION: u32 = 16;

/// The size in bytes of the header.
pub const FDT_HEADER_SIZE: usize = 40;

/// The header of a device tree blob, decoded.
#[derive(Debug, Copy, Clone)]
pub struct FdtHeader {
    /// Magic number of the device tree.
    pub magic: u32,
    /// Total size of the device tree.
    pub totalsize: u32,
    /// Offset of the device tree structure.
    pub off_dt_struct: u32,
    /// Offset of the device tree strings.
    pub off_dt_strings: u32,
    /// Offset of the memory reservation map.
    pub off_mem_rsvmap: u32,
    /// Version of the device tree.
    pub version: u32,
    /// Last compatible version of the device tree.
    pub last_comp_version: u32,
    /// Physical ID of the boot CPU.
    pub boot_cpuid_phys: u32,
    /// Size of the device tree strings.
    pub size_dt_strings: u32,
    /// Size of the device tree structure.
    pub size_dt_struct: u32,
}

/// The header that the first forty bytes of `blob` spell out.
pub open spec fn header_of(blob: Seq<u8>) -> FdtHeader
    recommends
        blob.len() >= FDT_HEADER_SIZE,
{
    FdtHeader {
        magic: be32(blob, 0),
        totalsize: be32(blob, 4),
        off_dt_struct: be32(blob, 8),
        off_dt_strings: be32(blob, 12),
        off_mem_rsvmap: be32(blob, 16),
        version: be32(blob, 20),
        last_comp_version: be32(blob, 24),
        boot_cpuid_phys: be32(blob, 28),
        size_dt_strings: be32(blob, 32),
        size_dt_struct: be32(blob, 36),
    }
}

/// The offset of the first memory reservation entry.
pub open spec fn rsvmap_start(blob: Seq<u8>) -> int {
    be32(blob, 16) as int
}

/// The offset of the first byte of the structure block.
pub open spec fn struct_start(blob: Seq<u8>) -> int {
    be32(blob, 8) as int
}

/// The offset one past the last byte of the structure block.
pub open spec fn struct_end(blob: Seq<u8>) -> int {
    be32(blob, 8) as int + be32(blob, 36) as int
}

/// The offset of the first byte of the strings block.
pub open spec fn strings_start(blob: Seq<u8>) -> int {
    be32(blob, 12) as int
}

/// The offset one past the last byte of the strings block.
pub open spec fn strings_end(blob: Seq<u8>) -> int {
    be32(blob, 12) as int + be32(blob, 32) as int
}

/// What the header checks say of `blob`: `Ok` when the header is acceptable,
/// and otherwise the first failure, in the order in which the checks are
/// made, with the offset of the header field that failed.
pub open spec fn header_check(blob: Seq<u8>) -> Result<(), FdtParseError> {
    let h = header_of(blob);
    let len = blob.len() as int;
    if len < FDT_HEADER_SIZE {
        Err(parse_error(FdtErrorKind::InvalidLength, 0))
    } else if h.magic != FDT_MAGIC {
        Err(parse_error(FdtErrorKind::InvalidMagic, 0))
    } else if !(h.last_comp_version <= FDT_VERSION && FDT_VERSION <= h.version) {
        Err(parse_error(FdtErrorKind::UnsupportedVersion(h.version), 20))
    } else if h.totalsize != len {
        Err(parse_error(FdtErrorKind::InvalidLength, 4))
    } else if h.off_mem_rsvmap > h.off_dt_struct {
        Err(parse_error(FdtErrorKind::InvalidHeader("dt_struct not after memrsvmap"), 16))
    } else if h.off_dt_struct > len {
        Err(parse_error(FdtErrorKind::InvalidHeader("struct offset out of bounds"), 8))
    } else if h.off_dt_strings > len {
        Err(parse_error(FdtErrorKind::InvalidHeader("strings offset out of bounds"), 12))
    } else if h.off_dt_struct + h.size_dt_struct > len {
        Err(parse_error(FdtErrorKind::InvalidHeader("struct block overflows"), 36))
    } else if h.off_dt_strings + h.size_dt_strings > len {
        Err(parse_error(FdtErrorKind::InvalidHeader("strings block overflows"), 32))
    } else if h.off_dt_struct + h.size_dt_struct > h.off_dt_strings {
        Err(parse_error(FdtErrorKind::InvalidHeader("strings block not after struct block"), 12))
    } else if h.off_dt_struct % 4 != 0 {
        Err(parse_error(FdtErrorKind::InvalidHeader("struct block not aligned"), 8))
    } else if h.off_mem_rsvmap % 8 != 0 {
        Err(parse_error(FdtErrorKind::MemReserveInvalid, 16))
    } else {
        Ok(())
    }
}

impl FdtHeader {
    /// Decodes the header at the start of `data`.
    pub fn parse(data: &[u8]) -> (r: Option<FdtHeader>)
        ensures
            data@.len() < FDT_HEADER_SIZE ==> r is None,
            data@.len() >= FDT_HEADER_SIZE ==> r == Some(header_of(data@)),
    {
        if data.len() < FDT_HEADER_SIZE {
            return None;
        }
        let magic = field(data, 0);
        let totalsize = field(data, 4);
        let off_dt_struct = field(data, 8);
        let off_dt_strings = field(data, 12);
        let off_mem_rsvmap = field(data, 16);
        let version = field(data, 20);
        let last_comp_version = field(data, 24);
        let boot_cpuid_phys = field(data, 28);
        let size_dt_strings = field(data, 32);
        let size_dt_struct = field(data, 36);
        Some(
            FdtHeader {
                magic,
                totalsize,
                off_dt_struct,
                off_dt_strings,
                off_mem_rsvmap,
                version,
                last_comp_version,
                boot_cpuid_phys,
                size_dt_strings,
                size_dt_struct,
            },
        )
    }

    /// Returns the magic number.
    pub fn magic(&self) -> (r: u32)
        ensures
            r == self.magic,
    {
        self.magic
    }

    /// Returns the total size of the blob.
    pub fn totalsize(&self) -> (r: u32)
        ensures
            r == self.totalsize,
    {
        self.totalsize
    }

    /// Returns the offset of the structure block.
    pub fn off_dt_struct(&self) -> (r: u32)
        ensures
            r == self.off_dt_struct,
    {
        self.off_dt_struct
    }

    /// Returns the offset of the strings block.
    pub fn off_dt_strings(&self) -> (r: u32)
        ensures
            r == self.off_dt_strings,
    {
        self.off_dt_strings
    }

    /// Returns the offset of the memory reservation block.
    pub fn off_mem_rsvmap(&self) -> (r: u32)
        ensures
            r == self.off_mem_rsvmap,
    {
        self.off_mem_rsvmap
    }

    /// Returns the version of the blob.
    pub fn version(&self) -> (r: u32)
        ensures
            r == self.version,
    {
        self.version
    }

    /// Returns the last version that the blob is compatible with.
    pub fn last_comp_version(&self) -> (r: u32)
        ensures
            r == self.last_comp_version,
    {
        self.last_comp_version
    }

    /// Returns the physical ID of the boot CPU.
    pub fn boot_cpuid_phys(&self) -> (r: u32)
        ensures
            r == self.boot_cpuid_phys,
    {
        self.boot_cpuid_phys
    }

    /// Returns the size of the strings block.
    pub fn size_dt_strings(&self) -> (r: u32)
        ensures
            r == self.size_dt_strings,
    {
        self.size_dt_strings
    }

    /// Returns the size of the structure block.
    pub fn size_dt_struct(&self) -> (r: u32)
        ensures
            r == self.size_dt_struct,
    {
        self.size_dt_struct
    }
}

/// Reads the header field at `off`, which lies inside the header.
fn field(data: &[u8], off: usize) -> (r: u32)
    requires
        data@.len() >= FDT_HEADER_SIZE,
        off + 4 <= FDT_HEADER_SIZE,
    ensures
        r == be32(data@, off as int),
{
    match read_u32_be(data, off) {
        Ok(v) => v,
        Err(_) => 0,
    }
}

/// Checks the header of `data`.
///
/// The checks are made in a fixed order and the first failure is reported:
/// the length of the buffer, the magic number, the version range, the total
/// size, the order and bounds of the three blocks, and their alignment.
pub fn validate_header(data: &[u8]) -> (r: Result<FdtHeader, FdtParseError>)
    ensures
        r is Ok ==> header_check(data@) is Ok && r->Ok_0 == header_of(data@),
        r is Err ==> header_check(data@) == Err::<(), FdtParseError>(r->Err_0),
{
    let h = match FdtHeader::parse(data) {
        Some(h) => h,
        None => {
            return Err(FdtParseError::new(FdtErrorKind::InvalidLength, 0));
        },
    };
    if h.magic != FDT_MAGIC {
        return Err(FdtParseError::new(FdtErrorKind::InvalidMagic, 0));
    }
    if !(h.last_comp_version <= FDT_VERSION && FDT_VERSION <= h.version) {
        return Err(FdtParseError::new(FdtErrorKind::UnsupportedVersion(h.version), 20));
    }
    let len = data.len();
    if h.totalsize as usize != len {
        return Err(FdtParseError::new(FdtErrorKind::InvalidLength, 4));
    }
    if h.off_mem_rsvmap > h.off_dt_struct {
        return Err(
            FdtParseError::new(FdtErrorKind::InvalidHeader("dt_struct not after memrsvmap"), 16),
        );
    }
    if h.off_dt_struct > h.totalsize {
        return Err(
            FdtParseError::new(FdtErrorKind::InvalidHeader("struct offset out of bounds"), 8),
        );
    }
    if h.off_dt_strings > h.totalsize {
        return Err(
            FdtParseError::new(FdtErrorKind::InvalidHeader("strings offset out of bounds"), 12),
        );
    }
    if h.size_dt_struct > h.totalsize - h.off_dt_struct {
        return Err(FdtParseError::new(FdtErrorKind::InvalidHeader("struct block overflows"), 36));
    }
    if h.size_dt_strings > h.totalsize - h.off_dt_strings {
        return Err(FdtParseError::new(FdtErrorKind::InvalidHeader("strings block overflows"), 32));
    }
    if h.off_dt_struct + h.size_dt_struct > h.off_dt_strings {
        return Err(
            FdtParseError::new(
                FdtErrorKind::InvalidHeader("strings block not after struct block"),
                12,
            ),
        );
    }
    if h.off_dt_struct % 4 != 0 {
        return Err(FdtParseError::new(FdtErrorKind::InvalidHeader("struct block not aligned"), 8));
    }
    if h.off_mem_rsvmap % 8 != 0 {
        return Err(FdtParseError::new(FdtErrorKind::MemReserveInvalid, 16));
    }
    Ok(h)
}

} // verus!
