//! Device tree memory reservations.

use vstd::prelude::*;

use crate::codec::{be64, read_u64_be};
use crate::error::{parse_error, FdtErrorKind, FdtParseError};
use crate::fdt::header::struct_start;

verus! {

/// The size in bytes of one entry of the memory reservation block.
pub const MEM_RESERVATION_SIZE: usize = 16;

/// A 64-bit memory reservation.
#[derive(Debug, Clone, Copy, PartialEq, Eq, PartialOrd, Ord, Hash)]
pub struct MemoryReservation {
    /// The physical address of the reserved memory region.
    pub address: u64,
    /// The size of the reserved memory region.
    pub size: u64,
}

impl MemoryReservation {
    /// Creates a new [`MemoryReservation`].
    pub fn new(address: u64, size: u64) -> (r: MemoryReservation)
        ensures
            r == (MemoryReservation { address, size }),
    {
        MemoryReservation { address, size }
    }

    /// Returns the physical address of the reserved memory region.
    pub fn address(&self) -> (r: u64)
        ensures
            r == self.address,
    {
        self.address
    }

    /// Returns the size of the reserved memory region.
    pub fn size(&self) -> (r: u64)
        ensures
            r == self.size,
    {
        self.size
    }

    /// Whether this is the entry that ends the memory reservation block.
    pub open spec fn is_terminator(&self) -> bool {
        self.address == 0 && self.size == 0
    }
}

/// The entry of the memory reservation block that is stored at `off`.
pub open spec fn reservation_at(blob: Seq<u8>, off: int) -> MemoryReservation {
    MemoryReservation { address: be64(blob, off), size: be64(blob, off + 8) }
}

/// Looks for the terminating entry of the memory reservation block, in
/// strides of sixteen bytes from `off`, and returns its offset.
///
/// Fails with `MemReserveNotTerminated`, at the offset of the entry
/// concerned, when an entry would reach past the start of the structure
/// block before a terminator was met.
pub open spec fn reservations_end(blob: Seq<u8>, off: int) -> Result<int, FdtParseError>
    decreases struct_start(blob) - off,
{
    if off < 0 || off + 16 > struct_start(blob) {
        Err(parse_error(FdtErrorKind::MemReserveNotTerminated, off))
    } else if reservation_at(blob, off).is_terminator() {
        Ok(off)
    } else {
        reservations_end(blob, off + 16)
    }
}

/// The entries of the memory reservation block from `off` up to the
/// terminating entry, which is left out.
pub open spec fn reservations_from(blob: Seq<u8>, off: int) -> Seq<MemoryReservation>
    decreases struct_start(blob) - off,
{
    if off < 0 || off + 16 > struct_start(blob) || reservation_at(blob, off).is_terminator() {
        Seq::empty()
    } else {
        seq![reservation_at(blob, off)] + reservations_from(blob, off + 16)
    }
}

/// Reads the entry at `off`, which must lie inside `limit`.
fn read_reservation(data: &[u8], off: usize, limit: usize) -> (r: MemoryReservation)
    requires
        off + 16 <= limit <= data@.len(),
    ensures
        r == reservation_at(data@, off as int),
{
    let address = match read_u64_be(data, off) {
        Ok(v) => v,
        Err(_) => 0,
    };
    let size = match read_u64_be(data, off + 8) {
        Ok(v) => v,
        Err(_) => 0,
    };
    MemoryReservation { address, size }
}

/// Checks that the memory reservation block that starts at `start` is
/// terminated before `limit`, the start of the structure block.
pub fn validate_reservations(data: &[u8], start: usize, limit: usize) -> (r: Result<
    (),
    FdtParseError,
>)
    requires
        limit == struct_start(data@),
        start <= limit <= data@.len(),
    ensures
        r is Ok ==> reservations_end(data@, start as int) is Ok,
        r is Err ==> reservations_end(data@, start as int) == Err::<int, FdtParseError>(
            r->Err_0,
        ),
{
    let mut off: usize = start;
    loop
        invariant
            limit == struct_start(data@),
            start <= off <= limit <= data@.len(),
            reservations_end(data@, start as int) == reservations_end(data@, off as int),
        decreases limit - off,
    {
        if limit - off < MEM_RESERVATION_SIZE {
            return Err(FdtParseError::new(FdtErrorKind::MemReserveNotTerminated, off));
        }
        let entry = read_reservation(data, off, limit);
        if entry.address == 0 && entry.size == 0 {
            return Ok(());
        }
        off += MEM_RESERVATION_SIZE;
    }
}

/// Collects the entries of the memory reservation block that starts at
/// `start`, up to its terminator.
pub fn read_reservations(data: &[u8], start: usize, limit: usize) -> (r: Vec<MemoryReservation>)
    requires
        limit == struct_start(data@),
        start <= limit <= data@.len(),
    ensures
        r@ == reservations_from(data@, start as int),
{
    let mut out: Vec<MemoryReservation> = Vec::new();
    let mut off: usize = start;
    loop
        invariant
            limit == struct_start(data@),
            start <= off <= limit <= data@.len(),
            reservations_from(data@, start as int) == out@ + reservations_from(data@, off as int),
        decreases limit - off,
    {
        if limit - off < MEM_RESERVATION_SIZE {
            assert(out@ + Seq::<MemoryReservation>::empty() =~= out@);
            return out;
        }
        let entry = read_reservation(data, off, limit);
        if entry.address == 0 && entry.size == 0 {
            assert(out@ + Seq::<MemoryReservation>::empty() =~= out@);
            return out;
        }
        proof {
            let rest = reservations_from(data@, off as int + 16);
            assert(out@ + (seq![entry] + rest) =~= out@.push(entry) + rest);
        }
        out.push(entry);
        off += MEM_RESERVATION_SIZE;
    }
}

} // verus!
