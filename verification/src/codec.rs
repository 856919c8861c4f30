//! Big-endian cell codec.
//!
//! All multi-byte quantities in a device tree blob are stored big-endian.
//! The byte-order conversions themselves are done by the `zerocopy` crate;
//! this module states what they compute and builds the bounds-checked
//! readers on top of them.

use vstd::prelude::*;
use vstd::slice::slice_subrange;

use zerocopy::{big_endian, FromBytes};

use crate::error::{FdtErrorKind, FdtParseError};

verus! {

/// The number `n` rounded up to the next multiple of four.
pub open spec fn align4(n: int) -> int {
    if n % 4 == 0 {
        n
    } else {
        n + 4 - n % 4
    }
}

/// Rounding up to a multiple of four adds at most three.
pub proof fn lemma_align4(n: int)
    ensures
        n <= align4(n) < n + 4,
        align4(n) % 4 == 0,
        n % 4 == 0 ==> align4(n) == n,
{
}

/// Rounding up from a multiple of four rounds up what was added to it.
pub proof fn lemma_align4_shift(base: int, n: int)
    requires
        base % 4 == 0,
    ensures
        align4(base + n) == base + align4(n),
{
    assert((base + n) % 4 == n % 4);
}

/// The big-endian 32-bit value stored in `s` at `off`.
pub open spec fn be32(s: Seq<u8>, off: int) -> u32
    recommends
        0 <= off,
        off + 4 <= s.len(),
{
    (s[off] as int * 0x100_0000 + s[off + 1] as int * 0x1_0000 + s[off + 2] as int * 0x100 + s[off
        + 3] as int) as u32
}

/// The big-endian 64-bit value stored in `s` at `off`.
pub open spec fn be64(s: Seq<u8>, off: int) -> u64
    recommends
        0 <= off,
        off + 8 <= s.len(),
{
    (be32(s, off) as int * 0x1_0000_0000 + be32(s, off + 4) as int) as u64
}

/// The four bytes that store `v` big-endian.
pub open spec fn be32_bytes(v: u32) -> Seq<u8> {
    seq![
        (v as int / 0x100_0000) as u8,
        (v as int / 0x1_0000 % 0x100) as u8,
        (v as int / 0x100 % 0x100) as u8,
        (v as int % 0x100) as u8,
    ]
}

/// The eight bytes that store `v` big-endian.
pub open spec fn be64_bytes(v: u64) -> Seq<u8> {
    be32_bytes((v as int / 0x1_0000_0000) as u32) + be32_bytes((v as int % 0x1_0000_0000) as u32)
}

/// Rounds `n` up to the next multiple of four, or returns `None` when the
/// result does not fit.
pub fn align_tag_offset(n: usize) -> (r: Option<usize>)
    ensures
        r is Some <==> align4(n as int) <= usize::MAX,
        r is Some ==> r->0 == align4(n as int),
{
    let pad = padding(n);
    if pad > usize::MAX - n {
        None
    } else {
        Some(n + pad)
    }
}

/// The number of bytes, at most three, that bring `n` up to the next
/// multiple of four.
pub fn padding(n: usize) -> (r: usize)
    ensures
        r <= 3,
        n + r == align4(n as int),
{
    let rem = n % 4;
    if rem == 0 {
        0
    } else {
        4 - rem
    }
}

/// Reads the first four bytes of `bytes` as a big-endian integer, through
/// zerocopy's `big_endian::U32::ref_from_prefix` and `U32::get`. The read
/// fails exactly when fewer than four bytes are given: the type has
/// alignment 1.
#[verifier::external_body]
fn be_u32_prefix(bytes: &[u8]) -> (r: Option<u32>)
    ensures
        bytes@.len() < 4 ==> r is None,
        bytes@.len() >= 4 ==> r == Some(be32(bytes@, 0)),
{
    match big_endian::U32::ref_from_prefix(bytes) {
        Ok((v, _)) => Some(v.get()),
        Err(_) => None,
    }
}

/// Reads the first eight bytes of `bytes` as a big-endian integer, through
/// zerocopy's `big_endian::U64::ref_from_prefix` and `U64::get`. The read
/// fails exactly when fewer than eight bytes are given.
#[verifier::external_body]
fn be_u64_prefix(bytes: &[u8]) -> (r: Option<u64>)
    ensures
        bytes@.len() < 8 ==> r is None,
        bytes@.len() >= 8 ==> r == Some(be64(bytes@, 0)),
{
    match big_endian::U64::ref_from_prefix(bytes) {
        Ok((v, _)) => Some(v.get()),
        Err(_) => None,
    }
}

/// The big-endian bytes of `v`, through zerocopy's `big_endian::U32::new`
/// and `U32::to_bytes`.
#[verifier::external_body]
pub(crate) fn be_u32_array(v: u32) -> (r: [u8; 4])
    ensures
        r@ == be32_bytes(v),
{
    big_endian::U32::new(v).to_bytes()
}

/// The big-endian bytes of `v`, through zerocopy's `big_endian::U64::new`
/// and `U64::to_bytes`.
#[verifier::external_body]
pub(crate) fn be_u64_array(v: u64) -> (r: [u8; 8])
    ensures
        r@ == be64_bytes(v),
{
    big_endian::U64::new(v).to_bytes()
}

/// Reads the big-endian `u32` at byte offset `off` of `buf`.
///
/// Fails with `InvalidOffset` when the four bytes do not lie inside `buf`.
pub fn read_u32_be(buf: &[u8], off: usize) -> (r: Result<u32, FdtParseError>)
    ensures
        off + 4 <= buf@.len() ==> r == Ok::<u32, FdtParseError>(be32(buf@, off as int)),
        off + 4 > buf@.len() ==> r == Err::<u32, FdtParseError>(
            FdtParseError { offset: off, kind: FdtErrorKind::InvalidOffset },
        ),
{
    if off > buf.len() || buf.len() - off < 4 {
        return Err(FdtParseError::new(FdtErrorKind::InvalidOffset, off));
    }
    let tail = slice_subrange(buf, off, buf.len());
    match be_u32_prefix(tail) {
        Some(v) => Ok(v),
        None => Err(FdtParseError::new(FdtErrorKind::InvalidOffset, off)),
    }
}

/// Reads the big-endian `u64` at byte offset `off` of `buf`.
///
/// Fails with `InvalidOffset` when the eight bytes do not lie inside `buf`.
pub fn read_u64_be(buf: &[u8], off: usize) -> (r: Result<u64, FdtParseError>)
    ensures
        off + 8 <= buf@.len() ==> r == Ok::<u64, FdtParseError>(be64(buf@, off as int)),
        off + 8 > buf@.len() ==> r == Err::<u64, FdtParseError>(
            FdtParseError { offset: off, kind: FdtErrorKind::InvalidOffset },
        ),
{
    if off > buf.len() || buf.len() - off < 8 {
        return Err(FdtParseError::new(FdtErrorKind::InvalidOffset, off));
    }
    let tail = slice_subrange(buf, off, buf.len());
    match be_u64_prefix(tail) {
        Some(v) => Ok(v),
        None => Err(FdtParseError::new(FdtErrorKind::InvalidOffset, off)),
    }
}

} // verus!
