//! Integers that are split into big-endian 32-bit cells.

use vstd::prelude::*;

use crate::codec::{be32, be64, read_u32_be, read_u64_be};
use crate::error::StandardError;

verus! {

/// The unsigned integer that the cells stored in `bytes` stand for: the
/// cells are taken left to right, each one shifting what came before it by
/// 32 bits. Bytes that do not fill a cell are not counted.
pub open spec fn cells_value(bytes: Seq<u8>) -> nat
    decreases bytes.len(),
{
    if bytes.len() < 4 {
        0
    } else {
        cells_value(bytes.subrange(0, bytes.len() - 4)) * 0x1_0000_0000 + be32(
            bytes,
            bytes.len() - 4,
        ) as nat
    }
}

/// An unsigned integer type that a [`Cells`] value can be converted to.
pub trait CellInt: Sized {
    /// The size of the type in bytes.
    spec fn byte_size() -> nat;

    /// The number that a value of the type stands for.
    spec fn number(&self) -> nat;

    /// Combines the cells stored in `bytes` into one integer, or returns
    /// `None` when they are too many for the type.
    fn from_cell_bytes(bytes: &[u8]) -> (r: Option<Self>)
        requires
            bytes@.len() % 4 == 0,
        ensures
            r is Some <==> bytes@.len() <= Self::byte_size(),
            r is Some ==> r->0.number() == cells_value(bytes@),
    ;
}

/// A single cell is the last four bytes read big-endian.
proof fn lemma_cells_value_1(bytes: Seq<u8>)
    requires
        bytes.len() == 4,
    ensures
        cells_value(bytes) == be32(bytes, 0),
{
    assert(cells_value(bytes.subrange(0, 0)) == 0);
}

/// Two cells are the eight bytes read big-endian.
proof fn lemma_cells_value_2(bytes: Seq<u8>)
    requires
        bytes.len() == 8,
    ensures
        cells_value(bytes) == be64(bytes, 0),
{
    let head = bytes.subrange(0, 4);
    lemma_cells_value_1(head);
    assert(be32(head, 0) == be32(bytes, 0));
}

/// Every further cell shifts the value by 32 bits.
proof fn lemma_cells_value_more(bytes: Seq<u8>, split: int)
    requires
        bytes.len() == split + 8,
        split >= 0,
    ensures
        cells_value(bytes) == cells_value(bytes.subrange(0, split)) * 0x1_0000_0000_0000_0000
            + be64(bytes, split),
{
    let upper = bytes.subrange(0, split + 4);
    assert(upper.subrange(0, split) =~= bytes.subrange(0, split));
    assert(be32(upper, split) == be32(bytes, split));
    assert(cells_value(upper) == cells_value(bytes.subrange(0, split)) * 0x1_0000_0000 + be32(
        bytes,
        split,
    ) as nat);
    let a = cells_value(bytes.subrange(0, split));
    assert((a * 0x1_0000_0000 + be32(bytes, split) as nat) * 0x1_0000_0000 == a
        * 0x1_0000_0000_0000_0000 + be32(bytes, split) as nat * 0x1_0000_0000)
        by (nonlinear_arith);
}

impl CellInt for u32 {
    open spec fn byte_size() -> nat {
        4
    }

    open spec fn number(&self) -> nat {
        *self as nat
    }

    fn from_cell_bytes(bytes: &[u8]) -> (r: Option<u32>) {
        if bytes.len() == 0 {
            Some(0)
        } else if bytes.len() == 4 {
            proof {
                lemma_cells_value_1(bytes@);
            }
            match read_u32_be(bytes, 0) {
                Ok(v) => Some(v),
                Err(_) => None,
            }
        } else {
            None
        }
    }
}

impl CellInt for u64 {
    open spec fn byte_size() -> nat {
        8
    }

    open spec fn number(&self) -> nat {
        *self as nat
    }

    fn from_cell_bytes(bytes: &[u8]) -> (r: Option<u64>) {
        if bytes.len() == 0 {
            Some(0)
        } else if bytes.len() == 4 {
            proof {
                lemma_cells_value_1(bytes@);
            }
            match read_u32_be(bytes, 0) {
                Ok(v) => Some(v as u64),
                Err(_) => None,
            }
        } else if bytes.len() == 8 {
            proof {
                lemma_cells_value_2(bytes@);
            }
            match read_u64_be(bytes, 0) {
                Ok(v) => Some(v),
                Err(_) => None,
            }
        } else {
            None
        }
    }
}

impl CellInt for u128 {
    open spec fn byte_size() -> nat {
        16
    }

    open spec fn number(&self) -> nat {
        *self as nat
    }

    fn from_cell_bytes(bytes: &[u8]) -> (r: Option<u128>) {
        let n = bytes.len();
        if n <= 8 {
            match u64::from_cell_bytes(bytes) {
                Some(v) => Some(v as u128),
                None => None,
            }
        } else if n == 12 {
            proof {
                lemma_cells_value_more(bytes@, 4);
                lemma_cells_value_1(bytes@.subrange(0, 4));
                assert(be32(bytes@.subrange(0, 4), 0) == be32(bytes@, 0));
            }
            let hi = match read_u32_be(bytes, 0) {
                Ok(v) => v as u128,
                Err(_) => 0,
            };
            let lo = match read_u64_be(bytes, 4) {
                Ok(v) => v as u128,
                Err(_) => 0,
            };
            Some(hi * 0x1_0000_0000_0000_0000 + lo)
        } else if n == 16 {
            proof {
                lemma_cells_value_more(bytes@, 8);
                lemma_cells_value_2(bytes@.subrange(0, 8));
                assert(be64(bytes@.subrange(0, 8), 0) == be64(bytes@, 0));
            }
            let hi = match read_u64_be(bytes, 0) {
                Ok(v) => v as u128,
                Err(_) => 0,
            };
            let lo = match read_u64_be(bytes, 8) {
                Ok(v) => v as u128,
                Err(_) => 0,
            };
            Some(hi * 0x1_0000_0000_0000_0000 + lo)
        } else {
            None
        }
    }
}

/// An integer value split into several big-endian u32 parts.
///
/// This is generally used in prop-encoded-array properties. The value is a
/// view of the bytes that hold the cells, four bytes to a cell.
#[derive(Clone, Copy, Debug, Eq, Hash, PartialEq)]
pub struct Cells<'a> {
    bytes: &'a [u8],
}

impl<'a> View for Cells<'a> {
    type V = Seq<u8>;

    /// The bytes of the cells, four to a cell.
    closed spec fn view(&self) -> Seq<u8> {
        self.bytes@
    }
}

impl<'a> Default for Cells<'a> {
    /// The value without cells, which stands for zero.
    fn default() -> (r: Cells<'a>)
        ensures
            r@ == Seq::<u8>::empty(),
    {
        let bytes: &'a [u8] = &[];
        assert(bytes@ =~= Seq::<u8>::empty());
        Cells { bytes }
    }
}

impl<'a> Cells<'a> {
    /// The bytes of a `Cells` value fill whole cells.
    #[verifier::type_invariant]
    pub closed spec fn inv(self) -> bool {
        self.bytes@.len() % 4 == 0
    }

    /// Makes a view of the cells that `bytes` holds, or returns `None` when
    /// the length of `bytes` is not a multiple of four.
    pub fn new(bytes: &'a [u8]) -> (r: Option<Cells<'a>>)
        ensures
            r is Some <==> bytes@.len() % 4 == 0,
            r is Some ==> r->0@ == bytes@,
    {
        if bytes.len() % 4 == 0 {
            Some(Cells { bytes })
        } else {
            None
        }
    }

    /// Makes a view of the cells that `bytes` holds.
    pub(crate) fn of(bytes: &'a [u8]) -> (r: Cells<'a>)
        requires
            bytes@.len() % 4 == 0,
        ensures
            r@ == bytes@,
    {
        Cells { bytes }
    }

    /// Returns the bytes that hold the cells.
    pub fn as_bytes(&self) -> (r: &'a [u8])
        ensures
            r@ == self@,
            r@.len() % 4 == 0,
    {
        proof {
            use_type_invariant(self);
        }
        self.bytes
    }

    /// Returns the number of cells.
    pub fn len(&self) -> (r: usize)
        ensures
            r == self@.len() / 4,
            self@.len() % 4 == 0,
    {
        proof {
            use_type_invariant(self);
        }
        self.bytes.len() / 4
    }

    /// Converts the value to the given integer type.
    ///
    /// Fails with `TooManyCells` when the value has more cells than fit in
    /// the type; otherwise the result is the number that the cells stand
    /// for, see [`cells_value`].
    pub fn to_int<T: CellInt>(self) -> (r: Result<T, StandardError>)
        ensures
            self@.len() > T::byte_size() ==> r == Err::<T, StandardError>(
                StandardError::TooManyCells { cells: (self@.len() / 4) as usize },
            ),
            self@.len() <= T::byte_size() ==> r is Ok && r->Ok_0.number() == cells_value(self@),
    {
        proof {
            use_type_invariant(self);
        }
        match T::from_cell_bytes(self.bytes) {
            Some(v) => Ok(v),
            None => Err(StandardError::TooManyCells { cells: self.bytes.len() / 4 }),
        }
    }
}

} // verus!
