//! The token stream of the structure block.
//!
//! The structure block is a sequence of big-endian 32-bit tokens, each
//! followed by its payload and padded to a multiple of four bytes. The
//! tree is implicit in the order of the tokens: this module says which
//! streams are well formed and where a subtree ends.

use vstd::prelude::*;
use vstd::slice::slice_subrange;

use crate::codec::{align4, be32, padding, read_u32_be};
use crate::error::{parse_error, FdtErrorKind, FdtParseError};
use crate::fdt::header::{strings_end, strings_start, struct_end, struct_start, FdtHeader};
use crate::text::{cstr_ok, find_nul, find_nul_in, lemma_find_nul, str_from_utf8};

verus! {

/// The token that opens a node.
pub const FDT_BEGIN_NODE: u32 = 0x1;

/// The token that closes a node.
pub const FDT_END_NODE: u32 = 0x2;

/// The token that introduces a property.
pub const FDT_PROP: u32 = 0x3;

/// The token that is skipped.
pub const FDT_NOP: u32 = 0x4;

/// The token that ends the structure block.
pub const FDT_END: u32 = 0x9;

/// A token of the structure block.
#[derive(Debug, Clone, Copy, PartialEq, Eq)]
pub enum FdtToken {
    /// The start of a node.
    BeginNode,
    /// The end of a node.
    EndNode,
    /// A property.
    Prop,
    /// A token without meaning.
    Nop,
    /// The end of the structure block.
    End,
}

/// The token that `word` stands for, if any.
pub open spec fn token_of(word: u32) -> Option<FdtToken> {
    if word == FDT_BEGIN_NODE {
        Some(FdtToken::BeginNode)
    } else if word == FDT_END_NODE {
        Some(FdtToken::EndNode)
    } else if word == FDT_PROP {
        Some(FdtToken::Prop)
    } else if word == FDT_NOP {
        Some(FdtToken::Nop)
    } else if word == FDT_END {
        Some(FdtToken::End)
    } else {
        None
    }
}

/// The offset of the first item of the node whose `BEGIN_NODE` token is at
/// `off`: the first four-byte boundary after the terminator of its name.
pub open spec fn node_body(blob: Seq<u8>, off: int) -> int {
    align4(find_nul(blob, off + 4, struct_end(blob)) + 1)
}

/// The length in bytes of the value of the property whose token is at `off`.
pub open spec fn prop_len(blob: Seq<u8>, off: int) -> int {
    be32(blob, off + 4) as int
}

/// The offset in the blob of the name of the property whose token is at
/// `off`.
pub open spec fn prop_name_start(blob: Seq<u8>, off: int) -> int {
    strings_start(blob) + be32(blob, off + 8) as int
}

/// The offset of the token that follows the property whose token is at
/// `off`.
pub open spec fn prop_next(blob: Seq<u8>, off: int) -> int {
    align4(off + 12 + prop_len(blob, off))
}

/// What is wrong with the property whose token is at `off`, if anything:
/// its header, its value or the padding after it leaves the structure block
/// (`InvalidOffset` at the token), its name offset leaves the strings block
/// (`InvalidOffset` at the name offset field), or its name is not a
/// terminated UTF-8 string inside the strings block (`InvalidString` at the
/// name).
pub open spec fn prop_check(blob: Seq<u8>, off: int) -> Result<(), FdtParseError> {
    if off + 12 > struct_end(blob) || prop_next(blob, off) > struct_end(blob) {
        Err(parse_error(FdtErrorKind::InvalidOffset, off))
    } else if prop_name_start(blob, off) >= strings_end(blob) {
        Err(parse_error(FdtErrorKind::InvalidOffset, off + 8))
    } else if !cstr_ok(blob, prop_name_start(blob, off), strings_end(blob)) {
        Err(parse_error(FdtErrorKind::InvalidString, prop_name_start(blob, off)))
    } else {
        Ok(())
    }
}

/// Where a walk over the token stream stands after one token.
pub enum Walk {
    /// The walk goes on at `off` with `depth` nodes open.
    Next {
        /// The offset of the next token.
        off: int,
        /// The number of nodes that are open there.
        depth: nat,
    },
    /// The last open node was closed; `after` is the offset behind its
    /// `END_NODE` token.
    Done {
        /// The offset behind the `END_NODE` token.
        after: int,
    },
}

/// One step of the walk over the token stream: reads the token at `off`
/// with `depth` nodes open and says where the walk stands after it.
///
/// - `BEGIN_NODE` opens a node: the walk goes on behind the padded name.
/// - `END_NODE` closes a node; closing the last open one ends the walk.
/// - `PROP` and `NOP` are skipped.
///
/// The step fails when the token does not lie inside the structure block
/// (`InvalidOffset`), when a node name is not a terminated UTF-8 string
/// (`InvalidString`) or its padding leaves the structure block
/// (`InvalidOffset`), when a property fails [`prop_check`], and with
/// `BadToken` on an unknown token, on an `END` token, and on any token but
/// `BEGIN_NODE` outside a node.
#[verifier::opaque]
pub open spec fn scan_step(blob: Seq<u8>, off: int, depth: nat) -> Result<Walk, FdtParseError> {
    let end = struct_end(blob);
    let word = be32(blob, off);
    if off < 0 || off + 4 > end {
        Err(parse_error(FdtErrorKind::InvalidOffset, off))
    } else if word == FDT_BEGIN_NODE {
        if !cstr_ok(blob, off + 4, end) {
            Err(parse_error(FdtErrorKind::InvalidString, off + 4))
        } else if node_body(blob, off) > end {
            Err(parse_error(FdtErrorKind::InvalidOffset, off))
        } else {
            Ok(Walk::Next { off: node_body(blob, off), depth: depth + 1 })
        }
    } else if depth == 0 {
        Err(parse_error(FdtErrorKind::BadToken(word), off))
    } else if word == FDT_END_NODE {
        if depth == 1 {
            Ok(Walk::Done { after: off + 4 })
        } else {
            Ok(Walk::Next { off: off + 4, depth: (depth - 1) as nat })
        }
    } else if word == FDT_PROP {
        match prop_check(blob, off) {
            Err(e) => Err(e),
            Ok(_) => Ok(Walk::Next { off: prop_next(blob, off), depth }),
        }
    } else if word == FDT_NOP {
        Ok(Walk::Next { off: off + 4, depth })
    } else {
        Err(parse_error(FdtErrorKind::BadToken(word), off))
    }
}

/// A step that goes on moves forward, stays inside the structure block and
/// keeps at least one node open.
pub proof fn lemma_scan_step(blob: Seq<u8>, off: int, depth: nat)
    ensures
        scan_step(blob, off, depth) matches Ok(Walk::Next { off: next, depth: d }) ==> off + 4
            <= next <= struct_end(blob) && 1 <= d <= depth + 1,
        scan_step(blob, off, depth) matches Ok(Walk::Done { after }) ==> after == off + 4
            && after <= struct_end(blob) && depth == 1,
{
    reveal(scan_step);
    if off + 4 <= struct_end(blob) {
        lemma_find_nul(blob, off + 4, struct_end(blob));
    }
}

/// Walks the token stream from `off` with `depth` nodes open, one
/// [`scan_step`] after the other, and returns the offset just after the
/// `END_NODE` token that closes the last of them, or the first failure.
///
/// With `depth == 0` the walk starts outside any node, and `off` must hold
/// a `BEGIN_NODE` token: the result is then the end of that node's subtree.
pub open spec fn scan(blob: Seq<u8>, off: int, depth: nat) -> Result<int, FdtParseError>
    decreases struct_end(blob) - off,
{
    match scan_step(blob, off, depth) {
        Err(e) => Err(e),
        Ok(Walk::Done { after }) => Ok(after),
        Ok(Walk::Next { off: next, depth: d }) => {
            proof {
                lemma_scan_step(blob, off, depth);
            }
            scan(blob, next, d)
        },
    }
}

/// Checks what follows the root node, from `off`: any number of `NOP`
/// tokens and then the `END` token, which must be the last token of the
/// structure block.
pub open spec fn finish(blob: Seq<u8>, off: int) -> Result<(), FdtParseError>
    decreases struct_end(blob) - off,
{
    let end = struct_end(blob);
    if off < 0 || off + 4 > end {
        Err(parse_error(FdtErrorKind::InvalidOffset, off))
    } else {
        let word = be32(blob, off);
        if word == FDT_NOP {
            finish(blob, off + 4)
        } else if word != FDT_END {
            Err(parse_error(FdtErrorKind::BadToken(word), off))
        } else if off + 4 == end {
            Ok(())
        } else if off + 8 > end {
            Err(parse_error(FdtErrorKind::InvalidOffset, off + 4))
        } else {
            Err(parse_error(FdtErrorKind::BadToken(be32(blob, off + 4)), off + 4))
        }
    }
}

/// Whether a root node starts the structure block. A structure block that
/// holds no node at all describes the empty tree.
pub open spec fn has_root(blob: Seq<u8>) -> bool {
    struct_start(blob) + 4 <= struct_end(blob) && be32(blob, struct_start(blob)) == FDT_BEGIN_NODE
}

/// What the structure checks say of `blob`, whose header has passed its
/// checks: `Ok` when the structure block holds a single rooted tree, or no
/// node at all, followed by the `END` token, and otherwise the first
/// problem met.
pub open spec fn structure_check(blob: Seq<u8>) -> Result<(), FdtParseError> {
    if has_root(blob) {
        match scan(blob, struct_start(blob), 0) {
            Err(e) => Err(e),
            Ok(after) => finish(blob, after),
        }
    } else {
        finish(blob, struct_start(blob))
    }
}

/// The bounds of the structure and strings blocks, as machine integers.
#[derive(Debug, Clone, Copy)]
pub struct Layout {
    /// The offset of the first byte of the structure block.
    pub struct_start: usize,
    /// The offset one past the last byte of the structure block.
    pub struct_end: usize,
    /// The offset of the first byte of the strings block.
    pub strings_start: usize,
    /// The offset one past the last byte of the strings block.
    pub strings_end: usize,
}

impl Layout {
    /// Whether these are the bounds that the header of `blob` gives, and
    /// they lie inside `blob` in order.
    pub open spec fn matches(&self, blob: Seq<u8>) -> bool {
        &&& self.struct_start == struct_start(blob)
        &&& self.struct_end == struct_end(blob)
        &&& self.strings_start == strings_start(blob)
        &&& self.strings_end == strings_end(blob)
        &&& self.struct_start <= self.struct_end <= self.strings_start <= self.strings_end
            <= blob.len()
        &&& self.struct_start % 4 == 0
    }

    /// The block bounds that a checked header gives.
    pub fn of(h: &FdtHeader) -> (r: Layout)
        requires
            h.off_dt_struct + h.size_dt_struct <= h.off_dt_strings,
            h.off_dt_strings + h.size_dt_strings <= h.totalsize,
        ensures
            r.struct_start == h.off_dt_struct,
            r.struct_end == h.off_dt_struct + h.size_dt_struct,
            r.strings_start == h.off_dt_strings,
            r.strings_end == h.off_dt_strings + h.size_dt_strings,
    {
        Layout {
            struct_start: h.off_dt_struct as usize,
            struct_end: (h.off_dt_struct + h.size_dt_struct) as usize,
            strings_start: h.off_dt_strings as usize,
            strings_end: (h.off_dt_strings + h.size_dt_strings) as usize,
        }
    }
}

/// Reads the token word at `off`, which must lie inside the structure
/// block.
pub fn read_word(data: &[u8], lay: &Layout, off: usize) -> (r: Result<u32, FdtParseError>)
    requires
        lay.matches(data@),
    ensures
        off + 4 <= lay.struct_end ==> r == Ok::<u32, FdtParseError>(be32(data@, off as int)),
        off + 4 > lay.struct_end ==> r == Err::<u32, FdtParseError>(
            parse_error(FdtErrorKind::InvalidOffset, off as int),
        ),
{
    if off > lay.struct_end || lay.struct_end - off < 4 {
        return Err(FdtParseError::new(FdtErrorKind::InvalidOffset, off));
    }
    read_u32_be(data, off)
}

/// Reads and decodes the token at `off`.
///
/// Fails with `InvalidOffset` when the token does not lie inside the
/// structure block, and with `BadToken` when the word is no token.
pub fn read_token(data: &[u8], lay: &Layout, off: usize) -> (r: Result<FdtToken, FdtParseError>)
    requires
        lay.matches(data@),
    ensures
        off + 4 > lay.struct_end ==> r == Err::<FdtToken, FdtParseError>(
            parse_error(FdtErrorKind::InvalidOffset, off as int),
        ),
        off + 4 <= lay.struct_end ==> r == match token_of(be32(data@, off as int)) {
            Some(t) => Ok::<FdtToken, FdtParseError>(t),
            None => Err(parse_error(FdtErrorKind::BadToken(be32(data@, off as int)), off as int)),
        },
{
    let word = read_word(data, lay, off)?;
    if word == FDT_BEGIN_NODE {
        Ok(FdtToken::BeginNode)
    } else if word == FDT_END_NODE {
        Ok(FdtToken::EndNode)
    } else if word == FDT_PROP {
        Ok(FdtToken::Prop)
    } else if word == FDT_NOP {
        Ok(FdtToken::Nop)
    } else if word == FDT_END {
        Ok(FdtToken::End)
    } else {
        Err(FdtParseError::new(FdtErrorKind::BadToken(word), off))
    }
}

/// Checks that a NUL-terminated UTF-8 string starts at `from` and ends
/// before `limit`, and returns the offset of its terminator.
pub fn check_cstr(data: &[u8], from: usize, limit: usize) -> (r: Option<usize>)
    requires
        from <= limit <= data@.len(),
    ensures
        r is Some <==> cstr_ok(data@, from as int, limit as int),
        r is Some ==> r->0 == find_nul(data@, from as int, limit as int) && from <= r->0 < limit,
{
    let nul = find_nul_in(data, from, limit);
    if nul >= limit {
        return None;
    }
    match str_from_utf8(slice_subrange(data, from, nul)) {
        Some(_) => Some(nul),
        None => None,
    }
}

/// Returns the offset one past the terminator of the string that starts at
/// `from`, or fails with `InvalidString` when no terminated UTF-8 string
/// lies in `from..limit`.
pub fn find_string_end(data: &[u8], from: usize, limit: usize) -> (r: Result<
    usize,
    FdtParseError,
>)
    requires
        from <= limit <= data@.len(),
    ensures
        cstr_ok(data@, from as int, limit as int) ==> r == Ok::<usize, FdtParseError>(
            (find_nul(data@, from as int, limit as int) + 1) as usize,
        ),
        !cstr_ok(data@, from as int, limit as int) ==> r == Err::<usize, FdtParseError>(
            parse_error(FdtErrorKind::InvalidString, from as int),
        ),
{
    match check_cstr(data, from, limit) {
        Some(nul) => Ok(nul + 1),
        None => Err(FdtParseError::new(FdtErrorKind::InvalidString, from)),
    }
}

/// Checks the property whose token is at `off` and returns the offset of
/// the token that follows it.
pub fn check_prop(data: &[u8], lay: &Layout, off: usize) -> (r: Result<usize, FdtParseError>)
    requires
        lay.matches(data@),
        off + 4 <= lay.struct_end,
    ensures
        match r {
            Ok(next) => prop_check(data@, off as int) is Ok && next == prop_next(
                data@,
                off as int,
            ) && off + 12 <= next,
            Err(e) => prop_check(data@, off as int) == Err::<(), FdtParseError>(e),
        },
{
    if lay.struct_end - off < 12 {
        return Err(FdtParseError::new(FdtErrorKind::InvalidOffset, off));
    }
    let len = match read_u32_be(data, off + 4) {
        Ok(v) => v as usize,
        Err(e) => {
            return Err(e);
        },
    };
    let nameoff = match read_u32_be(data, off + 8) {
        Ok(v) => v as usize,
        Err(e) => {
            return Err(e);
        },
    };
    if len > lay.struct_end - off - 12 {
        return Err(FdtParseError::new(FdtErrorKind::InvalidOffset, off));
    }
    let value_end = off + 12 + len;
    let pad = padding(value_end);
    if pad > lay.struct_end - value_end {
        return Err(FdtParseError::new(FdtErrorKind::InvalidOffset, off));
    }
    if nameoff >= lay.strings_end - lay.strings_start {
        return Err(FdtParseError::new(FdtErrorKind::InvalidOffset, off + 8));
    }
    let name_start = lay.strings_start + nameoff;
    if check_cstr(data, name_start, lay.strings_end).is_none() {
        return Err(FdtParseError::new(FdtErrorKind::InvalidString, name_start));
    }
    Ok(value_end + pad)
}

/// Where the executable walk stands after one token.
pub enum Stride {
    /// The walk goes on at `off` with `depth` nodes open.
    Next {
        /// The offset of the next token.
        off: usize,
        /// The number of nodes that are open there.
        depth: usize,
    },
    /// The last open node was closed; `after` is the offset behind its
    /// `END_NODE` token.
    Done {
        /// The offset behind the `END_NODE` token.
        after: usize,
    },
}

impl Stride {
    /// The same position, in mathematical integers.
    pub open spec fn view(&self) -> Walk {
        match *self {
            Stride::Next { off, depth } => Walk::Next { off: off as int, depth: depth as nat },
            Stride::Done { after } => Walk::Done { after: after as int },
        }
    }
}

/// Makes one step of the walk over the token stream, as [`scan_step`]
/// describes it.
pub fn step(data: &[u8], lay: &Layout, off: usize, depth: usize) -> (r: Result<
    Stride,
    FdtParseError,
>)
    requires
        lay.matches(data@),
        depth < usize::MAX,
    ensures
        match r {
            Ok(s) => scan_step(data@, off as int, depth as nat) == Ok::<Walk, FdtParseError>(s@),
            Err(e) => scan_step(data@, off as int, depth as nat) == Err::<Walk, FdtParseError>(e),
        },
{
    proof {
        reveal(scan_step);
    }
    let word = match read_word(data, lay, off) {
        Ok(w) => w,
        Err(e) => {
            return Err(e);
        },
    };
    if word == FDT_BEGIN_NODE {
        let nul = match check_cstr(data, off + 4, lay.struct_end) {
            Some(nul) => nul,
            None => {
                return Err(FdtParseError::new(FdtErrorKind::InvalidString, off + 4));
            },
        };
        let pad = padding(nul + 1);
        if pad > lay.struct_end - (nul + 1) {
            return Err(FdtParseError::new(FdtErrorKind::InvalidOffset, off));
        }
        Ok(Stride::Next { off: nul + 1 + pad, depth: depth + 1 })
    } else if depth == 0 {
        Err(FdtParseError::new(FdtErrorKind::BadToken(word), off))
    } else if word == FDT_END_NODE {
        if depth == 1 {
            Ok(Stride::Done { after: off + 4 })
        } else {
            Ok(Stride::Next { off: off + 4, depth: depth - 1 })
        }
    } else if word == FDT_PROP {
        match check_prop(data, lay, off) {
            Ok(next) => Ok(Stride::Next { off: next, depth }),
            Err(e) => Err(e),
        }
    } else if word == FDT_NOP {
        Ok(Stride::Next { off: off + 4, depth })
    } else {
        Err(FdtParseError::new(FdtErrorKind::BadToken(word), off))
    }
}

/// Walks the token stream from `off` with `depth` nodes open, as [`scan`]
/// does, and returns the offset after the `END_NODE` token that closes the
/// last of them, or the first problem met.
pub fn scan_tokens(data: &[u8], lay: &Layout, off: usize, depth: usize) -> (r: Result<
    usize,
    FdtParseError,
>)
    requires
        lay.matches(data@),
        depth <= 1,
    ensures
        match r {
            Ok(after) => scan(data@, off as int, depth as nat) == Ok::<int, FdtParseError>(
                after as int,
            ),
            Err(e) => scan(data@, off as int, depth as nat) == Err::<int, FdtParseError>(e),
        },
{
    let mut cur: usize = off;
    let mut open: usize = depth;
    loop
        invariant
            lay.matches(data@),
            off <= cur,
            depth <= 1,
            open * 4 <= depth * 4 + (cur - off),
            scan(data@, off as int, depth as nat) == scan(data@, cur as int, open as nat),
        decreases lay.struct_end + 4 - cur,
    {
        proof {
            lemma_scan_step(data@, cur as int, open as nat);
        }
        match step(data, lay, cur, open) {
            Err(e) => {
                return Err(e);
            },
            Ok(Stride::Done { after }) => {
                return Ok(after);
            },
            Ok(Stride::Next { off: next, depth: d }) => {
                cur = next;
                open = d;
            },
        }
    }
}

/// Checks what follows the root node, as [`finish`] does.
pub fn check_finish(data: &[u8], lay: &Layout, off: usize) -> (r: Result<(), FdtParseError>)
    requires
        lay.matches(data@),
    ensures
        r == finish(data@, off as int),
{
    let mut cur: usize = off;
    loop
        invariant
            lay.matches(data@),
            finish(data@, off as int) == finish(data@, cur as int),
        decreases lay.struct_end + 4 - cur,
    {
        let word = match read_word(data, lay, cur) {
            Ok(w) => w,
            Err(e) => {
                return Err(e);
            },
        };
        if word == FDT_NOP {
            cur = cur + 4;
        } else if word != FDT_END {
            return Err(FdtParseError::new(FdtErrorKind::BadToken(word), cur));
        } else if lay.struct_end - cur == 4 {
            return Ok(());
        } else {
            return match read_word(data, lay, cur + 4) {
                Ok(w) => Err(FdtParseError::new(FdtErrorKind::BadToken(w), cur + 4)),
                Err(e) => Err(e),
            };
        }
    }
}

/// Checks the structure block, as [`structure_check`] does.
pub fn validate_structure(data: &[u8], lay: &Layout) -> (r: Result<(), FdtParseError>)
    requires
        lay.matches(data@),
    ensures
        r == structure_check(data@),
{
    let root = lay.struct_start;
    let rooted = match read_word(data, lay, root) {
        Ok(w) => w == FDT_BEGIN_NODE,
        Err(_) => false,
    };
    if rooted {
        match scan_tokens(data, lay, root, 0) {
            Ok(after) => check_finish(data, lay, after),
            Err(e) => Err(e),
        }
    } else {
        check_finish(data, lay, root)
    }
}

} // verus!
