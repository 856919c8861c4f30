//! NUL-terminated strings and UTF-8.
//!
//! Text is modelled by its UTF-8 bytes throughout: a name or a string
//! value is a `Seq<u8>` that is valid UTF-8, and the `&str` that a function
//! hands out consists of exactly those bytes.

use vstd::prelude::*;
use vstd::string::StringSliceAdditionalSpecFns;
use vstd::utf8::valid_utf8;

verus! {

/// The least index in `from..limit` at which `s` holds `byte`, or `limit`
/// when there is none.
pub open spec fn find_byte(s: Seq<u8>, byte: u8, from: int, limit: int) -> int
    decreases limit - from,
{
    if from >= limit {
        limit
    } else if s[from] == byte {
        from
    } else {
        find_byte(s, byte, from + 1, limit)
    }
}

/// The least index in `from..limit` at which `s` holds a zero byte, or
/// `limit` when there is none.
pub open spec fn find_nul(s: Seq<u8>, from: int, limit: int) -> int {
    find_byte(s, 0, from, limit)
}

/// [`find_byte`] returns an index between `from` and `limit`; no byte
/// before it is `byte`, and the byte at it is `byte` unless it is `limit`.
pub proof fn lemma_find_byte(s: Seq<u8>, byte: u8, from: int, limit: int)
    requires
        from <= limit,
    ensures
        from <= find_byte(s, byte, from, limit) <= limit,
        forall|i: int| from <= i < find_byte(s, byte, from, limit) ==> s[i] != byte,
        find_byte(s, byte, from, limit) < limit ==> s[find_byte(s, byte, from, limit)] == byte,
    decreases limit - from,
{
    if from < limit && s[from] != byte {
        lemma_find_byte(s, byte, from + 1, limit);
    }
}

/// The first `byte` at or after `from` is at `at` when `byte` stands there
/// and nowhere between the two.
pub proof fn lemma_find_byte_is(s: Seq<u8>, byte: u8, from: int, at: int, limit: int)
    requires
        from <= at <= limit,
        at < limit ==> s[at] == byte,
        forall|i: int| from <= i < at ==> s[i] != byte,
    ensures
        find_byte(s, byte, from, limit) == at,
    decreases at - from,
{
    if from < at {
        lemma_find_byte_is(s, byte, from + 1, at, limit);
    }
}

/// [`find_nul`] returns an index between `from` and `limit`; no byte before
/// it is zero, and the byte at it is zero unless it is `limit`.
pub proof fn lemma_find_nul(s: Seq<u8>, from: int, limit: int)
    requires
        from <= limit,
    ensures
        from <= find_nul(s, from, limit) <= limit,
        forall|i: int| from <= i < find_nul(s, from, limit) ==> s[i] != 0,
        find_nul(s, from, limit) < limit ==> s[find_nul(s, from, limit)] == 0,
{
    lemma_find_byte(s, 0, from, limit);
}

/// Whether `text` holds no zero byte.
pub open spec fn zero_free(text: Seq<u8>) -> bool {
    forall|i: int| 0 <= i < text.len() ==> text[i] != 0
}

/// Whether `text` can be stored as a NUL-terminated string and read back:
/// it is valid UTF-8 and holds no zero byte.
pub open spec fn clean_text(text: Seq<u8>) -> bool {
    valid_utf8(text) && zero_free(text)
}

/// Searching behind a prefix finds what searching without the prefix
/// finds, moved by the length of the prefix.
pub proof fn lemma_find_byte_shift(prefix: Seq<u8>, s: Seq<u8>, byte: u8, from: int)
    requires
        0 <= from <= s.len(),
    ensures
        find_byte(prefix + s, byte, prefix.len() + from, (prefix + s).len() as int) == prefix.len()
            + find_byte(s, byte, from, s.len() as int),
    decreases s.len() - from,
{
    if from < s.len() {
        assert((prefix + s)[prefix.len() + from] == s[from]);
        if s[from] != byte {
            lemma_find_byte_shift(prefix, s, byte, from + 1);
        }
    }
}

/// Whether a NUL-terminated, valid UTF-8 string starts at `from` and ends
/// before `limit`.
pub open spec fn cstr_ok(s: Seq<u8>, from: int, limit: int) -> bool {
    let nul = find_nul(s, from, limit);
    nul < limit && valid_utf8(s.subrange(from, nul))
}

/// The bytes of the NUL-terminated string that starts at `from`, without the
/// terminator.
pub open spec fn cstr_bytes(s: Seq<u8>, from: int, limit: int) -> Seq<u8> {
    s.subrange(from, find_nul(s, from, limit))
}

/// Two strings that consist of the same bytes are the same text, and the
/// bytes of a string are valid UTF-8.
pub proof fn lemma_str_bytes(a: &str, b: &str)
    ensures
        (a.spec_bytes() == b.spec_bytes()) <==> (a@ == b@),
        valid_utf8(a.spec_bytes()),
{
    vstd::utf8::encode_utf8_decode_utf8(a@);
    vstd::utf8::encode_utf8_decode_utf8(b@);
    vstd::utf8::encode_utf8_valid_utf8(a@);
}

/// Interprets `bytes` as UTF-8 text, through `core::str::from_utf8`. The
/// conversion succeeds exactly on valid UTF-8, and the string it gives
/// consists of the given bytes.
#[verifier::external_body]
pub(crate) fn str_from_utf8(bytes: &[u8]) -> (r: Option<&str>)
    ensures
        r is Some <==> valid_utf8(bytes@),
        r is Some ==> r->0.spec_bytes() == bytes@,
{
    match core::str::from_utf8(bytes) {
        Ok(s) => Some(s),
        Err(_) => None,
    }
}

/// Returns the index of the first `byte` of `data` in `from..limit`, or
/// `limit` when there is none.
pub fn find_byte_in(data: &[u8], byte: u8, from: usize, limit: usize) -> (r: usize)
    requires
        from <= limit <= data@.len(),
    ensures
        r == find_byte(data@, byte, from as int, limit as int),
        from <= r <= limit,
{
    let mut i: usize = from;
    proof {
        lemma_find_byte(data@, byte, from as int, limit as int);
    }
    while i < limit && data[i] != byte
        invariant
            from <= i <= limit <= data@.len(),
            find_byte(data@, byte, from as int, limit as int) == find_byte(
                data@,
                byte,
                i as int,
                limit as int,
            ),
        decreases limit - i,
    {
        i += 1;
    }
    i
}

/// Returns the index of the first zero byte of `data` in `from..limit`, or
/// `limit` when there is none.
pub fn find_nul_in(data: &[u8], from: usize, limit: usize) -> (r: usize)
    requires
        from <= limit <= data@.len(),
    ensures
        r == find_nul(data@, from as int, limit as int),
        from <= r <= limit,
{
    find_byte_in(data, 0, from, limit)
}

/// Returns the part of `s` that stands before byte index `at`, which is
/// the end of `s` or the index of an ASCII byte.
pub fn str_prefix<'a>(s: &'a str, at: usize) -> (r: &'a str)
    requires
        at <= s.spec_bytes().len(),
        at < s.spec_bytes().len() ==> s.spec_bytes()[at as int] <= 0x7f,
    ensures
        r.spec_bytes() == s.spec_bytes().subrange(0, at as int),
{
    proof {
        lemma_str_bytes(s, s);
        if at < s.spec_bytes().len() {
            vstd::utf8::is_char_boundary_iff_is_leading_byte(s.spec_bytes(), at as int);
        } else {
            vstd::utf8::is_char_boundary_start_end_of_seq(s.spec_bytes());
        }
    }
    let (head, _) = s.split_at(at);
    head
}

/// Whether two byte slices hold the same bytes.
pub fn bytes_eq(a: &[u8], b: &[u8]) -> (r: bool)
    ensures
        r == (a@ == b@),
{
    if a.len() != b.len() {
        return false;
    }
    let mut i: usize = 0;
    while i < a.len()
        invariant
            a@.len() == b@.len(),
            i <= a@.len(),
            forall|j: int| 0 <= j < i ==> a@[j] == b@[j],
        decreases a@.len() - i,
    {
        if a[i] != b[i] {
            return false;
        }
        i += 1;
    }
    assert(a@ =~= b@);
    true
}

/// Whether two strings are the same text.
pub fn str_eq(a: &str, b: &str) -> (r: bool)
    ensures
        r == (a@ == b@),
        r == (a.spec_bytes() == b.spec_bytes()),
{
    proof {
        lemma_str_bytes(a, b);
    }
    bytes_eq(a.as_bytes(), b.as_bytes())
}

} // verus!
