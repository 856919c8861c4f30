//! Properties of device tree nodes and the decoding of their values.

use vstd::prelude::*;
use vstd::slice::slice_subrange;
use vstd::string::StringSliceAdditionalSpecFns;
use vstd::utf8::valid_utf8;

use crate::cells::Cells;
use crate::codec::{be32, be64, read_u32_be, read_u64_be};
use crate::error::{PropertyError, StandardError};
use crate::fdt::tree::PropertyView;
use crate::text::{clean_text, find_nul, find_nul_in, lemma_find_nul, str_from_utf8};

verus! {

/// The value read as a `u32`: it must be exactly four bytes long.
pub open spec fn decode_u32(value: Seq<u8>) -> Result<u32, PropertyError> {
    if value.len() == 4 {
        Ok(be32(value, 0))
    } else {
        Err(PropertyError::InvalidLength)
    }
}

/// The value read as a `u64`: it must be exactly eight bytes long.
pub open spec fn decode_u64(value: Seq<u8>) -> Result<u64, PropertyError> {
    if value.len() == 8 {
        Ok(be64(value, 0))
    } else {
        Err(PropertyError::InvalidLength)
    }
}

/// The value read as a string: its only zero byte must be its last byte,
/// and what stands before that must be valid UTF-8. The result is the
/// UTF-8 bytes of the string.
pub open spec fn decode_str(value: Seq<u8>) -> Result<Seq<u8>, PropertyError> {
    let text = value.subrange(0, value.len() - 1);
    if value.len() > 0 && find_nul(value, 0, value.len() as int) == value.len() - 1 && valid_utf8(
        text,
    ) {
        Ok(text)
    } else {
        Err(PropertyError::InvalidString)
    }
}

/// The strings of a string list, read from `pos`, each as its UTF-8 bytes:
/// each string runs up to the next zero byte. The list ends at the end of
/// the value, and also at a string that is not terminated or is not valid
/// UTF-8.
pub open spec fn str_list_from(value: Seq<u8>, pos: int) -> Seq<Seq<u8>>
    decreases value.len() - pos,
{
    let nul = find_nul(value, pos, value.len() as int);
    if pos < 0 || pos >= value.len() || nul >= value.len() || !valid_utf8(
        value.subrange(pos, nul),
    ) {
        Seq::empty()
    } else {
        proof {
            lemma_find_nul(value, pos, value.len() as int);
        }
        seq![value.subrange(pos, nul)] + str_list_from(value, nul + 1)
    }
}

/// The value read as a list of strings.
pub open spec fn decode_str_list(value: Seq<u8>) -> Seq<Seq<u8>> {
    str_list_from(value, 0)
}

/// The sum of the cell counts in `fields`.
pub open spec fn total_cells(fields: Seq<usize>) -> nat
    decreases fields.len(),
{
    if fields.len() == 0 {
        0
    } else {
        total_cells(fields.drop_last()) + fields.last() as nat
    }
}

/// The number of cells of one element of a prop-encoded-array as an error
/// reports it: the sum of the cell counts, or `usize::MAX` when the sum is
/// larger than that.
pub open spec fn chunk_cells(fields: Seq<usize>) -> usize {
    if total_cells(fields) > usize::MAX {
        usize::MAX
    } else {
        total_cells(fields) as usize
    }
}

/// The bytes of field `j` of an element whose bytes are `chunk`.
pub open spec fn field_bytes(chunk: Seq<u8>, fields: Seq<usize>, j: int) -> Seq<u8> {
    chunk.subrange(
        4 * total_cells(fields.take(j)) as int,
        4 * total_cells(fields.take(j + 1)) as int,
    )
}

/// The fields of an element whose bytes are `chunk`, each as the bytes of
/// its cells.
pub open spec fn chunk_fields(chunk: Seq<u8>, fields: Seq<usize>) -> Seq<Seq<u8>> {
    Seq::new(fields.len(), |j: int| field_bytes(chunk, fields, j))
}

/// The value read as a prop-encoded-array whose elements have one field
/// for each entry of `fields`, of as many cells as the entry says.
///
/// An empty value has no elements. Any other value must be a whole number
/// of elements long, or the reading fails with
/// `PropEncodedArraySizeMismatch`.
pub open spec fn prop_encoded_array(value: Seq<u8>, fields: Seq<usize>) -> Result<
    Seq<Seq<Seq<u8>>>,
    StandardError,
> {
    let chunk = 4 * total_cells(fields) as int;
    if value.len() == 0 {
        Ok(Seq::empty())
    } else if chunk == 0 || value.len() as int % chunk != 0 {
        Err(
            StandardError::PropEncodedArraySizeMismatch {
                size: value.len() as usize,
                chunk: chunk_cells(fields),
            },
        )
    } else {
        Ok(
            Seq::new(
                (value.len() as int / chunk) as nat,
                |i: int| chunk_fields(value.subrange(i * chunk, (i + 1) * chunk), fields),
            ),
        )
    }
}

/// The UTF-8 bytes of the strings in `strs`.
pub open spec fn texts(strs: Seq<&str>) -> Seq<Seq<u8>> {
    Seq::new(strs.len(), |i: int| strs[i].spec_bytes())
}

/// The bytes of the cells in `row`.
pub open spec fn row_view(row: Vec<Cells<'_>>) -> Seq<Seq<u8>> {
    Seq::new(row@.len(), |j: int| row@[j]@)
}

/// The bytes of the cells in `rows`.
pub open spec fn rows_view(rows: Seq<Vec<Cells<'_>>>) -> Seq<Seq<Seq<u8>>> {
    Seq::new(rows.len(), |i: int| row_view(rows[i]))
}

/// Whether every row of `rows` has one entry for each field, of as many
/// cells as `fields` says.
pub open spec fn rows_fit(rows: Seq<Vec<Cells<'_>>>, fields: Seq<usize>) -> bool {
    &&& forall|i: int| 0 <= i < rows.len() ==> (#[trigger] rows[i])@.len() == fields.len()
    &&& forall|i: int, j: int|
        0 <= i < rows.len() && 0 <= j < fields.len() ==> (#[trigger] rows[i]@[j])@.len() == 4
            * fields[j]
}

/// Reads `value` as a `u32`, see [`decode_u32`].
pub fn value_as_u32(value: &[u8]) -> (r: Result<u32, PropertyError>)
    ensures
        r == decode_u32(value@),
{
    if value.len() != 4 {
        return Err(PropertyError::InvalidLength);
    }
    match read_u32_be(value, 0) {
        Ok(v) => Ok(v),
        Err(_) => Err(PropertyError::InvalidLength),
    }
}

/// Reads `value` as a `u64`, see [`decode_u64`].
pub fn value_as_u64(value: &[u8]) -> (r: Result<u64, PropertyError>)
    ensures
        r == decode_u64(value@),
{
    if value.len() != 8 {
        return Err(PropertyError::InvalidLength);
    }
    match read_u64_be(value, 0) {
        Ok(v) => Ok(v),
        Err(_) => Err(PropertyError::InvalidLength),
    }
}

/// Reads `value` as a string, see [`decode_str`].
pub fn value_as_str<'a>(value: &'a [u8]) -> (r: Result<&'a str, PropertyError>)
    ensures
        match r {
            Ok(s) => decode_str(value@) == Ok::<Seq<u8>, PropertyError>(s.spec_bytes()),
            Err(e) => decode_str(value@) == Err::<Seq<u8>, PropertyError>(e),
        },
{
    let n = value.len();
    if n == 0 {
        return Err(PropertyError::InvalidString);
    }
    let nul = find_nul_in(value, 0, n);
    if nul != n - 1 {
        return Err(PropertyError::InvalidString);
    }
    match str_from_utf8(slice_subrange(value, 0, nul)) {
        Some(s) => Ok(s),
        None => Err(PropertyError::InvalidString),
    }
}

/// Reads `value` as a list of strings, see [`decode_str_list`].
pub fn value_as_str_list<'a>(value: &'a [u8]) -> (r: Vec<&'a str>)
    ensures
        texts(r@) == decode_str_list(value@),
{
    let n = value.len();
    let mut out: Vec<&'a str> = Vec::new();
    let mut pos: usize = 0;
    assert(texts(out@) + str_list_from(value@, 0) =~= str_list_from(value@, 0));
    loop
        invariant
            n == value@.len(),
            pos <= n,
            decode_str_list(value@) == texts(out@) + str_list_from(value@, pos as int),
        decreases n - pos,
    {
        if pos >= n {
            assert(texts(out@) + Seq::<Seq<u8>>::empty() =~= texts(out@));
            return out;
        }
        let nul = find_nul_in(value, pos, n);
        if nul >= n {
            assert(texts(out@) + Seq::<Seq<u8>>::empty() =~= texts(out@));
            return out;
        }
        match str_from_utf8(slice_subrange(value, pos, nul)) {
            None => {
                assert(texts(out@) + Seq::<Seq<u8>>::empty() =~= texts(out@));
                return out;
            },
            Some(s) => {
                proof {
                    let rest = str_list_from(value@, nul as int + 1);
                    assert(texts(out@) + (seq![s.spec_bytes()] + rest) =~= texts(out@.push(s))
                        + rest);
                }
                out.push(s);
                pos = nul + 1;
            },
        }
    }
}

/// A prefix of `fields` has at most as many cells as a longer prefix.
pub proof fn lemma_total_cells_take(fields: Seq<usize>, j: int, k: int)
    requires
        0 <= j <= k <= fields.len(),
    ensures
        total_cells(fields.take(j)) <= total_cells(fields.take(k)),
        k == fields.len() ==> total_cells(fields.take(k)) == total_cells(fields),
        j < fields.len() ==> total_cells(fields.take(j + 1)) == total_cells(fields.take(j))
            + fields[j] as nat,
    decreases k - j,
{
    if k == fields.len() {
        assert(fields.take(k) =~= fields);
    }
    if j < fields.len() {
        assert(fields.take(j + 1).drop_last() =~= fields.take(j));
    }
    if j < k {
        assert(fields.take(k).drop_last() =~= fields.take(k - 1));
        lemma_total_cells_take(fields, j, k - 1);
    }
}

/// Adds up the cell counts in `fields`. The second component says whether
/// the first is the exact sum; it is `usize::MAX` when the sum is larger.
fn sum_cells(fields: &[usize]) -> (r: (usize, bool))
    ensures
        r.0 == chunk_cells(fields@),
        r.1 == (total_cells(fields@) <= usize::MAX),
{
    let mut acc: usize = 0;
    let mut exact = true;
    let mut i: usize = 0;
    assert(fields@.take(0) =~= Seq::<usize>::empty());
    while i < fields.len()
        invariant
            i <= fields@.len(),
            exact ==> acc == total_cells(fields@.take(i as int)),
            !exact ==> total_cells(fields@.take(i as int)) > usize::MAX && acc == usize::MAX,
        decreases fields@.len() - i,
    {
        proof {
            lemma_total_cells_take(fields@, i as int, i as int + 1);
        }
        if exact {
            if fields[i] > usize::MAX - acc {
                exact = false;
                acc = usize::MAX;
            } else {
                acc = acc + fields[i];
            }
        }
        i += 1;
    }
    proof {
        lemma_total_cells_take(fields@, fields@.len() as int, fields@.len() as int);
    }
    (acc, exact)
}

/// Splits the bytes of one element into its fields.
fn split_chunk<'a>(chunk: &'a [u8], fields: &[usize]) -> (r: Vec<Cells<'a>>)
    requires
        chunk@.len() == 4 * total_cells(fields@),
    ensures
        row_view(r) == chunk_fields(chunk@, fields@),
        r@.len() == fields@.len(),
        forall|j: int| 0 <= j < r@.len() ==> (#[trigger] r@[j])@.len() == 4 * fields@[j],
{
    let mut row: Vec<Cells<'a>> = Vec::new();
    let mut start: usize = 0;
    let mut j: usize = 0;
    let size = chunk.len();
    assert(fields@.take(0) =~= Seq::<usize>::empty());
    while j < fields.len()
        invariant
            j <= fields@.len(),
            size == chunk@.len(),
            chunk@.len() == 4 * total_cells(fields@),
            start == 4 * total_cells(fields@.take(j as int)),
            row@.len() == j,
            forall|k: int| 0 <= k < j ==> (#[trigger] row@[k])@ == field_bytes(chunk@, fields@, k),
            forall|k: int| 0 <= k < j ==> (#[trigger] row@[k])@.len() == 4 * fields@[k],
        decreases fields@.len() - j,
    {
        proof {
            lemma_total_cells_take(fields@, j as int, j as int + 1);
            lemma_total_cells_take(fields@, j as int + 1, fields@.len() as int);
        }
        let end = start + 4 * fields[j];
        let cells = Cells::of(slice_subrange(chunk, start, end));
        row.push(cells);
        start = end;
        j += 1;
    }
    assert(row_view(row) =~= chunk_fields(chunk@, fields@));
    row
}

/// Reads `value` as a prop-encoded-array, see [`prop_encoded_array`].
pub fn value_as_prop_encoded_array<'a>(value: &'a [u8], fields_cells: &[usize]) -> (r: Result<
    Vec<Vec<Cells<'a>>>,
    StandardError,
>)
    ensures
        match r {
            Ok(rows) => prop_encoded_array(value@, fields_cells@) == Ok::<
                Seq<Seq<Seq<u8>>>,
                StandardError,
            >(rows_view(rows@)),
            Err(e) => prop_encoded_array(value@, fields_cells@) == Err::<
                Seq<Seq<Seq<u8>>>,
                StandardError,
            >(e),
        },
        r matches Ok(rows) ==> rows_fit(rows@, fields_cells@),
{
    let len = value.len();
    let mut rows: Vec<Vec<Cells<'a>>> = Vec::new();
    if len == 0 {
        assert(rows_view(rows@) =~= Seq::<Seq<Seq<u8>>>::empty());
        return Ok(rows);
    }
    let (cells, exact) = sum_cells(fields_cells);
    let mismatch = StandardError::PropEncodedArraySizeMismatch { size: len, chunk: cells };
    if !exact || cells == 0 || cells > len / 4 {
        proof {
            let chunk = 4 * total_cells(fields_cells@) as int;
            if chunk != 0 {
                assert(chunk > len);
                assert(len as int % chunk == len) by (nonlinear_arith)
                    requires
                        0 < len < chunk,
                ;
            }
        }
        return Err(mismatch);
    }
    let chunk = 4 * cells;
    if len % chunk != 0 {
        return Err(mismatch);
    }
    let count = len / chunk;
    let mut i: usize = 0;
    let mut pos: usize = 0;
    proof {
        assert(len == count * chunk) by (nonlinear_arith)
            requires
                len % chunk == 0,
                count == len / chunk,
                chunk > 0,
        ;
    }
    while i < count
        invariant
            i <= count,
            chunk == 4 * total_cells(fields_cells@),
            chunk > 0,
            len == value@.len(),
            len == count * chunk,
            pos == i * chunk,
            rows@.len() == i,
            rows_fit(rows@, fields_cells@),
            forall|k: int|
                0 <= k < i ==> row_view(#[trigger] rows@[k]) == chunk_fields(
                    value@.subrange(k * chunk, (k + 1) * chunk),
                    fields_cells@,
                ),
        decreases count - i,
    {
        proof {
            assert((i + 1) * chunk == i * chunk + chunk) by (nonlinear_arith);
            assert((i + 1) * chunk <= count * chunk) by (nonlinear_arith)
                requires
                    i + 1 <= count,
                    chunk > 0,
            ;
        }
        let row = split_chunk(slice_subrange(value, pos, pos + chunk), fields_cells);
        rows.push(row);
        pos = pos + chunk;
        i += 1;
    }
    proof {
        assert(count == len as int / chunk as int);
        assert(rows_view(rows@) =~= Seq::new(
            (len / chunk) as nat,
            |i: int|
                chunk_fields(value@.subrange(i * chunk, (i + 1) * chunk), fields_cells@),
        ));
    }
    Ok(rows)
}

/// A property of a device tree node.
pub trait Property<'a>: Sized {
    /// The name and the value of the property.
    spec fn model(&self) -> PropertyView;

    /// Returns the name of this property.
    fn name(&self) -> (r: &'a str)
        ensures
            r.spec_bytes() == self.model().name,
    ;

    /// Returns the value of this property.
    fn value(&self) -> (r: &'a [u8])
        ensures
            r@ == self.model().value,
    ;

    /// Returns the value of this property as a `u32`.
    ///
    /// Fails with `InvalidLength` when the value is not 4 bytes long.
    fn as_u32(&self) -> (r: Result<u32, PropertyError>)
        ensures
            r == decode_u32(self.model().value),
    {
        value_as_u32(self.value())
    }

    /// Returns the value of this property as a `u64`.
    ///
    /// Fails with `InvalidLength` when the value is not 8 bytes long.
    fn as_u64(&self) -> (r: Result<u64, PropertyError>)
        ensures
            r == decode_u64(self.model().value),
    {
        value_as_u64(self.value())
    }

    /// Returns the value of this property as a string.
    ///
    /// Fails with `InvalidString` when the value is not a string with a
    /// single NUL at its end, or is not valid UTF-8.
    fn as_str(&self) -> (r: Result<&'a str, PropertyError>)
        ensures
            match r {
                Ok(s) => decode_str(self.model().value) == Ok::<Seq<u8>, PropertyError>(
                    s.spec_bytes(),
                ),
                Err(e) => decode_str(self.model().value) == Err::<Seq<u8>, PropertyError>(e),
            },
    {
        value_as_str(self.value())
    }

    /// Returns the strings in this property.
    fn as_str_list(&self) -> (r: Vec<&'a str>)
        ensures
            texts(r@) == decode_str_list(self.model().value),
    {
        value_as_str_list(self.value())
    }

    /// Returns the elements of the property interpreted as a
    /// `prop-encoded-array`.
    ///
    /// Each element of the array has the same number of fields, where each
    /// field has the number of cells specified by the corresponding entry in
    /// `fields_cells`.
    fn as_prop_encoded_array(&self, fields_cells: &[usize]) -> (r: Result<
        Vec<Vec<Cells<'a>>>,
        StandardError,
    >)
        ensures
            match r {
                Ok(rows) => prop_encoded_array(self.model().value, fields_cells@) == Ok::<
                    Seq<Seq<Seq<u8>>>,
                    StandardError,
                >(rows_view(rows@)),
                Err(e) => prop_encoded_array(self.model().value, fields_cells@) == Err::<
                    Seq<Seq<Seq<u8>>>,
                    StandardError,
                >(e),
            },
            r matches Ok(rows) ==> rows_fit(rows@, fields_cells@),
    {
        value_as_prop_encoded_array(self.value(), fields_cells)
    }
}

/// The form in which the value of a property is shown in device tree
/// source.
#[derive(Debug, Clone, Copy, PartialEq, Eq)]
pub enum ValueForm {
    /// The value is empty: the property is shown by its name alone.
    Empty,
    /// The value is shown as a list of strings.
    Strings,
    /// The value is shown as a list of 32-bit cells.
    Cells,
    /// The value is shown as a list of bytes.
    Bytes,
}

/// Whether `byte` can stand in a value that is shown as strings: a visible
/// ASCII character, a space, or the zero byte that ends a string.
pub open spec fn shown_in_strings(byte: u8) -> bool {
    (0x21 <= byte <= 0x7e) || byte == 0x20 || byte == 0
}

/// Whether `value` is shown as a list of strings: every byte can stand in
/// such a value, the last byte is zero, and no two zero bytes follow each
/// other.
pub open spec fn shown_as_strings(value: Seq<u8>) -> bool {
    &&& value.len() > 0
    &&& value.last() == 0
    &&& forall|i: int| 0 <= i < value.len() ==> shown_in_strings(#[trigger] value[i])
    &&& forall|i: int| 0 <= i < value.len() - 1 ==> !(#[trigger] value[i] == 0 && value[i + 1] == 0)
}

/// The form in which `value` is shown: an empty value by the name of the
/// property alone; otherwise as strings where it can be, else as cells
/// where its length is a multiple of four, else as bytes.
pub open spec fn form_of(value: Seq<u8>) -> ValueForm {
    if value.len() == 0 {
        ValueForm::Empty
    } else if shown_as_strings(value) {
        ValueForm::Strings
    } else if value.len() % 4 == 0 {
        ValueForm::Cells
    } else {
        ValueForm::Bytes
    }
}

/// Returns the form in which `value` is shown in device tree source, see
/// [`form_of`].
pub fn value_form(value: &[u8]) -> (r: ValueForm)
    ensures
        r == form_of(value@),
{
    let n = value.len();
    if n == 0 {
        return ValueForm::Empty;
    }
    let mut strings = value[n - 1] == 0;
    let mut i: usize = 0;
    while strings && i < n
        invariant
            n == value@.len(),
            n > 0,
            i <= n,
            strings ==> value@.last() == 0,
            strings ==> forall|k: int| 0 <= k < i ==> shown_in_strings(#[trigger] value@[k]),
            strings ==> forall|k: int|
                0 <= k < i && k < n - 1 ==> !(#[trigger] value@[k] == 0 && value@[k + 1] == 0),
            !strings ==> !shown_as_strings(value@),
        decreases n - i + (if strings { 1int } else { 0int }),
    {
        let byte = value[i];
        let shown = (0x21 <= byte && byte <= 0x7e) || byte == 0x20 || byte == 0;
        if !shown || (byte == 0 && i + 1 < n && value[i + 1] == 0) {
            strings = false;
        } else {
            i += 1;
        }
    }
    if strings {
        ValueForm::Strings
    } else if n % 4 == 0 {
        ValueForm::Cells
    } else {
        ValueForm::Bytes
    }
}

/// The value of a string property that holds `text`: the text and a zero
/// byte.
pub open spec fn str_value(text: Seq<u8>) -> Seq<u8> {
    text + seq![0u8]
}

/// The value of a string list property that holds the strings of `list`:
/// each string with a zero byte after it.
pub open spec fn str_list_value(list: Seq<Seq<u8>>) -> Seq<u8>
    decreases list.len(),
{
    if list.len() == 0 {
        Seq::empty()
    } else {
        str_value(list[0]) + str_list_value(list.drop_first())
    }
}

/// A string is read back from the value that holds it, when it is valid
/// UTF-8 and holds no zero byte.
pub proof fn lemma_str_read_back(text: Seq<u8>)
    requires
        clean_text(text),
    ensures
        decode_str(str_value(text)) == Ok::<Seq<u8>, PropertyError>(text),
{
    let value = str_value(text);
    assert forall|i: int| 0 <= i < text.len() implies value[i] != 0 by {
        assert(value[i] == text[i]);
    }
    crate::text::lemma_find_byte_is(value, 0, 0, text.len() as int, value.len() as int);
    assert(value.subrange(0, value.len() - 1) =~= text);
}

/// Reading a string list behind a prefix reads what stands behind the
/// prefix.
pub proof fn lemma_str_list_shift(prefix: Seq<u8>, value: Seq<u8>, pos: int)
    requires
        0 <= pos,
    ensures
        str_list_from(prefix + value, prefix.len() + pos) == str_list_from(value, pos),
    decreases value.len() - pos,
{
    let whole = prefix + value;
    if pos < value.len() {
        crate::text::lemma_find_byte_shift(prefix, value, 0, pos);
        lemma_find_nul(value, pos, value.len() as int);
        let nul = find_nul(value, pos, value.len() as int);
        assert(whole.subrange(prefix.len() + pos, prefix.len() + nul) =~= value.subrange(
            pos,
            nul,
        ));
        if nul < value.len() {
            lemma_str_list_shift(prefix, value, nul + 1);
        }
    }
}

/// A list of strings is read back from the value that holds it, when the
/// strings are valid UTF-8 and hold no zero byte.
pub proof fn lemma_str_list_read_back(list: Seq<Seq<u8>>)
    requires
        forall|i: int| 0 <= i < list.len() ==> clean_text(#[trigger] list[i]),
    ensures
        decode_str_list(str_list_value(list)) == list,
    decreases list.len(),
{
    let value = str_list_value(list);
    if list.len() == 0 {
        assert(decode_str_list(value) =~= list);
    } else {
        let first = list[0];
        let rest = list.drop_first();
        let head = str_value(first);
        assert(clean_text(first));
        assert(value == head + str_list_value(rest));
        assert forall|i: int| 0 <= i < first.len() implies value[i] != 0 by {
            assert(value[i] == first[i]);
        }
        assert(value[first.len() as int] == 0);
        crate::text::lemma_find_byte_is(value, 0, 0, first.len() as int, value.len() as int);
        assert(value.subrange(0, first.len() as int) =~= first);
        assert forall|i: int| 0 <= i < rest.len() implies clean_text(#[trigger] rest[i]) by {
            assert(rest[i] == list[i + 1]);
        }
        lemma_str_list_read_back(rest);
        lemma_str_list_shift(head, str_list_value(rest), 0);
        assert(seq![first] + rest =~= list);
    }
}

/// A value of `k` cells, read as a prop-encoded-array whose elements have
/// one field of `k` cells, is one element whose field holds the whole
/// value. There must be at least one cell.
pub proof fn lemma_single_chunk(value: Seq<u8>, k: usize)
    requires
        k > 0,
        value.len() == 4 * k,
    ensures
        prop_encoded_array(value, seq![k]) == Ok::<Seq<Seq<Seq<u8>>>, StandardError>(
            seq![seq![value]],
        ),
{
    let fields = seq![k];
    assert(fields.drop_last() =~= Seq::<usize>::empty());
    assert(total_cells(Seq::<usize>::empty()) == 0);
    assert(fields.last() == k);
    assert(total_cells(fields) == k);
    assert(fields.take(0) =~= Seq::<usize>::empty());
    assert(fields.take(1) =~= fields);
    let chunk = 4 * k as int;
    assert(value.len() as int % chunk == 0 && value.len() as int / chunk == 1) by (nonlinear_arith)
        requires
            value.len() == chunk,
            chunk > 0,
    ;
    let whole = value.subrange(0 * chunk, (0 + 1) * chunk);
    assert(whole =~= value);
    assert(field_bytes(whole, fields, 0) =~= value);
    assert(chunk_fields(whole, fields) =~= seq![value]);
    let rows = Seq::new(
        (value.len() as int / chunk) as nat,
        |i: int| chunk_fields(value.subrange(i * chunk, (i + 1) * chunk), fields),
    );
    assert(rows =~= seq![seq![value]]);
}

} // verus!
