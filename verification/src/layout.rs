//! Where each value of a log lies, and what a range of rows decodes to.
//!
//! Everything here is a function of the file's bytes and of the kinds of
//! the schema's channels. The decoders state their results with these.

use vstd::prelude::*;
use crate::column::{Column, Value};
use crate::endian::{le_i32, le_u64};
use crate::schema::{prefix_width, stride, DataType};

verus! {

/// Number of complete rows in a file of `len` bytes. Bytes after the last
/// complete row belong to no row.
pub open spec fn total_rows(len: nat, kinds: Seq<DataType>) -> nat {
    len / stride(kinds)
}

/// Offset of the first byte of row `row`.
pub open spec fn row_offset(kinds: Seq<DataType>, row: int) -> int {
    row * stride(kinds)
}

/// Offset of the value of channel `col` in row `row`: past the rows before
/// it, past the timestamp, past the values of the channels before it.
pub open spec fn cell_offset(kinds: Seq<DataType>, row: int, col: int) -> int {
    row_offset(kinds, row) + 8 + prefix_width(kinds, col)
}

/// The byte at offset `at`.
pub open spec fn bit_at(data: Seq<u8>, at: int) -> u8 {
    data[at]
}

/// The signed integer encoded in the four bytes from offset `at`.
pub open spec fn int_at(data: Seq<u8>, at: int) -> i32 {
    le_i32(data.subrange(at, at + 4)) as i32
}

/// The bit pattern of the double encoded in the eight bytes from offset
/// `at`.
pub open spec fn float_at(data: Seq<u8>, at: int) -> u64 {
    le_u64(data.subrange(at, at + 8)) as u64
}

/// The value of the given kind encoded from offset `at`.
pub open spec fn scalar_at(kind: DataType, data: Seq<u8>, at: int) -> Value {
    match kind {
        DataType::Bit => Value::Bit(bit_at(data, at)),
        DataType::Int => Value::Int(int_at(data, at)),
        DataType::Float => Value::Float(float_at(data, at)),
    }
}

/// The value of channel `col` in row `row`.
pub open spec fn cell(data: Seq<u8>, kinds: Seq<DataType>, row: int, col: int) -> Value {
    scalar_at(kinds[col], data, cell_offset(kinds, row, col))
}

/// The bit pattern of the timestamp of row `row`.
pub open spec fn timestamp_at(data: Seq<u8>, kinds: Seq<DataType>, row: int) -> u64 {
    float_at(data, row_offset(kinds, row))
}

/// The timestamps of rows `lo..hi`, in row order.
pub open spec fn timestamps(data: Seq<u8>, kinds: Seq<DataType>, lo: int, hi: int) -> Seq<u64> {
    Seq::new((hi - lo) as nat, |k: int| timestamp_at(data, kinds, lo + k))
}

/// The values of channel `col` in rows `lo..hi`, in row order, tagged with
/// the channel's kind.
pub open spec fn column(data: Seq<u8>, kinds: Seq<DataType>, col: int, lo: int, hi: int) -> Column {
    match kinds[col] {
        DataType::Bit => Column::Bit(
            Seq::new((hi - lo) as nat, |k: int| bit_at(data, cell_offset(kinds, lo + k, col))),
        ),
        DataType::Int => Column::Int(
            Seq::new((hi - lo) as nat, |k: int| int_at(data, cell_offset(kinds, lo + k, col))),
        ),
        DataType::Float => Column::Float(
            Seq::new((hi - lo) as nat, |k: int| float_at(data, cell_offset(kinds, lo + k, col))),
        ),
    }
}

/// One column per channel, in schema order, holding rows `lo..hi`.
pub open spec fn columns(data: Seq<u8>, kinds: Seq<DataType>, lo: int, hi: int) -> Seq<Column> {
    Seq::new(kinds.len(), |c: int| column(data, kinds, c, lo, hi))
}

/// Column by column, the values of `a` followed by those of `b`.
pub open spec fn concat_columns(a: Seq<Column>, b: Seq<Column>) -> Seq<Column> {
    Seq::new(a.len(), |c: int| a[c].concat(b[c]))
}

/// A column of rows `lo..hi` has the channel's kind, holds `hi - lo`
/// values, and its value at position `k` is the cell of row `lo + k`.
pub proof fn lemma_column_values(data: Seq<u8>, kinds: Seq<DataType>, col: int, lo: int, hi: int)
    requires
        0 <= col < kinds.len(),
        lo <= hi,
    ensures
        column(data, kinds, col, lo, hi).kind() == kinds[col],
        column(data, kinds, col, lo, hi).len() == hi - lo,
        forall|k: int|
            0 <= k < hi - lo ==> #[trigger] column(data, kinds, col, lo, hi).value(k) == cell(
                data,
                kinds,
                lo + k,
                col,
            ),
{
}

/// A column of no rows is the empty column of the channel's kind.
pub proof fn lemma_column_empty(data: Seq<u8>, kinds: Seq<DataType>, col: int, lo: int)
    requires
        0 <= col < kinds.len(),
    ensures
        column(data, kinds, col, lo, lo) == Column::empty(kinds[col]),
{
    assert(column(data, kinds, col, lo, lo) =~= Column::empty(kinds[col]));
}

/// Adding the cell of row `hi` to the column of rows `lo..hi` gives the
/// column of rows `lo..hi + 1`.
pub proof fn lemma_column_push(data: Seq<u8>, kinds: Seq<DataType>, col: int, lo: int, hi: int)
    requires
        0 <= col < kinds.len(),
        lo <= hi,
    ensures
        column(data, kinds, col, lo, hi + 1) == column(data, kinds, col, lo, hi).push(
            cell(data, kinds, hi, col),
        ),
{
    assert(column(data, kinds, col, lo, hi + 1) =~= column(data, kinds, col, lo, hi).push(
        cell(data, kinds, hi, col),
    ));
}

/// Rows `lo..mid` followed by rows `mid..hi` are rows `lo..hi`, for one
/// channel.
pub proof fn lemma_column_split(
    data: Seq<u8>,
    kinds: Seq<DataType>,
    col: int,
    lo: int,
    mid: int,
    hi: int,
)
    requires
        0 <= col < kinds.len(),
        lo <= mid <= hi,
    ensures
        column(data, kinds, col, lo, mid).concat(column(data, kinds, col, mid, hi)) == column(
            data,
            kinds,
            col,
            lo,
            hi,
        ),
{
    assert(column(data, kinds, col, lo, mid).concat(column(data, kinds, col, mid, hi)) =~= column(
        data,
        kinds,
        col,
        lo,
        hi,
    ));
}

/// Rows `lo..mid` followed by rows `mid..hi` are rows `lo..hi`, for every
/// channel at once: decoding in pieces and joining the pieces in row order
/// gives what decoding the whole range gives.
pub proof fn lemma_columns_split(data: Seq<u8>, kinds: Seq<DataType>, lo: int, mid: int, hi: int)
    requires
        lo <= mid <= hi,
    ensures
        concat_columns(columns(data, kinds, lo, mid), columns(data, kinds, mid, hi)) == columns(
            data,
            kinds,
            lo,
            hi,
        ),
{
    assert forall|c: int| 0 <= c < kinds.len() implies columns(data, kinds, lo, mid)[c].concat(
        columns(data, kinds, mid, hi)[c],
    ) == #[trigger] columns(data, kinds, lo, hi)[c] by {
        lemma_column_split(data, kinds, c, lo, mid, hi);
    }
    assert(concat_columns(columns(data, kinds, lo, mid), columns(data, kinds, mid, hi)) =~= columns(
        data,
        kinds,
        lo,
        hi,
    ));
}

/// Every value of a complete row lies inside the file: the cell of channel
/// `col` in row `row` starts after the timestamp of its row and ends no
/// later than the row does.
pub proof fn lemma_cell_in_bounds(len: nat, kinds: Seq<DataType>, row: int, col: int)
    requires
        0 <= row < total_rows(len, kinds),
        0 <= col < kinds.len(),
    ensures
        row_offset(kinds, row) + 8 <= cell_offset(kinds, row, col),
        cell_offset(kinds, row, col) + kinds[col].width() <= row_offset(kinds, row + 1),
        row_offset(kinds, row + 1) <= len,
{
    crate::schema::lemma_prefix_width_monotonic(kinds, col + 1, kinds.len() as int);
    lemma_rows_in_bounds(len, kinds, row + 1);
    assert(row_offset(kinds, row + 1) == row_offset(kinds, row) + stride(kinds)) by (nonlinear_arith)
        requires
            row_offset(kinds, row + 1) == (row + 1) * stride(kinds),
            row_offset(kinds, row) == row * stride(kinds),
    ;
}

/// The first `rows` rows end inside the file whenever `rows` is at most the
/// number of complete rows.
pub proof fn lemma_rows_in_bounds(len: nat, kinds: Seq<DataType>, rows: int)
    requires
        0 <= rows <= total_rows(len, kinds),
    ensures
        0 <= row_offset(kinds, rows) <= len,
{
    let s = stride(kinds) as int;
    let t = total_rows(len, kinds) as int;
    assert(s > 0);
    assert(t * s <= len) by {
        vstd::arithmetic::div_mod::lemma_fundamental_div_mod(len as int, s);
        vstd::arithmetic::div_mod::lemma_mod_bound(len as int, s);
        assert(s * t == t * s) by (nonlinear_arith);
    }
    assert(0 <= rows * s <= t * s) by (nonlinear_arith)
        requires
            0 <= rows <= t,
            s > 0,
    ;
}

/// Bytes that do not complete a row do not count. Extra bytes added to a
/// file leave the number of rows as it is exactly when, together with the
/// bytes that already stood after the last complete row, they are fewer
/// than one row: so after a file of whole rows, anything from one byte to
/// one byte less than a row changes nothing.
pub proof fn lemma_partial_row_is_dropped(len: nat, kinds: Seq<DataType>, extra: nat)
    requires
        len % stride(kinds) + extra < stride(kinds),
    ensures
        total_rows(len + extra, kinds) == total_rows(len, kinds),
{
    let s = stride(kinds) as int;
    let q = (len as int) / s;
    let r = (len as int) % s;
    vstd::arithmetic::div_mod::lemma_fundamental_div_mod(len as int, s);
    vstd::arithmetic::div_mod::lemma_mod_bound(len as int, s);
    assert(len + extra == q * s + (r + extra)) by (nonlinear_arith)
        requires
            len == s * q + r,
    ;
    vstd::arithmetic::div_mod::lemma_fundamental_div_mod_converse((len + extra) as int, s, q, r + extra);
}

/// A file of `rows` whole rows followed by fewer bytes than one row has
/// `rows` rows.
pub proof fn lemma_whole_rows_counted(rows: nat, kinds: Seq<DataType>, extra: nat)
    requires
        extra < stride(kinds),
    ensures
        total_rows(rows * stride(kinds) + extra, kinds) == rows,
{
    let s = stride(kinds) as int;
    vstd::arithmetic::div_mod::lemma_fundamental_div_mod_converse(
        rows * s + extra,
        s,
        rows as int,
        extra as int,
    );
}

} // verus!
