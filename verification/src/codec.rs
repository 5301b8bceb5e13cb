//! The row codec: bytes of whole rows to typed columns, and back.

use vstd::prelude::*;
use crate::column::{ChannelData, Column, Value};
use crate::encode::{Row, RowView};
use crate::endian::{read_i32_le, read_u64_le};
use crate::layout::{
    cell, cell_offset, column, columns, lemma_cell_in_bounds, lemma_column_empty,
    lemma_column_push, lemma_rows_in_bounds, row_offset, timestamp_at, timestamps, total_rows,
};
use crate::schema::{DataType, Schema, TIMESTAMP_WIDTH};

verus! {

/// What a list of buffers holds, buffer by buffer.
pub open spec fn column_views(cols: Seq<ChannelData>) -> Seq<Column> {
    Seq::new(cols.len(), |i: int| cols[i]@)
}

/// Number of complete rows in `data` under `schema`. Trailing bytes that do
/// not make up a whole row are not counted.
pub fn count_rows(data: &[u8], schema: &Schema) -> (n: usize)
    requires
        schema.fits(),
    ensures
        n == total_rows(data@.len(), schema.kinds()),
{
    data.len() / schema.row_size()
}

/// Offset of the first byte of row `row`, for a row that `data` holds
/// completely.
pub fn row_start(data: &[u8], schema: &Schema, row: usize) -> (at: usize)
    requires
        schema.fits(),
        row < total_rows(data@.len(), schema.kinds()),
    ensures
        at == row_offset(schema.kinds(), row as int),
        at + schema.spec_row_size() == row_offset(schema.kinds(), row as int + 1),
        at + schema.spec_row_size() <= data@.len(),
{
    let row_size = schema.row_size();
    proof {
        let kinds = schema.kinds();
        assert(data@.len() == data.len());
        lemma_rows_in_bounds(data@.len(), kinds, row as int);
        lemma_rows_in_bounds(data@.len(), kinds, row as int + 1);
        assert((row as int + 1) * (row_size as int) == (row as int) * (row_size as int)
            + row_size) by (nonlinear_arith);
        assert(row_offset(kinds, row as int) == (row as int) * (row_size as int));
        assert(row_offset(kinds, row as int + 1) == (row as int + 1) * (row_size as int));
    }
    row * row_size
}

/// One empty buffer per channel of `schema`, each of its channel's kind
/// and with room for `capacity` values.
pub fn empty_columns(schema: &Schema, capacity: usize) -> (cols: Vec<ChannelData>)
    ensures
        cols@.len() == schema.kinds().len(),
        forall|c: int|
            0 <= c < cols@.len() ==> (#[trigger] cols@[c])@ == Column::empty(schema.kinds()[c]),
{
    let n = schema.channels.len();
    let mut cols: Vec<ChannelData> = Vec::with_capacity(n);
    let mut i: usize = 0;
    while i < n
        invariant
            n == schema.channels@.len(),
            i <= n,
            cols@.len() == i,
            forall|c: int|
                0 <= c < i ==> (#[trigger] cols@[c])@ == Column::empty(schema.kinds()[c]),
        decreases n - i,
    {
        cols.push(ChannelData::with_capacity(schema.channels[i].data_type, capacity));
        i = i + 1;
    }
    cols
}

/// Decodes the values of row `row` and adds each to the buffer of its
/// channel. The timestamp at the start of the row is passed over.
pub fn decode_row_into(data: &[u8], schema: &Schema, row: usize, cols: &mut Vec<ChannelData>)
    requires
        schema.fits(),
        row < total_rows(data@.len(), schema.kinds()),
        old(cols)@.len() == schema.kinds().len(),
        forall|c: int|
            0 <= c < old(cols)@.len() ==> (#[trigger] old(cols)@[c])@.kind() == schema.kinds()[c],
    ensures
        final(cols)@.len() == old(cols)@.len(),
        forall|c: int|
            0 <= c < old(cols)@.len() ==> (#[trigger] final(cols)@[c])@ == old(cols)@[c]@.push(
                cell(data@, schema.kinds(), row as int, c),
            ),
{
    let ghost kinds = schema.kinds();
    let ghost before = cols@;
    let n = cols.len();
    let start = row_start(data, schema, row);
    assert(data@.len() == data.len());
    let mut at: usize = start + TIMESTAMP_WIDTH;
    let mut c: usize = 0;
    while c < n
        invariant
            kinds == schema.kinds(),
            n == kinds.len(),
            row < total_rows(data@.len(), kinds),
            c <= n,
            cols@.len() == n,
            before.len() == n,
            at == cell_offset(kinds, row as int, c as int),
            at <= row_offset(kinds, row as int + 1) <= data@.len() == data.len(),
            forall|j: int| 0 <= j < n ==> (#[trigger] before[j])@.kind() == kinds[j],
            forall|j: int| c <= j < n ==> #[trigger] cols@[j] == before[j],
            forall|j: int|
                0 <= j < c ==> (#[trigger] cols@[j])@ == before[j]@.push(
                    cell(data@, kinds, row as int, j),
                ),
        decreases n - c,
    {
        proof {
            lemma_cell_in_bounds(data@.len(), kinds, row as int, c as int);
        }
        let ghost snapshot = cols@;
        assert(cols@[c as int]@.kind() == kinds[c as int]);
        assert(at + kinds[c as int].width() <= data@.len());
        match &mut cols[c] {
            ChannelData::Bit(v) => {
                v.push(data[at]);
                at = at + 1;
            },
            ChannelData::Int(v) => {
                v.push(read_i32_le(&data[at..at + 4]));
                at = at + 4;
            },
            ChannelData::Float(v) => {
                v.push(read_u64_le(&data[at..at + 8]));
                at = at + 8;
            },
        }
        proof {
            assert(forall|j: int| 0 <= j < n && j != c ==> cols@[j] == snapshot[j]);
            crate::endian::lemma_le_i32_range(data@.subrange(at as int - 4, at as int));
            crate::endian::lemma_le_u64_range(data@.subrange(at as int - 8, at as int));
        }
        c = c + 1;
    }
}

/// Decodes rows `start_row..end_row` of `data` into one buffer per channel,
/// in schema order, each holding its channel's values in row order.
pub fn decode_rows(data: &[u8], schema: &Schema, start_row: usize, end_row: usize) -> (cols: Vec<
    ChannelData,
>)
    requires
        schema.fits(),
        start_row <= end_row <= total_rows(data@.len(), schema.kinds()),
    ensures
        column_views(cols@) == columns(data@, schema.kinds(), start_row as int, end_row as int),
{
    let ghost kinds = schema.kinds();
    let mut cols = empty_columns(schema, end_row - start_row);
    let mut row: usize = start_row;
    proof {
        assert forall|c: int| 0 <= c < kinds.len() implies (#[trigger] cols@[c])@ == column(
            data@,
            kinds,
            c,
            start_row as int,
            row as int,
        ) by {
            lemma_column_empty(data@, kinds, c, start_row as int);
        }
    }
    while row < end_row
        invariant
            kinds == schema.kinds(),
            schema.fits(),
            start_row <= row <= end_row <= total_rows(data@.len(), kinds),
            cols@.len() == kinds.len(),
            forall|c: int|
                0 <= c < kinds.len() ==> (#[trigger] cols@[c])@ == column(
                    data@,
                    kinds,
                    c,
                    start_row as int,
                    row as int,
                ),
        decreases end_row - row,
    {
        proof {
            assert forall|c: int| 0 <= c < kinds.len() implies (#[trigger] cols@[c])@.kind()
                == kinds[c] by {
                crate::layout::lemma_column_values(data@, kinds, c, start_row as int, row as int);
            }
        }
        decode_row_into(data, schema, row, &mut cols);
        proof {
            assert forall|c: int| 0 <= c < kinds.len() implies (#[trigger] cols@[c])@ == column(
                data@,
                kinds,
                c,
                start_row as int,
                row as int + 1,
            ) by {
                lemma_column_push(data@, kinds, c, start_row as int, row as int);
            }
        }
        row = row + 1;
    }
    assert(column_views(cols@) =~= columns(data@, kinds, start_row as int, end_row as int));
    cols
}

/// Reads the timestamps of rows `start_row..end_row` of `data`, as the bit
/// patterns of the doubles, in row order.
pub fn decode_timestamps(data: &[u8], schema: &Schema, start_row: usize, end_row: usize) -> (stamps:
    Vec<u64>)
    requires
        schema.fits(),
        start_row <= end_row <= total_rows(data@.len(), schema.kinds()),
    ensures
        stamps@ == timestamps(data@, schema.kinds(), start_row as int, end_row as int),
{
    let ghost kinds = schema.kinds();
    let mut stamps: Vec<u64> = Vec::with_capacity(end_row - start_row);
    let mut row: usize = start_row;
    while row < end_row
        invariant
            kinds == schema.kinds(),
            schema.fits(),
            start_row <= row <= end_row <= total_rows(data@.len(), kinds),
            stamps@ == timestamps(data@, kinds, start_row as int, row as int),
        decreases end_row - row,
    {
        let at = row_start(data, schema, row);
        assert(data@.len() == data.len());
        stamps.push(read_u64_le(&data[at..at + TIMESTAMP_WIDTH]));
        proof {
            crate::endian::lemma_le_u64_range(data@.subrange(at as int, at + 8));
            assert(stamps@ =~= timestamps(data@, kinds, start_row as int, row + 1));
        }
        row = row + 1;
    }
    stamps
}

/// What row `row` of `data` decodes to: its timestamp and the value of
/// every channel, in schema order.
pub open spec fn decoded_row(data: Seq<u8>, kinds: Seq<DataType>, row: int) -> RowView {
    RowView {
        timestamp: timestamp_at(data, kinds, row),
        values: Seq::new(kinds.len(), |c: int| cell(data, kinds, row, c)),
    }
}

/// Decodes one row: the timestamp first, then every channel's value at the
/// offset that the widths of the channels before it add up to.
pub fn decode_row(data: &[u8], schema: &Schema, row: usize) -> (decoded: Row)
    requires
        schema.fits(),
        row < total_rows(data@.len(), schema.kinds()),
    ensures
        decoded@ == decoded_row(data@, schema.kinds(), row as int),
{
    let ghost kinds = schema.kinds();
    let n = schema.channels.len();
    let start = row_start(data, schema, row);
    assert(data@.len() == data.len());
    let timestamp = read_u64_le(&data[start..start + TIMESTAMP_WIDTH]);
    proof {
        crate::endian::lemma_le_u64_range(data@.subrange(start as int, start + 8));
    }
    let mut values: Vec<Value> = Vec::with_capacity(n);
    let mut at: usize = start + TIMESTAMP_WIDTH;
    let mut c: usize = 0;
    while c < n
        invariant
            kinds == schema.kinds(),
            n == schema.channels@.len(),
            row < total_rows(data@.len(), kinds),
            c <= n,
            values@.len() == c,
            at == cell_offset(kinds, row as int, c as int),
            at <= row_offset(kinds, row as int + 1) <= data@.len() == data.len(),
            forall|j: int| 0 <= j < c ==> #[trigger] values@[j] == cell(data@, kinds, row as int, j),
        decreases n - c,
    {
        proof {
            lemma_cell_in_bounds(data@.len(), kinds, row as int, c as int);
        }
        match schema.channels[c].data_type {
            DataType::Bit => {
                values.push(Value::Bit(data[at]));
                at = at + 1;
            },
            DataType::Int => {
                values.push(Value::Int(read_i32_le(&data[at..at + 4])));
                at = at + 4;
            },
            DataType::Float => {
                values.push(Value::Float(read_u64_le(&data[at..at + 8])));
                at = at + 8;
            },
        }
        proof {
            crate::endian::lemma_le_i32_range(data@.subrange(at as int - 4, at as int));
            crate::endian::lemma_le_u64_range(data@.subrange(at as int - 8, at as int));
        }
        c = c + 1;
    }
    let decoded = Row { timestamp, values };
    assert(decoded@.values =~= decoded_row(data@, kinds, row as int).values);
    decoded
}

} // verus!
