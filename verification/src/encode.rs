//! Writing rows, and the proof that what is written is what is read.

use vstd::prelude::*;
use crate::codec::decoded_row;
use crate::column::Value;
use crate::endian::{
    i32_le_bytes, i32_to_le, lemma_i32_round_trip, lemma_u64_round_trip, u64_le_bytes, u64_to_le,
};
use crate::layout::{
    cell, cell_offset, columns, lemma_column_values, row_offset, scalar_at, timestamp_at,
    timestamps, total_rows,
};
use crate::schema::{prefix_width, stride, DataType};

verus! {

/// One row before it is encoded: the bit pattern of its timestamp and one
/// value per channel, in schema order.
#[derive(Debug, Clone)]
pub struct Row {
    pub timestamp: u64,
    pub values: Vec<Value>,
}

/// What a `Row` holds.
pub struct RowView {
    pub timestamp: u64,
    pub values: Seq<Value>,
}

impl View for Row {
    type V = RowView;

    open spec fn view(&self) -> RowView {
        RowView { timestamp: self.timestamp, values: self.values@ }
    }
}

impl RowView {
    /// Whether the row has one value per kind, each of its kind.
    pub open spec fn conforms(self, kinds: Seq<DataType>) -> bool {
        &&& self.values.len() == kinds.len()
        &&& forall|c: int| 0 <= c < kinds.len() ==> (#[trigger] self.values[c]).kind() == kinds[c]
    }
}

/// The bytes that encode one value.
pub open spec fn value_bytes(v: Value) -> Seq<u8> {
    match v {
        Value::Bit(b) => seq![b],
        Value::Int(i) => i32_le_bytes(i),
        Value::Float(f) => u64_le_bytes(f),
    }
}

/// The bytes that encode the values one after the other, with nothing
/// between them.
pub open spec fn payload_bytes(values: Seq<Value>) -> Seq<u8>
    decreases values.len(),
{
    if values.len() == 0 {
        Seq::empty()
    } else {
        payload_bytes(values.drop_last()) + value_bytes(values.last())
    }
}

/// The bytes of one row: the timestamp, then the values.
pub open spec fn row_bytes(row: RowView) -> Seq<u8> {
    u64_le_bytes(row.timestamp) + payload_bytes(row.values)
}

/// The bytes of a file that holds the given rows and nothing else.
pub open spec fn file_bytes(rows: Seq<RowView>) -> Seq<u8>
    decreases rows.len(),
{
    if rows.len() == 0 {
        Seq::empty()
    } else {
        file_bytes(rows.drop_last()) + row_bytes(rows.last())
    }
}

/// What the rows hold, per row: the views of a list of rows.
pub open spec fn row_views(rows: Seq<Row>) -> Seq<RowView> {
    Seq::new(rows.len(), |i: int| rows[i]@)
}

/// Adds the bytes of `bytes` to the end of `out`.
fn push_bytes(out: &mut Vec<u8>, bytes: &[u8])
    ensures
        final(out)@ == old(out)@ + bytes@,
{
    out.extend_from_slice(bytes);
    assert(out@ =~= old(out)@ + bytes@);
}

/// Adds the encoding of `v` to the end of `out`.
pub fn encode_value(v: Value, out: &mut Vec<u8>)
    ensures
        final(out)@ == old(out)@ + value_bytes(v),
{
    match v {
        Value::Bit(b) => {
            out.push(b);
            assert(out@ =~= old(out)@ + seq![b]);
        },
        Value::Int(i) => {
            let bytes = i32_to_le(i);
            push_bytes(out, bytes.as_slice());
        },
        Value::Float(f) => {
            let bytes = u64_to_le(f);
            push_bytes(out, bytes.as_slice());
        },
    }
}

/// Adds the encoding of `row` to the end of `out`: eight bytes of
/// timestamp, then every value in order.
pub fn encode_row(row: &Row, out: &mut Vec<u8>)
    ensures
        final(out)@ == old(out)@ + row_bytes(row@),
{
    let stamp = u64_to_le(row.timestamp);
    push_bytes(out, stamp.as_slice());
    let n = row.values.len();
    let mut i: usize = 0;
    assert(row.values@.take(0) =~= Seq::<Value>::empty());
    while i < n
        invariant
            n == row.values@.len(),
            i <= n,
            out@ == old(out)@ + (u64_le_bytes(row.timestamp) + payload_bytes(
                row.values@.take(i as int),
            )),
        decreases n - i,
    {
        let ghost so_far = out@;
        encode_value(row.values[i], out);
        proof {
            let next = row.values@.take(i + 1);
            assert(next.drop_last() =~= row.values@.take(i as int));
            assert(next.last() == row.values@[i as int]);
            assert(out@ =~= old(out)@ + (u64_le_bytes(row.timestamp) + payload_bytes(next)));
        }
        i = i + 1;
    }
    assert(row.values@.take(n as int) =~= row.values@);
}

/// The bytes of a file that holds the given rows, in order, and nothing
/// else.
pub fn encode_rows(rows: &[Row]) -> (out: Vec<u8>)
    ensures
        out@ == file_bytes(row_views(rows@)),
{
    let ghost views = row_views(rows@);
    let mut out: Vec<u8> = Vec::new();
    let n = rows.len();
    let mut i: usize = 0;
    assert(views.take(0) =~= Seq::<RowView>::empty());
    while i < n
        invariant
            n == rows@.len(),
            views == row_views(rows@),
            i <= n,
            out@ == file_bytes(views.take(i as int)),
        decreases n - i,
    {
        encode_row(&rows[i], &mut out);
        proof {
            let next = views.take(i + 1);
            assert(next.drop_last() =~= views.take(i as int));
            assert(next.last() == rows@[i as int]@);
        }
        i = i + 1;
    }
    assert(views.take(n as int) =~= views);
    out
}

/// A value is encoded in as many bytes as its kind is wide.
pub proof fn lemma_value_width(v: Value)
    ensures
        value_bytes(v).len() == v.kind().width(),
{
}

/// Decoding at the place where a value was encoded gives the value back,
/// whatever stands before and after it.
pub proof fn lemma_value_round_trip(v: Value, before: Seq<u8>, after: Seq<u8>)
    ensures
        scalar_at(v.kind(), before + value_bytes(v) + after, before.len() as int) == v,
{
    let data = before + value_bytes(v) + after;
    let at = before.len() as int;
    match v {
        Value::Bit(b) => {
            assert(data[at] == value_bytes(v)[0]);
        },
        Value::Int(i) => {
            lemma_i32_round_trip(i, Seq::empty());
            assert(data.subrange(at, at + 4) =~= i32_le_bytes(i) + Seq::<u8>::empty());
        },
        Value::Float(f) => {
            lemma_u64_round_trip(f, Seq::empty());
            assert(data.subrange(at, at + 8) =~= u64_le_bytes(f) + Seq::<u8>::empty());
        },
    }
}

/// The encoding of values listed one after the other is the encoding of
/// the first list followed by that of the second.
pub proof fn lemma_payload_concat(a: Seq<Value>, b: Seq<Value>)
    ensures
        payload_bytes(a + b) == payload_bytes(a) + payload_bytes(b),
    decreases b.len(),
{
    if b.len() == 0 {
        assert(a + b =~= a);
        assert(payload_bytes(a) + payload_bytes(b) =~= payload_bytes(a));
    } else {
        lemma_payload_concat(a, b.drop_last());
        assert((a + b).drop_last() =~= a + b.drop_last());
        assert((a + b).last() == b.last());
        assert(payload_bytes(a + b) =~= payload_bytes(a) + payload_bytes(b));
    }
}

/// The first `n` values of a row that conforms to `kinds` are encoded in as
/// many bytes as the first `n` kinds are wide.
pub proof fn lemma_payload_width(values: Seq<Value>, kinds: Seq<DataType>, n: int)
    requires
        0 <= n <= values.len() <= kinds.len(),
        forall|c: int| 0 <= c < values.len() ==> (#[trigger] values[c]).kind() == kinds[c],
    ensures
        payload_bytes(values.take(n)).len() == prefix_width(kinds, n),
    decreases n,
{
    if n > 0 {
        lemma_payload_width(values, kinds, n - 1);
        assert(values.take(n).drop_last() =~= values.take(n - 1));
        assert(values.take(n).last() == values[n - 1]);
        lemma_value_width(values[n - 1]);
    }
}

/// A row that conforms to `kinds` is encoded in exactly one stride.
pub proof fn lemma_row_width(row: RowView, kinds: Seq<DataType>)
    requires
        row.conforms(kinds),
    ensures
        row_bytes(row).len() == stride(kinds),
{
    lemma_payload_width(row.values, kinds, row.values.len() as int);
    assert(row.values.take(row.values.len() as int) =~= row.values);
}

/// The file of rows listed one after the other is the file of the first
/// list followed by that of the second.
pub proof fn lemma_file_concat(a: Seq<RowView>, b: Seq<RowView>)
    ensures
        file_bytes(a + b) == file_bytes(a) + file_bytes(b),
    decreases b.len(),
{
    if b.len() == 0 {
        assert(a + b =~= a);
        assert(file_bytes(a) + file_bytes(b) =~= file_bytes(a));
    } else {
        lemma_file_concat(a, b.drop_last());
        assert((a + b).drop_last() =~= a + b.drop_last());
        assert((a + b).last() == b.last());
        assert(file_bytes(a + b) =~= file_bytes(a) + file_bytes(b));
    }
}

/// A file of rows that conform to `kinds` is as long as its rows are many
/// times the stride, so it holds exactly those rows and no partial row.
pub proof fn lemma_file_length(rows: Seq<RowView>, kinds: Seq<DataType>)
    requires
        forall|r: int| 0 <= r < rows.len() ==> (#[trigger] rows[r]).conforms(kinds),
    ensures
        file_bytes(rows).len() == rows.len() * stride(kinds),
        total_rows(file_bytes(rows).len(), kinds) == rows.len(),
    decreases rows.len(),
{
    let s = stride(kinds) as int;
    let n = rows.len() as int;
    if n > 0 {
        lemma_file_length(rows.drop_last(), kinds);
        lemma_row_width(rows.last(), kinds);
        assert(n * s == (n - 1) * s + s) by (nonlinear_arith);
    } else {
        assert(n * s == 0) by (nonlinear_arith)
            requires
                n == 0,
        ;
    }
    vstd::arithmetic::div_mod::lemma_div_multiples_vanish(n, s);
    assert(n * s == s * n) by (nonlinear_arith);
}

/// The file of one row is the encoding of that row.
proof fn lemma_file_single(row: RowView)
    ensures
        file_bytes(seq![row]) == row_bytes(row),
{
    let one = seq![row];
    assert(one.drop_last() =~= Seq::<RowView>::empty());
    assert(one.last() == row);
    assert(file_bytes(one.drop_last()) =~= Seq::<u8>::empty());
    assert(file_bytes(one) =~= row_bytes(row));
}

/// The encoding of one value alone is the encoding of that value.
proof fn lemma_payload_single(v: Value)
    ensures
        payload_bytes(seq![v]) == value_bytes(v),
{
    let one = seq![v];
    assert(one.drop_last() =~= Seq::<Value>::empty());
    assert(one.last() == v);
    assert(payload_bytes(one.drop_last()) =~= Seq::<u8>::empty());
    assert(payload_bytes(one) =~= value_bytes(v));
}

/// A file is the rows before row `row`, then that row, then the rows after
/// it; and where all rows conform to `kinds`, row `row` starts at its
/// offset.
proof fn lemma_row_in_file(rows: Seq<RowView>, kinds: Seq<DataType>, row: int)
    requires
        forall|r: int| 0 <= r < rows.len() ==> (#[trigger] rows[r]).conforms(kinds),
        0 <= row < rows.len(),
    ensures
        file_bytes(rows) == file_bytes(rows.take(row)) + row_bytes(rows[row]) + file_bytes(
            rows.skip(row + 1),
        ),
        file_bytes(rows.take(row)).len() == row_offset(kinds, row),
{
    let this = rows[row];
    let head = rows.take(row);
    let tail = rows.skip(row + 1);
    assert(rows =~= head + seq![this] + tail);
    lemma_file_concat(head + seq![this], tail);
    lemma_file_concat(head, seq![this]);
    lemma_file_single(this);
    lemma_file_length(head, kinds);
}

/// The encoding of the values of a row is the values before channel `col`,
/// then the value of that channel, then the values after it; and where the
/// values conform to `kinds`, the values before are as wide as the kinds
/// before.
proof fn lemma_value_in_payload(values: Seq<Value>, kinds: Seq<DataType>, col: int)
    requires
        values.len() == kinds.len(),
        forall|c: int| 0 <= c < values.len() ==> (#[trigger] values[c]).kind() == kinds[c],
        0 <= col < values.len(),
    ensures
        payload_bytes(values) == payload_bytes(values.take(col)) + value_bytes(values[col])
            + payload_bytes(values.skip(col + 1)),
        payload_bytes(values.take(col)).len() == prefix_width(kinds, col),
{
    let v = values[col];
    let left = values.take(col);
    let right = values.skip(col + 1);
    assert(values =~= left + seq![v] + right);
    lemma_payload_concat(left + seq![v], right);
    lemma_payload_concat(left, seq![v]);
    lemma_payload_single(v);
    lemma_payload_width(values, kinds, col);
}

/// The timestamp of a row is read back as it was written.
proof fn lemma_stamp_round_trip(rows: Seq<RowView>, kinds: Seq<DataType>, row: int)
    requires
        forall|r: int| 0 <= r < rows.len() ==> (#[trigger] rows[r]).conforms(kinds),
        0 <= row < rows.len(),
    ensures
        timestamp_at(file_bytes(rows), kinds, row) == rows[row].timestamp,
{
    let data = file_bytes(rows);
    let stamp = u64_le_bytes(rows[row].timestamp);
    let before = file_bytes(rows.take(row));
    let after = payload_bytes(rows[row].values) + file_bytes(rows.skip(row + 1));
    lemma_row_in_file(rows, kinds, row);
    lemma_u64_round_trip(rows[row].timestamp, Seq::empty());
    let at = row_offset(kinds, row);
    assert(data =~= before + stamp + after);
    assert(data.subrange(at, at + 8) =~= stamp + Seq::<u8>::empty());
}

/// The bytes of a file that stand before the value of channel `col` in
/// row `row`.
spec fn bytes_before(rows: Seq<RowView>, row: int, col: int) -> Seq<u8> {
    file_bytes(rows.take(row)) + u64_le_bytes(rows[row].timestamp) + payload_bytes(
        rows[row].values.take(col),
    )
}

/// The bytes of a file that stand after the value of channel `col` in row
/// `row`.
spec fn bytes_after(rows: Seq<RowView>, row: int, col: int) -> Seq<u8> {
    payload_bytes(rows[row].values.skip(col + 1)) + file_bytes(rows.skip(row + 1))
}

/// Six pieces in a row can be grouped around the fourth.
proof fn lemma_regroup(
    f: Seq<u8>,
    s: Seq<u8>,
    p: Seq<u8>,
    v: Seq<u8>,
    q: Seq<u8>,
    t: Seq<u8>,
)
    ensures
        f + (s + (p + v + q)) + t == (f + s + p) + v + (q + t),
        (f + s + p).len() == f.len() + s.len() + p.len(),
{
    assert(f + (s + (p + v + q)) + t =~= (f + s + p) + v + (q + t));
}

/// A timestamp is encoded in eight bytes.
proof fn lemma_stamp_width(x: u64)
    ensures
        u64_le_bytes(x).len() == 8,
{
}

/// The encoding of a value stands in the file at the offset of its cell.
proof fn lemma_cell_place(rows: Seq<RowView>, kinds: Seq<DataType>, row: int, col: int)
    requires
        forall|r: int| 0 <= r < rows.len() ==> (#[trigger] rows[r]).conforms(kinds),
        0 <= row < rows.len(),
        0 <= col < kinds.len(),
    ensures
        file_bytes(rows) == bytes_before(rows, row, col) + value_bytes(rows[row].values[col])
            + bytes_after(rows, row, col),
        bytes_before(rows, row, col).len() == cell_offset(kinds, row, col),
        rows[row].values[col].kind() == kinds[col],
{
    let values = rows[row].values;
    assert(rows[row].conforms(kinds));
    lemma_row_in_file(rows, kinds, row);
    lemma_value_in_payload(values, kinds, col);
    lemma_stamp_width(rows[row].timestamp);
    lemma_regroup(
        file_bytes(rows.take(row)),
        u64_le_bytes(rows[row].timestamp),
        payload_bytes(values.take(col)),
        value_bytes(values[col]),
        payload_bytes(values.skip(col + 1)),
        file_bytes(rows.skip(row + 1)),
    );
}

/// In a file of rows that conform to `kinds`, the bytes at the place of
/// channel `col` in row `row` decode to the value that the row had for that
/// channel, and the first eight bytes of the row decode to its timestamp.
pub proof fn lemma_cell_round_trip(rows: Seq<RowView>, kinds: Seq<DataType>, row: int, col: int)
    requires
        forall|r: int| 0 <= r < rows.len() ==> (#[trigger] rows[r]).conforms(kinds),
        0 <= row < rows.len(),
        0 <= col < kinds.len(),
    ensures
        cell(file_bytes(rows), kinds, row, col) == rows[row].values[col],
        timestamp_at(file_bytes(rows), kinds, row) == rows[row].timestamp,
{
    lemma_stamp_round_trip(rows, kinds, row);
    lemma_cell_place(rows, kinds, row, col);
    lemma_value_round_trip(
        rows[row].values[col],
        bytes_before(rows, row, col),
        bytes_after(rows, row, col),
    );
}

/// Writing rows and reading them back changes nothing. Take any rows that
/// conform to the kinds of a schema and the file that holds their
/// encodings. Then the file has exactly as many rows as were written, the
/// column decoded for a channel holds, row by row, the values that were
/// written for it, bit for bit, and the timestamps decoded are the
/// timestamps written.
pub proof fn lemma_round_trip(rows: Seq<RowView>, kinds: Seq<DataType>)
    requires
        forall|r: int| 0 <= r < rows.len() ==> (#[trigger] rows[r]).conforms(kinds),
    ensures
        total_rows(file_bytes(rows).len(), kinds) == rows.len(),
        timestamps(file_bytes(rows), kinds, 0, rows.len() as int) == Seq::new(
            rows.len(),
            |r: int| rows[r].timestamp,
        ),
        forall|c: int|
            #![trigger columns(file_bytes(rows), kinds, 0, rows.len() as int)[c]]
            0 <= c < kinds.len() ==> {
                let decoded = columns(file_bytes(rows), kinds, 0, rows.len() as int)[c];
                &&& decoded.kind() == kinds[c]
                &&& decoded.len() == rows.len()
                &&& forall|r: int|
                    0 <= r < rows.len() ==> #[trigger] decoded.value(r) == rows[r].values[c]
            },
{
    let data = file_bytes(rows);
    let n = rows.len() as int;
    lemma_file_length(rows, kinds);
    assert forall|r: int| 0 <= r < n implies #[trigger] timestamps(data, kinds, 0, n)[r]
        == rows[r].timestamp by {
        lemma_stamp_round_trip(rows, kinds, r);
    }
    assert(timestamps(data, kinds, 0, n) =~= Seq::new(rows.len(), |r: int| rows[r].timestamp));
    assert forall|c: int| 0 <= c < kinds.len() implies {
        let decoded = #[trigger] columns(data, kinds, 0, n)[c];
        &&& decoded.kind() == kinds[c]
        &&& decoded.len() == rows.len()
        &&& forall|r: int| 0 <= r < rows.len() ==> #[trigger] decoded.value(r) == rows[r].values[c]
    } by {
        let decoded = columns(data, kinds, 0, n)[c];
        lemma_column_values(data, kinds, c, 0, n);
        assert forall|r: int| 0 <= r < rows.len() implies #[trigger] decoded.value(r)
            == rows[r].values[c] by {
            lemma_cell_round_trip(rows, kinds, r, c);
        }
    }
}

/// Decoding row `row` of the file that holds the encodings of `rows`
/// gives `rows[row]` back: the same timestamp and the same values.
pub proof fn lemma_row_round_trip(rows: Seq<RowView>, kinds: Seq<DataType>, row: int)
    requires
        forall|r: int| 0 <= r < rows.len() ==> (#[trigger] rows[r]).conforms(kinds),
        0 <= row < rows.len(),
    ensures
        decoded_row(file_bytes(rows), kinds, row) == rows[row],
{
    let decoded = decoded_row(file_bytes(rows), kinds, row);
    lemma_stamp_round_trip(rows, kinds, row);
    assert(rows[row].conforms(kinds));
    assert forall|c: int| 0 <= c < kinds.len() implies #[trigger] decoded.values[c]
        == rows[row].values[c] by {
        lemma_cell_round_trip(rows, kinds, row, c);
    }
    assert(decoded.values =~= rows[row].values);
}

} // verus!
