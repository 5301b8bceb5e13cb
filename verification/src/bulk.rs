//! Whole-file decoding in fixed-size chunks of rows.
//!
//! The rows are cut into contiguous chunks, every chunk is decoded on its
//! own into buffers of its own, and the pieces are joined in chunk order.
//! The chunks are handed to `rayon`, which may decode them at the same
//! time; what comes out does not depend on that, nor on the chunk size.

use vstd::prelude::*;
use rayon::iter::{IntoParallelRefIterator, ParallelIterator};
use crate::codec::{column_views, count_rows, decode_rows, empty_columns};
use crate::column::{ChannelData, Column};
use crate::layout::{
    columns, concat_columns, lemma_column_empty, lemma_columns_split, total_rows,
};
use crate::schema::{DataType, Schema};

verus! {

/// Number of rows in a chunk of the whole-file decoder.
pub const CHUNK_SIZE: usize = 10_000;

/// Number of chunks that `total` rows are cut into.
pub open spec fn chunk_count(total: nat, chunk_size: nat) -> nat {
    ((total + chunk_size - 1) / (chunk_size as int)) as nat
}

/// First row of chunk `i`.
pub open spec fn chunk_start(i: int, chunk_size: nat) -> int {
    i * chunk_size
}

/// Row after the last row of chunk `i`: chunks are `chunk_size` rows long,
/// but for the last one, which ends with the rows.
pub open spec fn chunk_end(i: int, chunk_size: nat, total: nat) -> int {
    if (i + 1) * chunk_size <= total {
        (i + 1) * chunk_size
    } else {
        total as int
    }
}

/// The empty column of each kind, in order.
pub open spec fn empty_views(kinds: Seq<DataType>) -> Seq<Column> {
    Seq::new(kinds.len(), |c: int| Column::empty(kinds[c]))
}

/// The pieces joined in the order of `parts`, column by column.
pub open spec fn merge_parts(kinds: Seq<DataType>, parts: Seq<Seq<Column>>) -> Seq<Column>
    decreases parts.len(),
{
    if parts.len() == 0 {
        empty_views(kinds)
    } else {
        concat_columns(merge_parts(kinds, parts.drop_last()), parts.last())
    }
}

/// What each chunk decodes to, in chunk order, when the rows of `data` are
/// cut into chunks of `chunk_size` rows.
pub open spec fn chunked(data: Seq<u8>, kinds: Seq<DataType>, chunk_size: nat) -> Seq<Seq<Column>> {
    let total = total_rows(data.len(), kinds);
    Seq::new(
        chunk_count(total, chunk_size),
        |i: int|
            columns(data, kinds, chunk_start(i, chunk_size), chunk_end(i, chunk_size, total)),
    )
}

/// The chunks tile the rows: chunk `i` starts where chunk `i - 1` ended,
/// no chunk is empty, and the last one ends with the rows.
pub proof fn lemma_chunks_tile(total: nat, chunk_size: nat, i: int)
    requires
        chunk_size > 0,
        0 <= i < chunk_count(total, chunk_size),
    ensures
        0 <= chunk_start(i, chunk_size) < chunk_end(i, chunk_size, total) <= total,
        chunk_end(i, chunk_size, total) == if i + 1 < chunk_count(total, chunk_size) {
            chunk_start(i + 1, chunk_size)
        } else {
            total as int
        },
{
    let cs = chunk_size as int;
    let n = chunk_count(total, chunk_size) as int;
    let t = total as int;
    vstd::arithmetic::div_mod::lemma_fundamental_div_mod(t + cs - 1, cs);
    vstd::arithmetic::div_mod::lemma_mod_bound(t + cs - 1, cs);
    assert((t + cs - 1) / cs == n);
    assert(cs * n == n * cs) by (nonlinear_arith);
    // n * cs <= t + cs - 1 < (n + 1) * cs
    assert(n * cs <= t + cs - 1);
    assert(t + cs - 1 < n * cs + cs);
    assert((i + 1) * cs == i * cs + cs) by (nonlinear_arith);
    assert(0 <= i * cs) by (nonlinear_arith)
        requires
            0 <= i,
            0 < cs,
    ;
    assert((i + 1) * cs <= n * cs) by (nonlinear_arith)
        requires
            i + 1 <= n,
            0 < cs,
    ;
    if i + 1 < n {
        assert((i + 2) * cs <= n * cs) by (nonlinear_arith)
            requires
                i + 2 <= n,
                0 < cs,
        ;
        assert((i + 2) * cs == (i + 1) * cs + cs) by (nonlinear_arith);
    }
}

/// There are no chunks exactly when there are no rows.
pub proof fn lemma_no_rows_no_chunks(total: nat, chunk_size: nat)
    requires
        chunk_size > 0,
    ensures
        chunk_count(total, chunk_size) == 0 <==> total == 0,
{
    let cs = chunk_size as int;
    vstd::arithmetic::div_mod::lemma_fundamental_div_mod(total + cs - 1, cs);
    vstd::arithmetic::div_mod::lemma_mod_bound(total + cs - 1, cs);
    let q = (total + cs - 1) / cs;
    let r = (total + cs - 1) % cs;
    assert(total + cs - 1 == cs * q + r);
    if q > 0 {
        assert(cs * q >= cs) by (nonlinear_arith)
            requires
                q >= 1,
                cs > 0,
        ;
    } else if q < 0 {
        assert(cs * q <= -cs) by (nonlinear_arith)
            requires
                q <= -1,
                cs > 0,
        ;
    } else {
        assert(cs * q == 0) by (nonlinear_arith)
            requires
                q == 0,
        ;
    }
    assert(chunk_count(total, chunk_size) == q as nat);
}

/// Joining the first `k` chunks gives the rows from the first to the end
/// of chunk `k - 1`.
proof fn lemma_merge_prefix(data: Seq<u8>, kinds: Seq<DataType>, chunk_size: nat, k: int)
    requires
        chunk_size > 0,
        0 <= k <= chunk_count(total_rows(data.len(), kinds), chunk_size),
    ensures
        merge_parts(kinds, chunked(data, kinds, chunk_size).take(k)) == columns(
            data,
            kinds,
            0,
            if k == 0 {
                0
            } else {
                chunk_end(k - 1, chunk_size, total_rows(data.len(), kinds))
            },
        ),
    decreases k,
{
    let total = total_rows(data.len(), kinds);
    let all = chunked(data, kinds, chunk_size);
    let parts = all.take(k);
    if k == 0 {
        assert forall|c: int| 0 <= c < kinds.len() implies #[trigger] empty_views(kinds)[c]
            == columns(data, kinds, 0, 0)[c] by {
            lemma_column_empty(data, kinds, c, 0);
        }
        assert(empty_views(kinds) =~= columns(data, kinds, 0, 0));
    } else {
        lemma_merge_prefix(data, kinds, chunk_size, k - 1);
        lemma_chunks_tile(total, chunk_size, k - 1);
        assert(parts.drop_last() =~= all.take(k - 1));
        assert(parts.last() == all[k - 1]);
        let lo = chunk_start(k - 1, chunk_size);
        let hi = chunk_end(k - 1, chunk_size, total);
        if k - 1 > 0 {
            lemma_chunks_tile(total, chunk_size, k - 2);
        }
        lemma_columns_split(data, kinds, 0, lo, hi);
    }
}

/// Whatever the chunk size, joining the decoded chunks in chunk order
/// gives exactly the columns of all the rows in row order. So two decodes
/// of the same bytes with different chunk sizes agree.
pub proof fn lemma_chunk_size_independence(
    data: Seq<u8>,
    kinds: Seq<DataType>,
    chunk_size: nat,
    other_chunk_size: nat,
)
    requires
        chunk_size > 0,
        other_chunk_size > 0,
    ensures
        merge_parts(kinds, chunked(data, kinds, chunk_size)) == columns(
            data,
            kinds,
            0,
            total_rows(data.len(), kinds) as int,
        ),
        merge_parts(kinds, chunked(data, kinds, chunk_size)) == merge_parts(
            kinds,
            chunked(data, kinds, other_chunk_size),
        ),
{
    lemma_merge_all(data, kinds, chunk_size);
    lemma_merge_all(data, kinds, other_chunk_size);
}

/// Joining all the chunks gives the columns of all the rows.
proof fn lemma_merge_all(data: Seq<u8>, kinds: Seq<DataType>, chunk_size: nat)
    requires
        chunk_size > 0,
    ensures
        merge_parts(kinds, chunked(data, kinds, chunk_size)) == columns(
            data,
            kinds,
            0,
            total_rows(data.len(), kinds) as int,
        ),
{
    let total = total_rows(data.len(), kinds);
    let all = chunked(data, kinds, chunk_size);
    let n = chunk_count(total, chunk_size) as int;
    lemma_merge_prefix(data, kinds, chunk_size, n);
    assert(all.take(n) =~= all);
    if n == 0 {
        lemma_no_rows_no_chunks(total, chunk_size);
    } else {
        lemma_chunks_tile(total, chunk_size, n - 1);
    }
}

/// The row ranges of the chunks, in order.
pub fn chunk_ranges(total: usize, chunk_size: usize) -> (ranges: Vec<(usize, usize)>)
    requires
        chunk_size > 0,
    ensures
        ranges@.len() == chunk_count(total as nat, chunk_size as nat),
        forall|i: int|
            0 <= i < ranges@.len() ==> (#[trigger] ranges@[i]).0 == chunk_start(
                i,
                chunk_size as nat,
            ) && ranges@[i].1 == chunk_end(i, chunk_size as nat, total as nat),
{
    let ghost n = chunk_count(total as nat, chunk_size as nat) as int;
    let mut ranges: Vec<(usize, usize)> = Vec::new();
    let mut start: usize = 0;
    proof {
        lemma_no_rows_no_chunks(total as nat, chunk_size as nat);
        assert(chunk_start(0, chunk_size as nat) == 0);
    }
    while start < total
        invariant
            chunk_size > 0,
            n == chunk_count(total as nat, chunk_size as nat),
            ranges@.len() <= n,
            start <= total,
            start == if ranges@.len() < n {
                chunk_start(ranges@.len() as int, chunk_size as nat)
            } else {
                total as int
            },
            forall|i: int|
                0 <= i < ranges@.len() ==> (#[trigger] ranges@[i]).0 == chunk_start(
                    i,
                    chunk_size as nat,
                ) && ranges@[i].1 == chunk_end(i, chunk_size as nat, total as nat),
        decreases total - start,
    {
        proof {
            let i = ranges@.len() as int;
            lemma_chunks_tile(total as nat, chunk_size as nat, i);
            assert((i + 1) * (chunk_size as int) == i * (chunk_size as int) + chunk_size)
                by (nonlinear_arith);
        }
        let end = if total - start < chunk_size {
            total
        } else {
            start + chunk_size
        };
        ranges.push((start, end));
        start = end;
    }
    proof {
        if ranges@.len() < n {
            lemma_chunks_tile(total as nat, chunk_size as nat, ranges@.len() as int);
        }
    }
    ranges
}

/// What each piece of a list of decoded pieces holds.
pub open spec fn part_views(parts: Seq<Vec<ChannelData>>) -> Seq<Seq<Column>> {
    Seq::new(parts.len(), |i: int| column_views(parts[i]@))
}

/// Whether a piece has one column per kind, each of its kind.
pub open spec fn matches_kinds(part: Seq<Column>, kinds: Seq<DataType>) -> bool {
    &&& part.len() == kinds.len()
    &&& forall|c: int| 0 <= c < kinds.len() ==> (#[trigger] part[c]).kind() == kinds[c]
}

/// Joins one piece onto the end of `merged`, column by column.
fn merge_part(merged: &mut Vec<ChannelData>, part: Vec<ChannelData>, Ghost(kinds): Ghost<
    Seq<DataType>,
>)
    requires
        matches_kinds(column_views(old(merged)@), kinds),
        matches_kinds(column_views(part@), kinds),
    ensures
        column_views(final(merged)@) == concat_columns(
            column_views(old(merged)@),
            column_views(part@),
        ),
        matches_kinds(column_views(final(merged)@), kinds),
{
    let ghost before = merged@;
    let ghost n = kinds.len();
    let mut c: usize = 0;
    assert forall|j: int| 0 <= j < n implies (#[trigger] before[j])@.kind() == kinds[j] by {
        assert(column_views(before)[j].kind() == kinds[j]);
    }
    assert forall|j: int| 0 <= j < n implies (#[trigger] part@[j])@.kind() == kinds[j] by {
        assert(column_views(part@)[j].kind() == kinds[j]);
    }
    for src in it: part.into_iter()
        invariant
            c == it.index(),
            it.seq() == part@,
            n == kinds.len(),
            part@.len() == n,
            before.len() == n,
            merged@.len() == n,
            forall|j: int| 0 <= j < n ==> (#[trigger] before[j])@.kind() == kinds[j],
            forall|j: int| 0 <= j < n ==> (#[trigger] part@[j])@.kind() == kinds[j],
            forall|j: int| c <= j < n ==> #[trigger] merged@[j] == before[j],
            forall|j: int| 0 <= j < c ==> (#[trigger] merged@[j])@ == before[j]@.concat(part@[j]@),
    {
        let ghost snapshot = merged@;
        merged[c].append(src);
        assert(forall|j: int| 0 <= j < n && j != c ==> merged@[j] == snapshot[j]);
        assert(c < merged.len());
        c = c + 1;
    }
    assert(column_views(merged@) =~= concat_columns(column_views(before), column_views(part@)));
    assert forall|j: int| 0 <= j < n implies (#[trigger] column_views(merged@)[j]).kind()
        == kinds[j] by {
        assert(merged@[j]@ == before[j]@.concat(part@[j]@));
    }
}

/// Joins decoded pieces in the order given: the result holds, for each
/// channel, the values of the first piece, then those of the second, and
/// so on. Every piece has one buffer per channel, of the channel's kind.
pub fn merge_chunks(schema: &Schema, capacity: usize, parts: Vec<Vec<ChannelData>>) -> (merged:
    Vec<ChannelData>)
    requires
        forall|i: int|
            0 <= i < parts@.len() ==> matches_kinds(
                #[trigger] column_views(parts@[i]@),
                schema.kinds(),
            ),
    ensures
        column_views(merged@) == merge_parts(schema.kinds(), part_views(parts@)),
{
    let ghost kinds = schema.kinds();
    let ghost views = part_views(parts@);
    let mut merged = empty_columns(schema, capacity);
    assert(column_views(merged@) =~= empty_views(kinds));
    assert(views.take(0) =~= Seq::<Seq<Column>>::empty());
    for part in it: parts.into_iter()
        invariant
            kinds == schema.kinds(),
            it.seq() == parts@,
            views == part_views(parts@),
            forall|i: int|
                0 <= i < parts@.len() ==> matches_kinds(#[trigger] column_views(parts@[i]@), kinds),
            matches_kinds(column_views(merged@), kinds),
            column_views(merged@) == merge_parts(kinds, views.take(it.index() as int)),
    {
        let ghost k = it.index() as int;
        assert(matches_kinds(column_views(parts@[k]@), kinds));
        merge_part(&mut merged, part, Ghost(kinds));
        proof {
            let next = views.take(k + 1);
            assert(next.drop_last() =~= views.take(k));
            assert(next.last() == column_views(parts@[k]@));
        }
    }
    assert(views.take(parts@.len() as int) =~= views);
    merged
}

/// `rayon`'s `par_iter().map(..).collect()` over the chunk ranges: every
/// range is decoded by `decode_rows`, possibly on different threads at the
/// same time, and the crate collects the results of an indexed parallel
/// iterator into a `Vec` in the order of the items, whatever the order in
/// which they were finished. So piece `i` is what `decode_rows` returns for
/// range `i`. The precondition is that of `decode_rows` for every range.
#[verifier::external_body]
fn decode_chunks(data: &[u8], schema: &Schema, ranges: &Vec<(usize, usize)>) -> (parts: Vec<
    Vec<ChannelData>,
>)
    requires
        schema.fits(),
        forall|i: int|
            0 <= i < ranges@.len() ==> (#[trigger] ranges@[i]).0 <= ranges@[i].1 <= total_rows(
                data@.len(),
                schema.kinds(),
            ),
    ensures
        parts@.len() == ranges@.len(),
        forall|i: int|
            0 <= i < parts@.len() ==> column_views((#[trigger] parts@[i])@) == columns(
                data@,
                schema.kinds(),
                ranges@[i].0 as int,
                ranges@[i].1 as int,
            ),
{
    ranges.par_iter().map(|range| decode_rows(data, schema, range.0, range.1)).collect()
}

/// Decodes every complete row of `data` in chunks of `chunk_size` rows and
/// joins the chunks in chunk order. The result has one buffer per channel,
/// in schema order, holding the channel's values in the order of the rows
/// of the file; it is the same for every chunk size.
pub fn read_channels_chunked(data: &[u8], schema: &Schema, chunk_size: usize) -> (cols: Vec<
    ChannelData,
>)
    requires
        schema.fits(),
        chunk_size > 0,
    ensures
        column_views(cols@) == columns(
            data@,
            schema.kinds(),
            0,
            total_rows(data@.len(), schema.kinds()) as int,
        ),
{
    let ghost kinds = schema.kinds();
    let total = count_rows(data, schema);
    let ranges = chunk_ranges(total, chunk_size);
    proof {
        assert forall|i: int| 0 <= i < ranges@.len() implies (#[trigger] ranges@[i]).0
            <= ranges@[i].1 <= total by {
            lemma_chunks_tile(total as nat, chunk_size as nat, i);
        }
    }
    let parts = decode_chunks(data, schema, &ranges);
    proof {
        assert(part_views(parts@) =~= chunked(data@, kinds, chunk_size as nat));
        assert forall|i: int| 0 <= i < parts@.len() implies matches_kinds(
            #[trigger] column_views(parts@[i]@),
            kinds,
        ) by {
            let part = columns(data@, kinds, ranges@[i].0 as int, ranges@[i].1 as int);
            assert forall|c: int| 0 <= c < kinds.len() implies (#[trigger] part[c]).kind()
                == kinds[c] by {
                crate::layout::lemma_column_values(
                    data@,
                    kinds,
                    c,
                    ranges@[i].0 as int,
                    ranges@[i].1 as int,
                );
            }
        }
        lemma_merge_all(data@, kinds, chunk_size as nat);
    }
    merge_chunks(schema, total, parts)
}

/// Decodes every complete row of `data`: one buffer per channel, in schema
/// order, each holding its channel's values in the order of the rows.
/// Bytes after the last complete row are left out.
pub fn read_channels(data: &[u8], schema: &Schema) -> (cols: Vec<ChannelData>)
    requires
        schema.fits(),
    ensures
        column_views(cols@) == columns(
            data@,
            schema.kinds(),
            0,
            total_rows(data@.len(), schema.kinds()) as int,
        ),
{
    read_channels_chunked(data, schema, CHUNK_SIZE)
}

} // verus!
