//! The streaming reader: a cursor over a memory-mapped log that hands out
//! one bounded batch of rows at a time.

use vstd::prelude::*;
use crate::codec::{column_views, decode_rows, decode_timestamps};
use crate::column::{ChannelData, Column};
use crate::layout::{columns, concat_columns, lemma_columns_split, timestamps, total_rows};
use crate::schema::{DataType, Schema};

verus! {

/// `memmap2::Mmap`, a read-only memory map. Nothing inside it is visible
/// here; the reader only carries it and asks it for its bytes.
#[verifier::external_type_specification]
#[verifier::external_body]
pub struct ExMmap(memmap2::Mmap);

/// The bytes that a memory map shows. A map shows the same bytes for as
/// long as it lives, provided that nobody changes the mapped file
/// meanwhile: that is what whoever created the map has promised.
pub uninterp spec fn mapped_bytes(map: memmap2::Mmap) -> Seq<u8>;

/// `memmap2::Mmap`'s `Deref`: the mapped region as a byte slice. The slice
/// starts at the map's address and has the map's length, both fixed when
/// the map was made.
#[verifier::external_body]
fn map_bytes(map: &memmap2::Mmap) -> (bytes: &[u8])
    ensures
        bytes@ == mapped_bytes(*map),
{
    &map[..]
}

/// Row at which the batch that starts at row `from` ends, when
/// `batch_size` rows are asked for and the file has `total` rows: the batch
/// is cut short at the end of the file, and past the end nothing moves.
pub open spec fn batch_end(from: nat, batch_size: nat, total: nat) -> nat {
    if from >= total {
        from
    } else if batch_size < total - from {
        from + batch_size
    } else {
        total
    }
}

/// Where the cursor stands after batches of the given sizes were asked
/// for, one after the other, starting at row `from`.
pub open spec fn position_after(from: nat, sizes: Seq<nat>, total: nat) -> nat
    decreases sizes.len(),
{
    if sizes.len() == 0 {
        from
    } else {
        position_after(batch_end(from, sizes[0], total), sizes.drop_first(), total)
    }
}

/// What the batches of the given sizes hold when joined in the order in
/// which they were read, starting at row `from`. A request made at the end
/// of the file yields no batch and adds nothing.
pub open spec fn streamed(data: Seq<u8>, kinds: Seq<DataType>, from: nat, sizes: Seq<nat>) -> Seq<
    Column,
>
    decreases sizes.len(),
{
    if sizes.len() == 0 {
        columns(data, kinds, from as int, from as int)
    } else {
        let end = batch_end(from, sizes[0], total_rows(data.len(), kinds));
        concat_columns(
            columns(data, kinds, from as int, end as int),
            streamed(data, kinds, end, sizes.drop_first()),
        )
    }
}

/// The cursor only moves forward and never passes the end of the file.
pub proof fn lemma_cursor_moves_forward(from: nat, sizes: Seq<nat>, total: nat)
    requires
        from <= total,
    ensures
        from <= position_after(from, sizes, total) <= total,
    decreases sizes.len(),
{
    if sizes.len() > 0 {
        lemma_cursor_moves_forward(batch_end(from, sizes[0], total), sizes.drop_first(), total);
    }
}

/// Once the cursor is at the end of the file it stays there. Whatever is
/// asked for afterwards, the cursor stands at the same row before every
/// request, so that every request is answered with "no more data", and
/// nothing is added to what was read.
pub proof fn lemma_exhausted_is_terminal(
    data: Seq<u8>,
    kinds: Seq<DataType>,
    from: nat,
    sizes: Seq<nat>,
)
    requires
        from >= total_rows(data.len(), kinds),
    ensures
        position_after(from, sizes, total_rows(data.len(), kinds)) == from,
        forall|i: int|
            0 <= i <= sizes.len() ==> #[trigger] position_after(
                from,
                sizes.take(i),
                total_rows(data.len(), kinds),
            ) == from,
        streamed(data, kinds, from, sizes) == columns(data, kinds, from as int, from as int),
    decreases sizes.len(),
{
    let total = total_rows(data.len(), kinds);
    if sizes.len() > 0 {
        lemma_exhausted_is_terminal(data, kinds, from, sizes.drop_first());
        lemma_columns_split(data, kinds, from as int, from as int, from as int);
        assert forall|i: int| 0 <= i <= sizes.len() implies #[trigger] position_after(
            from,
            sizes.take(i),
            total,
        ) == from by {
            if i > 0 {
                let rest = sizes.drop_first().take(i - 1);
                assert(sizes.take(i).drop_first() =~= rest);
                assert(position_after(from, rest, total) == from);
            }
        }
    }
}

/// Whatever the batch sizes, the batches joined in the order in which they
/// were read hold exactly the rows from the first row read to the row at
/// which the cursor stands afterwards, in row order.
pub proof fn lemma_streamed_is_contiguous(
    data: Seq<u8>,
    kinds: Seq<DataType>,
    from: nat,
    sizes: Seq<nat>,
)
    requires
        from <= total_rows(data.len(), kinds),
    ensures
        streamed(data, kinds, from, sizes) == columns(
            data,
            kinds,
            from as int,
            position_after(from, sizes, total_rows(data.len(), kinds)) as int,
        ),
    decreases sizes.len(),
{
    let total = total_rows(data.len(), kinds);
    if sizes.len() > 0 {
        let end = batch_end(from, sizes[0], total);
        lemma_streamed_is_contiguous(data, kinds, end, sizes.drop_first());
        lemma_cursor_moves_forward(end, sizes.drop_first(), total);
        lemma_columns_split(
            data,
            kinds,
            from as int,
            end as int,
            position_after(end, sizes.drop_first(), total) as int,
        );
    }
}

/// Batches of at least one row each run to the end of the file as soon as
/// there are as many of them as rows are left.
pub proof fn lemma_positive_batches_drain(from: nat, sizes: Seq<nat>, total: nat)
    requires
        from <= total,
        sizes.len() >= total - from,
        forall|i: int| 0 <= i < sizes.len() ==> #[trigger] sizes[i] > 0,
    ensures
        position_after(from, sizes, total) == total,
    decreases sizes.len(),
{
    if sizes.len() > 0 {
        let rest = sizes.drop_first();
        assert forall|i: int| 0 <= i < rest.len() implies #[trigger] rest[i] > 0 by {
            assert(rest[i] == sizes[i + 1]);
        }
        assert(sizes[0] > 0);
        lemma_positive_batches_drain(batch_end(from, sizes[0], total), rest, total);
    }
}

/// Reading a file from its first row in batches, of whatever sizes, until
/// no row is left gives, batch after batch, exactly the columns that
/// decoding the whole file at once gives. Two runs with different batch
/// sizes therefore agree with each other.
pub proof fn lemma_batch_size_independence(data: Seq<u8>, kinds: Seq<DataType>, sizes: Seq<nat>)
    requires
        position_after(0, sizes, total_rows(data.len(), kinds)) == total_rows(data.len(), kinds),
    ensures
        streamed(data, kinds, 0, sizes) == columns(
            data,
            kinds,
            0,
            total_rows(data.len(), kinds) as int,
        ),
{
    lemma_streamed_is_contiguous(data, kinds, 0, sizes);
}

/// A reading session over one memory-mapped log. It owns the map, knows
/// the schema, and remembers the row at which the next batch starts.
pub struct BatchReader {
    mmap: memmap2::Mmap,
    schema: Schema,
    row_size: usize,
    total_rows: usize,
    current_row: usize,
}

impl BatchReader {
    #[verifier::type_invariant]
    spec fn well_formed(&self) -> bool {
        &&& self.schema.fits()
        &&& self.row_size == self.schema.spec_row_size()
        &&& self.total_rows == total_rows(mapped_bytes(self.mmap).len(), self.schema.kinds())
        &&& self.current_row <= self.total_rows
    }

    /// The bytes of the mapped file.
    pub closed spec fn data(&self) -> Seq<u8> {
        mapped_bytes(self.mmap)
    }

    /// The kinds of the schema's channels, in schema order.
    pub closed spec fn kinds(&self) -> Seq<DataType> {
        self.schema.kinds()
    }

    /// The row at which the next batch starts.
    pub closed spec fn position(&self) -> nat {
        self.current_row as nat
    }

    /// Number of complete rows in the mapped file.
    pub open spec fn rows(&self) -> nat {
        total_rows(self.data().len(), self.kinds())
    }

    /// Starts a session at the first row of the mapped file.
    pub fn new(mmap: memmap2::Mmap, schema: Schema) -> (reader: BatchReader)
        requires
            schema.fits(),
        ensures
            reader.data() == mapped_bytes(mmap),
            reader.kinds() == schema.kinds(),
            reader.position() == 0,
    {
        let row_size = schema.row_size();
        let total_rows = map_bytes(&mmap).len() / row_size;
        BatchReader { mmap, schema, row_size, total_rows, current_row: 0 }
    }

    /// Number of complete rows in the file. Bytes after the last complete
    /// row are not counted.
    pub fn total_rows(&self) -> (n: usize)
        ensures
            n == self.rows(),
    {
        proof {
            use_type_invariant(self);
        }
        self.total_rows
    }

    /// Decodes the next `batch_size` rows, or as many as are left, and
    /// moves the cursor past them. The batch has one buffer per channel, in
    /// schema order; timestamps are not part of it. At the end of the file
    /// the answer is `None`, every time, and nothing moves.
    pub fn read_batch(&mut self, batch_size: usize) -> (batch: Option<Vec<ChannelData>>)
        ensures
            final(self).data() == old(self).data(),
            final(self).kinds() == old(self).kinds(),
            final(self).position() == batch_end(
                old(self).position(),
                batch_size as nat,
                old(self).rows(),
            ),
            old(self).position() >= old(self).rows() <==> batch is None,
            batch matches Some(cols) ==> column_views(cols@) == columns(
                old(self).data(),
                old(self).kinds(),
                old(self).position() as int,
                final(self).position() as int,
            ),
    {
        proof {
            use_type_invariant(&*self);
        }
        if self.current_row >= self.total_rows {
            return None;
        }
        let remaining = self.total_rows - self.current_row;
        let rows_to_read = if batch_size < remaining {
            batch_size
        } else {
            remaining
        };
        let start_row = self.current_row;
        let end_row = start_row + rows_to_read;
        let batch = decode_rows(map_bytes(&self.mmap), &self.schema, start_row, end_row);
        self.current_row = end_row;
        Some(batch)
    }

    /// The timestamps of `count` rows from `start_row` on, as the bit
    /// patterns of the doubles, in row order. The range is cut short at the
    /// end of the file; from a row past the end nothing is read. The cursor
    /// plays no part and is not moved.
    pub fn read_timestamps(&self, start_row: usize, count: usize) -> (stamps: Vec<u64>)
        ensures
            stamps@ == timestamps(
                self.data(),
                self.kinds(),
                start_row as int,
                batch_end(start_row as nat, count as nat, self.rows()) as int,
            ),
    {
        proof {
            use_type_invariant(self);
        }
        if start_row >= self.total_rows {
            return Vec::new();
        }
        let remaining = self.total_rows - start_row;
        let end_row = if count < remaining {
            start_row + count
        } else {
            self.total_rows
        };
        decode_timestamps(map_bytes(&self.mmap), &self.schema, start_row, end_row)
    }
}

} // verus!
