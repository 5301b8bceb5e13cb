//! Channels, value kinds and the row layout they determine.

use vstd::prelude::*;

verus! {

/// Number of bytes that the timestamp occupies at the start of every row.
pub const TIMESTAMP_WIDTH: usize = 8;

/// The kind of value a channel records.
#[derive(Debug, Clone, Copy, PartialEq, Eq, Structural)]
pub enum DataType {
    /// One byte holding 0 or 1.
    Bit,
    /// Four bytes, a signed integer in little-endian two's complement.
    Int,
    /// Eight bytes, an IEEE-754 double in little-endian order.
    Float,
}

impl DataType {
    /// Encoded width of one value of this kind, in bytes.
    pub open spec fn width(self) -> nat {
        match self {
            DataType::Bit => 1,
            DataType::Int => 4,
            DataType::Float => 8,
        }
    }

    /// Encoded width of one value of this kind, in bytes.
    pub fn size(&self) -> (n: usize)
        ensures
            n == self.width(),
    {
        match self {
            DataType::Bit => 1,
            DataType::Int => 4,
            DataType::Float => 8,
        }
    }
}

/// One named signal, recorded once per row.
#[derive(Debug, Clone)]
pub struct Channel {
    pub name: String,
    pub data_type: DataType,
}

/// The ordered list of channels of a log. The order fixes the row layout.
#[derive(Debug, Clone)]
pub struct Schema {
    pub channels: Vec<Channel>,
}

/// Total encoded width of the first `n` kinds of `kinds`.
pub open spec fn prefix_width(kinds: Seq<DataType>, n: int) -> nat
    decreases n,
{
    if n <= 0 {
        0
    } else {
        prefix_width(kinds, n - 1) + kinds[n - 1].width()
    }
}

/// Width of one whole row: the timestamp and one value per kind.
pub open spec fn stride(kinds: Seq<DataType>) -> nat {
    8 + prefix_width(kinds, kinds.len() as int)
}

/// A longer prefix is at least as wide, and a strictly longer one is
/// strictly wider.
pub proof fn lemma_prefix_width_monotonic(kinds: Seq<DataType>, m: int, n: int)
    requires
        0 <= m <= n <= kinds.len(),
    ensures
        prefix_width(kinds, m) + (n - m) <= prefix_width(kinds, n),
    decreases n,
{
    if m < n {
        lemma_prefix_width_monotonic(kinds, m, n - 1);
    }
}

impl Schema {
    /// The value kinds of the channels, in schema order.
    pub open spec fn kinds(&self) -> Seq<DataType> {
        Seq::new(self.channels@.len(), |i: int| self.channels@[i].data_type)
    }

    /// Width of one row under this schema.
    pub open spec fn spec_row_size(&self) -> nat {
        stride(self.kinds())
    }

    /// Whether the row width can be held in a `usize`.
    pub open spec fn fits(&self) -> bool {
        self.spec_row_size() <= usize::MAX
    }

    /// Width of one row: eight bytes of timestamp plus the widths of all
    /// channels, or `None` when that sum does not fit in a `usize`.
    pub fn checked_row_size(&self) -> (r: Option<usize>)
        ensures
            self.fits() ==> r == Some(self.spec_row_size() as usize),
            !self.fits() ==> r is None,
    {
        let n = self.channels.len();
        let mut total: usize = TIMESTAMP_WIDTH;
        let mut i: usize = 0;
        while i < n
            invariant
                n == self.channels@.len(),
                i <= n,
                total == 8 + prefix_width(self.kinds(), i as int),
            decreases n - i,
        {
            let w = self.channels[i].data_type.size();
            if total > usize::MAX - w {
                proof {
                    lemma_prefix_width_monotonic(self.kinds(), i as int + 1, n as int);
                }
                return None;
            }
            total = total + w;
            i = i + 1;
        }
        Some(total)
    }

    /// Width of one row: eight bytes of timestamp plus the widths of all
    /// channels.
    pub fn row_size(&self) -> (n: usize)
        requires
            self.fits(),
        ensures
            n == self.spec_row_size(),
    {
        self.checked_row_size().unwrap()
    }
}

} // verus!
