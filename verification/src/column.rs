//! Typed scalars and the per-channel buffers that collect them.

use vstd::prelude::*;
use crate::schema::DataType;

verus! {

/// One decoded scalar. A `Float` holds the IEEE-754 bit pattern of the
/// double, so that every value, `NaN` payloads included, is carried exactly.
#[derive(Debug, Clone, Copy, PartialEq, Eq, Structural)]
pub enum Value {
    Bit(u8),
    Int(i32),
    Float(u64),
}

impl Value {
    /// The kind of channel this scalar belongs to.
    pub open spec fn kind(self) -> DataType {
        match self {
            Value::Bit(_) => DataType::Bit,
            Value::Int(_) => DataType::Int,
            Value::Float(_) => DataType::Float,
        }
    }
}

/// What a column buffer holds: the values of one channel in row order,
/// tagged with the channel's kind.
#[verifier::ext_equal]
pub enum Column {
    Bit(Seq<u8>),
    Int(Seq<i32>),
    Float(Seq<u64>),
}

impl Column {
    /// The tag of the column.
    pub open spec fn kind(self) -> DataType {
        match self {
            Column::Bit(_) => DataType::Bit,
            Column::Int(_) => DataType::Int,
            Column::Float(_) => DataType::Float,
        }
    }

    /// Number of values held.
    pub open spec fn len(self) -> nat {
        match self {
            Column::Bit(s) => s.len(),
            Column::Int(s) => s.len(),
            Column::Float(s) => s.len(),
        }
    }

    /// The column of the given kind that holds nothing.
    pub open spec fn empty(kind: DataType) -> Column {
        match kind {
            DataType::Bit => Column::Bit(Seq::empty()),
            DataType::Int => Column::Int(Seq::empty()),
            DataType::Float => Column::Float(Seq::empty()),
        }
    }

    /// The value at position `i`.
    pub open spec fn value(self, i: int) -> Value {
        match self {
            Column::Bit(s) => Value::Bit(s[i]),
            Column::Int(s) => Value::Int(s[i]),
            Column::Float(s) => Value::Float(s[i]),
        }
    }

    /// The column with `v` added at the end. The tags must agree; where
    /// they do not, the column is left as it is.
    pub open spec fn push(self, v: Value) -> Column {
        match (self, v) {
            (Column::Bit(s), Value::Bit(x)) => Column::Bit(s.push(x)),
            (Column::Int(s), Value::Int(x)) => Column::Int(s.push(x)),
            (Column::Float(s), Value::Float(x)) => Column::Float(s.push(x)),
            _ => self,
        }
    }

    /// The values of `self` followed by those of `other`. The tags must
    /// agree; where they do not, the column is left as it is.
    pub open spec fn concat(self, other: Column) -> Column {
        match (self, other) {
            (Column::Bit(a), Column::Bit(b)) => Column::Bit(a + b),
            (Column::Int(a), Column::Int(b)) => Column::Int(a + b),
            (Column::Float(a), Column::Float(b)) => Column::Float(a + b),
            _ => self,
        }
    }
}

/// A growable buffer of the values of one channel. The variant is the
/// channel's kind; `Float` holds IEEE-754 bit patterns.
#[derive(Debug)]
pub enum ChannelData {
    Bit(Vec<u8>),
    Int(Vec<i32>),
    Float(Vec<u64>),
}

impl View for ChannelData {
    type V = Column;

    open spec fn view(&self) -> Column {
        match self {
            ChannelData::Bit(v) => Column::Bit(v@),
            ChannelData::Int(v) => Column::Int(v@),
            ChannelData::Float(v) => Column::Float(v@),
        }
    }
}

impl ChannelData {
    /// An empty buffer for a channel of the given kind, with room for
    /// `capacity` values.
    pub fn with_capacity(kind: DataType, capacity: usize) -> (c: ChannelData)
        ensures
            c@ == Column::empty(kind),
    {
        match kind {
            DataType::Bit => ChannelData::Bit(Vec::with_capacity(capacity)),
            DataType::Int => ChannelData::Int(Vec::with_capacity(capacity)),
            DataType::Float => ChannelData::Float(Vec::with_capacity(capacity)),
        }
    }

    /// Number of values held.
    pub fn len(&self) -> (n: usize)
        ensures
            n == self@.len(),
    {
        match self {
            ChannelData::Bit(v) => v.len(),
            ChannelData::Int(v) => v.len(),
            ChannelData::Float(v) => v.len(),
        }
    }

    /// Moves the values of `other` to the end of this buffer. Buffers of
    /// different kinds are never merged: the caller shows that the tags
    /// agree.
    pub fn append(&mut self, other: ChannelData)
        requires
            old(self)@.kind() == other@.kind(),
        ensures
            final(self)@ == old(self)@.concat(other@),
    {
        match (self, other) {
            (ChannelData::Bit(dest), ChannelData::Bit(mut src)) => dest.append(&mut src),
            (ChannelData::Int(dest), ChannelData::Int(mut src)) => dest.append(&mut src),
            (ChannelData::Float(dest), ChannelData::Float(mut src)) => dest.append(&mut src),
            _ => {},
        }
    }
}

} // verus!
