//! Pulling one channel out of a stored, column-oriented data set.
//!
//! A stored data set lists its columns by name and holds each column in
//! parts, in storage order. The channel asked for is found by its name, its
//! parts are joined in storage order, and every part must be of the kind of
//! the first.

use vstd::prelude::*;
use crate::column::Column;

verus! {

/// The values of one channel, tagged with the channel's kind. `Float`
/// holds IEEE-754 bit patterns.
#[derive(Debug)]
pub enum SensorData {
    Bit(Vec<u8>),
    Int(Vec<i32>),
    Float(Vec<u64>),
}

impl View for SensorData {
    type V = Column;

    open spec fn view(&self) -> Column {
        match self {
            SensorData::Bit(v) => Column::Bit(v@),
            SensorData::Int(v) => Column::Int(v@),
            SensorData::Float(v) => Column::Float(v@),
        }
    }
}

/// What one stored part holds of the column asked for.
#[derive(Debug)]
pub enum ColumnBatch {
    Bit(Vec<u8>),
    Int(Vec<i32>),
    Float(Vec<u64>),
    /// The part holds values of a type that is none of the three kinds.
    Unsupported,
}

/// What a `ColumnBatch` holds: a column, or nothing that can be used.
pub enum BatchView {
    Data(Column),
    Unsupported,
}

impl View for ColumnBatch {
    type V = BatchView;

    open spec fn view(&self) -> BatchView {
        match self {
            ColumnBatch::Bit(v) => BatchView::Data(Column::Bit(v@)),
            ColumnBatch::Int(v) => BatchView::Data(Column::Int(v@)),
            ColumnBatch::Float(v) => BatchView::Data(Column::Float(v@)),
            ColumnBatch::Unsupported => BatchView::Unsupported,
        }
    }
}

/// Why a channel could not be extracted.
#[derive(Debug, Clone, Copy, PartialEq, Eq, Structural)]
pub enum SensorError {
    /// No column of the data set has the name asked for.
    NotFound,
    /// A part is of another kind than the parts before it.
    TypeMismatch,
    /// A part holds values of a type that is none of the three kinds.
    UnsupportedType,
    /// The data set holds no part at all.
    NoData,
}

/// Index of the first name in `fields` that equals `name`, if there is one.
pub open spec fn position_of(fields: Seq<Seq<char>>, name: Seq<char>) -> Option<int>
    decreases fields.len(),
{
    if fields.len() == 0 {
        None
    } else if fields[0] == name {
        Some(0)
    } else {
        match position_of(fields.drop_first(), name) {
            Some(i) => Some(i + 1),
            None => None,
        }
    }
}

/// What has been collected after one more part: the first part is taken as
/// it is, a later part of the same kind is joined on, and a part of
/// another kind or of no usable type is an error.
pub open spec fn collect_step(so_far: Option<Column>, part: BatchView) -> Result<
    Option<Column>,
    SensorError,
> {
    match part {
        BatchView::Unsupported => Err(SensorError::UnsupportedType),
        BatchView::Data(col) => match so_far {
            None => Ok(Some(col)),
            Some(acc) => if acc.kind() == col.kind() {
                Ok(Some(acc.concat(col)))
            } else {
                Err(SensorError::TypeMismatch)
            },
        },
    }
}

/// What has been collected after all of `parts`, taken in order. The first
/// part that cannot be taken decides the error.
pub open spec fn collect_parts(parts: Seq<BatchView>) -> Result<Option<Column>, SensorError>
    decreases parts.len(),
{
    if parts.len() == 0 {
        Ok(None)
    } else {
        match collect_parts(parts.drop_last()) {
            Err(e) => Err(e),
            Ok(so_far) => collect_step(so_far, parts.last()),
        }
    }
}

/// What extracting the channel `name` gives, for a data set whose columns
/// are named `fields` and whose parts of that channel are `parts`.
pub open spec fn extracted(fields: Seq<Seq<char>>, name: Seq<char>, parts: Seq<BatchView>) -> Result<
    Column,
    SensorError,
> {
    if position_of(fields, name) is None {
        Err(SensorError::NotFound)
    } else {
        match collect_parts(parts) {
            Err(e) => Err(e),
            Ok(None) => Err(SensorError::NoData),
            Ok(Some(col)) => Ok(col),
        }
    }
}

/// The names of a list of columns.
pub open spec fn field_names(fields: Seq<String>) -> Seq<Seq<char>> {
    Seq::new(fields.len(), |i: int| fields[i]@)
}

/// What the parts of a list hold.
pub open spec fn batch_views(parts: Seq<ColumnBatch>) -> Seq<BatchView> {
    Seq::new(parts.len(), |i: int| parts[i]@)
}

/// What has been collected so far, seen as a column.
pub open spec fn collected_view(so_far: Option<SensorData>) -> Option<Column> {
    match so_far {
        Some(data) => Some(data@),
        None => None,
    }
}

/// The result of an extraction, seen as a column.
pub open spec fn result_view(result: Result<SensorData, SensorError>) -> Result<
    Column,
    SensorError,
> {
    match result {
        Ok(data) => Ok(data@),
        Err(e) => Err(e),
    }
}

/// `position_of` finds the first match: the name at the index found is the
/// name asked for and no earlier name is; and nothing is found only where
/// no name matches.
pub proof fn lemma_position_of(fields: Seq<Seq<char>>, name: Seq<char>)
    ensures
        match position_of(fields, name) {
            Some(i) => 0 <= i < fields.len() && fields[i] == name && forall|j: int|
                0 <= j < i ==> fields[j] != name,
            None => forall|j: int| 0 <= j < fields.len() ==> fields[j] != name,
        },
    decreases fields.len(),
{
    if fields.len() > 0 && fields[0] != name {
        let rest = fields.drop_first();
        lemma_position_of(rest, name);
        match position_of(rest, name) {
            Some(i) => {
                assert forall|j: int| 0 <= j < i + 1 implies fields[j] != name by {
                    if j > 0 {
                        assert(rest[j - 1] == fields[j]);
                    }
                }
            },
            None => {
                assert forall|j: int| 0 <= j < fields.len() implies fields[j] != name by {
                    if j > 0 {
                        assert(rest[j - 1] == fields[j]);
                    }
                }
            },
        }
    }
}

/// Finds the column named `sensor_name`: the index of the first column of
/// that name, or `NotFound` where no column has it.
pub fn find_sensor(fields: &Vec<String>, sensor_name: &str) -> (found: Result<usize, SensorError>)
    ensures
        match found {
            Ok(i) => position_of(field_names(fields@), sensor_name@) == Some(i as int),
            Err(e) => e == SensorError::NotFound && position_of(
                field_names(fields@),
                sensor_name@,
            ) is None,
        },
{
    let ghost names = field_names(fields@);
    let wanted = sensor_name.to_owned();
    let n = fields.len();
    let mut i: usize = 0;
    proof {
        lemma_position_of(names, sensor_name@);
    }
    while i < n
        invariant
            n == fields@.len(),
            names == field_names(fields@),
            wanted@ == sensor_name@,
            i <= n,
            forall|j: int| 0 <= j < i ==> names[j] != sensor_name@,
            match position_of(names, sensor_name@) {
                Some(k) => 0 <= k < names.len() && names[k] == sensor_name@ && forall|j: int|
                    0 <= j < k ==> names[j] != sensor_name@,
                None => forall|j: int| 0 <= j < names.len() ==> names[j] != sensor_name@,
            },
        decreases n - i,
    {
        if fields[i] == wanted {
            assert(names[i as int] == sensor_name@);
            return Ok(i);
        }
        assert(names[i as int] != sensor_name@);
        i = i + 1;
    }
    Err(SensorError::NotFound)
}

/// Takes one more part into what has been collected. The first part sets
/// the kind; a later part of the same kind is added at the end. A part of
/// another kind, or of no usable type, is an error and leaves what has
/// been collected as it was.
pub fn collect_part(so_far: &mut Option<SensorData>, part: ColumnBatch) -> (taken: Result<
    (),
    SensorError,
>)
    ensures
        match collect_step(collected_view(*old(so_far)), part@) {
            Ok(next) => taken is Ok && collected_view(*final(so_far)) == next,
            Err(e) => taken == Err::<(), SensorError>(e) && *final(so_far) == *old(so_far),
        },
{
    match part {
        ColumnBatch::Bit(mut values) => match so_far {
            Some(SensorData::Bit(v)) => {
                v.append(&mut values);
                Ok(())
            },
            None => {
                *so_far = Some(SensorData::Bit(values));
                Ok(())
            },
            _ => Err(SensorError::TypeMismatch),
        },
        ColumnBatch::Int(mut values) => match so_far {
            Some(SensorData::Int(v)) => {
                v.append(&mut values);
                Ok(())
            },
            None => {
                *so_far = Some(SensorData::Int(values));
                Ok(())
            },
            _ => Err(SensorError::TypeMismatch),
        },
        ColumnBatch::Float(mut values) => match so_far {
            Some(SensorData::Float(v)) => {
                v.append(&mut values);
                Ok(())
            },
            None => {
                *so_far = Some(SensorData::Float(values));
                Ok(())
            },
            _ => Err(SensorError::TypeMismatch),
        },
        ColumnBatch::Unsupported => Err(SensorError::UnsupportedType),
    }
}

/// The end of a collection: what was collected, or `NoData` where no part
/// was ever taken.
pub fn finish_collection(so_far: Option<SensorData>) -> (result: Result<SensorData, SensorError>)
    ensures
        match so_far {
            Some(data) => result == Ok::<SensorData, SensorError>(data),
            None => result == Err::<SensorData, SensorError>(SensorError::NoData),
        },
{
    match so_far {
        Some(data) => Ok(data),
        None => Err(SensorError::NoData),
    }
}

/// Extracts the channel `sensor_name` from a data set whose columns are
/// named `fields` and that holds `parts` of that channel, in storage order.
/// The result is the parts joined in that order, tagged with their kind.
pub fn get_sensor_data(fields: &Vec<String>, sensor_name: &str, parts: Vec<ColumnBatch>) -> (result:
    Result<SensorData, SensorError>)
    ensures
        result_view(result) == extracted(
            field_names(fields@),
            sensor_name@,
            batch_views(parts@),
        ),
{
    let ghost views = batch_views(parts@);
    match find_sensor(fields, sensor_name) {
        Err(e) => {
            return Err(e);
        },
        Ok(_) => {},
    }
    let mut so_far: Option<SensorData> = None;
    assert(views.take(0) =~= Seq::<BatchView>::empty());
    for part in it: parts.into_iter()
        invariant
            it.seq() == parts@,
            views == batch_views(parts@),
            position_of(field_names(fields@), sensor_name@) is Some,
            collect_parts(views.take(it.index() as int)) == Ok::<Option<Column>, SensorError>(
                collected_view(so_far),
            ),
    {
        let ghost k = it.index() as int;
        proof {
            let next = views.take(k + 1);
            assert(next.drop_last() =~= views.take(k));
            assert(next.last() == parts@[k]@);
        }
        match collect_part(&mut so_far, part) {
            Err(e) => {
                proof {
                    lemma_error_is_final(views, k + 1);
                }
                return Err(e);
            },
            Ok(_) => {},
        }
    }
    assert(views.take(parts@.len() as int) =~= views);
    finish_collection(so_far)
}

/// Once a part could not be taken, the parts after it change nothing: the
/// error of the first `n` parts is the error of all parts.
pub proof fn lemma_error_is_final(parts: Seq<BatchView>, n: int)
    requires
        0 <= n <= parts.len(),
        collect_parts(parts.take(n)) is Err,
    ensures
        collect_parts(parts) == collect_parts(parts.take(n)),
    decreases parts.len() - n,
{
    if n < parts.len() {
        let next = parts.take(n + 1);
        assert(next.drop_last() =~= parts.take(n));
        lemma_error_is_final(parts, n + 1);
    } else {
        assert(parts.take(n) =~= parts);
    }
}

} // verus!
