//! What a node expects of the columns of a topic batch.
use vstd::prelude::*;

verus! {

/// A column of a batch as a node finds it.
#[derive(Debug)]
pub enum Column<T> {
    /// The batch has no column of that name.
    Absent,
    /// The column has another type than the one that is expected.
    OtherType,
    /// The column has the type that is expected, and holds this.
    Usable(T),
}

/// Why a message is not a batch that can be used.
#[derive(Clone, Copy, Debug, PartialEq, Eq, Structural)]
pub enum BatchError {
    NotABatch,
    NoData,
    DataType,
    NoLogTime,
    LogTimeType,
}

impl BatchError {
    /// What the error says.
    pub open spec fn text(self) -> Seq<char> {
        match self {
            BatchError::NotABatch => "expected a topic batch (StructArray)"@,
            BatchError::NoData => "no data column"@,
            BatchError::DataType => "data is not LargeBinary"@,
            BatchError::NoLogTime => "no log_time column"@,
            BatchError::LogTimeType => "log_time is not a timestamp"@,
        }
    }

    /// The error as text.
    pub fn message(&self) -> (text: String)
        ensures
            text@ == self.text(),
    {
        match self {
            BatchError::NotABatch => "expected a topic batch (StructArray)".to_owned(),
            BatchError::NoData => "no data column".to_owned(),
            BatchError::DataType => "data is not LargeBinary".to_owned(),
            BatchError::NoLogTime => "no log_time column".to_owned(),
            BatchError::LogTimeType => "log_time is not a timestamp".to_owned(),
        }
    }
}

/// What is wrong first with a message that should be a batch of images: it is
/// no batch at all, or the column of images or the column of record times
/// cannot be used.
pub open spec fn image_batch_error<D, T>(
    is_batch: bool,
    data: Column<D>,
    log_time: Column<T>,
) -> Option<BatchError> {
    match (data, log_time) {
        _ if !is_batch => Some(BatchError::NotABatch),
        (Column::Absent, _) => Some(BatchError::NoData),
        (Column::OtherType, _) => Some(BatchError::DataType),
        (Column::Usable(_), Column::Absent) => Some(BatchError::NoLogTime),
        (Column::Usable(_), Column::OtherType) => Some(BatchError::LogTimeType),
        (Column::Usable(_), Column::Usable(_)) => None,
    }
}

/// The columns of a message that should be a batch of images.
pub fn image_columns<D, T>(is_batch: bool, data: Column<D>, log_time: Column<T>) -> (r: Result<
    (D, T),
    BatchError,
>)
    ensures
        match r {
            Ok((images, times)) => image_batch_error(is_batch, data, log_time) is None && data
                == Column::Usable(images) && log_time == Column::Usable(times),
            Err(e) => image_batch_error(is_batch, data, log_time) == Some(e),
        },
{
    if !is_batch {
        return Err(BatchError::NotABatch);
    }
    match data {
        Column::Absent => Err(BatchError::NoData),
        Column::OtherType => Err(BatchError::DataType),
        Column::Usable(images) => match log_time {
            Column::Absent => Err(BatchError::NoLogTime),
            Column::OtherType => Err(BatchError::LogTimeType),
            Column::Usable(times) => Ok((images, times)),
        },
    }
}

/// A message of images can be used exactly where it is a batch and both its
/// columns can. What is said otherwise is what is wrong first: the message,
/// the images, the times.
pub proof fn the_first_fault_of_a_batch_counts<D, T>(
    is_batch: bool,
    data: Column<D>,
    log_time: Column<T>,
)
    ensures
        image_batch_error(is_batch, data, log_time) is None <==> is_batch && data is Usable
            && log_time is Usable,
        image_batch_error(is_batch, data, log_time) == Some(BatchError::NotABatch) <==> !is_batch,
        image_batch_error(is_batch, data, log_time) == Some(BatchError::NoData) <==> is_batch
            && data is Absent,
        image_batch_error(is_batch, data, log_time) == Some(BatchError::DataType) <==> is_batch
            && data is OtherType,
        image_batch_error(is_batch, data, log_time) == Some(BatchError::NoLogTime) <==> is_batch
            && data is Usable && log_time is Absent,
        image_batch_error(is_batch, data, log_time) == Some(BatchError::LogTimeType) <==> is_batch
            && data is Usable && log_time is OtherType,
{
}

} // verus!
