use crate::types::{DataOrder, DataType};
use vstd::prelude::*;

verus! {

/// Every failure the engine reports.
#[derive(Debug, Clone)]
pub enum ConnectorAgentError {
    /// A side was asked for a data order it cannot stream in.
    UnsupportedDataOrder(DataOrder),
    /// The source and the destination share no data order.
    NoCommonDataOrder,
    /// The schema does not fit what the columns hold.
    SchemaMismatch,
    /// A checked access met a column of another type: the column's tag, then
    /// the name of the native type offered.
    UnexpectedType(DataType, &'static str),
    /// A side has no producer or consumer for a type the schema asks for.
    UnsupportedType(DataType),
    /// A row or column outside the partition.
    OutOfBound,
    /// A failure inside a source.
    SourceError(String),
    /// A failure inside a destination.
    DestinationError(String),
}

} // verus!
