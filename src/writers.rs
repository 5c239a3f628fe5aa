pub mod mixed;

use crate::errors::ConnectorAgentError;
use crate::types::{is_default, native_name_of, type_of, DataOrder, DataType, Value};
use vstd::prelude::*;

verus! {

/// The sum of a sequence of row counts.
pub open spec fn sum(counts: Seq<usize>) -> nat
    decreases counts.len(),
{
    if counts.len() == 0 {
        0
    } else {
        sum(counts.drop_last()) + counts.last() as nat
    }
}

/// The first row of partition `i`: the rows of the partitions before it.
pub open spec fn offset(counts: Seq<usize>, i: int) -> nat {
    sum(counts.take(i))
}

/// Whether the first column of `schema` whose tag `supported` lacks holds `t`.
pub open spec fn first_unsupported(schema: Seq<DataType>, supported: Seq<DataType>, t: DataType) -> bool {
    exists|c: int|
        0 <= c < schema.len() && schema[c] == t && !supported.contains(t) && forall|d: int|
            0 <= d < c ==> supported.contains(#[trigger] schema[d])
}

/// Whether every tag of `schema` is in `supported`.
pub open spec fn all_supported(schema: Seq<DataType>, supported: Seq<DataType>) -> bool {
    forall|c: int| 0 <= c < schema.len() ==> supported.contains(#[trigger] schema[c])
}

/// Whether a table has `nrows` rows of `ncols` cells each.
pub open spec fn has_shape(table: Seq<Seq<Value>>, nrows: nat, ncols: nat) -> bool {
    &&& table.len() == nrows
    &&& forall|r: int| 0 <= r < nrows ==> (#[trigger] table[r]).len() == ncols
}

/// Whether every cell of column `c` has the native type of `schema[c]`.
pub open spec fn well_typed(table: Seq<Seq<Value>>, schema: Seq<DataType>) -> bool {
    forall|r: int, c: int|
        0 <= r < table.len() && 0 <= c < schema.len() ==> type_of(#[trigger] table[r][c])
            == schema[c]
}

/// Whether every cell of column `c` is the default cell of `schema[c]`.
pub open spec fn all_default(table: Seq<Seq<Value>>, schema: Seq<DataType>) -> bool {
    forall|r: int, c: int|
        0 <= r < table.len() && 0 <= c < schema.len() ==> is_default(#[trigger] table[r][c], schema[c])
}

/// A `PartitionWriter` writes one contiguous row slab of every column of its
/// destination; row indices are local to the slab.
pub trait PartitionWriter: Sized {
    /// The writer's internal consistency.
    spec fn inv(&self) -> bool;

    /// The tag of each column.
    spec fn spec_schema(&self) -> Seq<DataType>;

    /// The cells of the slab, row by row.
    spec fn table(&self) -> Seq<Seq<Value>>;

    /// The storage layout: the tag and width of each block.
    spec fn layout(&self) -> Seq<(DataType, nat)>;

    proof fn lemma_table_shape(&self)
        requires
            self.inv(),
        ensures
            has_shape(self.table(), self.table().len(), self.spec_schema().len()),
            well_typed(self.table(), self.spec_schema()),
    ;

    /// Number of rows this writer controls.
    fn nrows(&self) -> (n: usize)
        requires
            self.inv(),
        ensures
            n == self.table().len(),
    ;

    /// Number of columns.
    fn ncols(&self) -> (n: usize)
        requires
            self.inv(),
        ensures
            n == self.spec_schema().len(),
    ;
}

/// A writer that takes cells by `(row, col)`.
pub trait Consume: PartitionWriter {
    /// Writes `value` at `(row, col)`; the caller has established that the
    /// value has the column's type and that the position lies in the slab.
    fn consume(&mut self, row: usize, col: usize, value: Value)
        requires
            old(self).inv(),
            row < old(self).table().len(),
            col < old(self).spec_schema().len(),
            type_of(value) == old(self).spec_schema()[col as int],
        ensures
            final(self).inv(),
            final(self).spec_schema() == old(self).spec_schema(),
            final(self).layout() == old(self).layout(),
            final(self).table() == old(self).table().update(
                row as int,
                old(self).table()[row as int].update(col as int, value),
            ),
    ;

    /// Writes `value` at `(row, col)` after checking its type against the
    /// schema (`UnexpectedType`) and the position against the slab
    /// (`OutOfBound`); on an error nothing is written.
    fn consume_checked(&mut self, row: usize, col: usize, value: Value) -> (r: Result<
        (),
        ConnectorAgentError,
    >)
        requires
            old(self).inv(),
        ensures
            final(self).inv(),
            final(self).spec_schema() == old(self).spec_schema(),
            final(self).layout() == old(self).layout(),
            col < old(self).spec_schema().len() && type_of(value) != old(self).spec_schema()[col as int]
                ==> (r matches Err(ConnectorAgentError::UnexpectedType(expected, name)) && expected
                == old(self).spec_schema()[col as int] && name@ == native_name_of(type_of(value))),
            col >= old(self).spec_schema().len() ==> r == Err::<(), ConnectorAgentError>(
                ConnectorAgentError::OutOfBound,
            ),
            col < old(self).spec_schema().len() && type_of(value) == old(self).spec_schema()[col as int]
                && row >= old(self).table().len() ==> r == Err::<(), ConnectorAgentError>(
                ConnectorAgentError::OutOfBound,
            ),
            r is Err ==> final(self).table() == old(self).table(),
            col < old(self).spec_schema().len() && type_of(value) == old(self).spec_schema()[col as int]
                && row < old(self).table().len() ==> r is Ok && final(self).table() == old(
                self,
            ).table().update(row as int, old(self).table()[row as int].update(col as int, value)),
    ;
}

/// A value written at `(row, col)` of a partition writer is the value read
/// back there, for every tag and every value of its native type.
pub proof fn lemma_round_trip<P: Consume>(before: P, after: P, row: int, col: int, v: Value)
    requires
        before.inv(),
        0 <= row < before.table().len(),
        0 <= col < before.spec_schema().len(),
        type_of(v) == before.spec_schema()[col],
        after.table() == before.table().update(row, before.table()[row].update(col, v)),
    ensures
        after.table()[row][col] == v,
{
    before.lemma_table_shape();
}

/// The rows of all partition writers, one slab after the other.
pub open spec fn concat_tables<P: PartitionWriter>(ws: Seq<P>) -> Seq<Seq<Value>>
    decreases ws.len(),
{
    if ws.len() == 0 {
        Seq::empty()
    } else {
        concat_tables(ws.drop_last()) + ws.last().table()
    }
}

/// A destination: it allocates the columns, lends disjoint row slabs to
/// partition writers and takes them back.
pub trait Writer: Sized {
    type PartitionWriter: Consume;

    /// The destination's internal consistency.
    spec fn inv(&self) -> bool;

    /// The data orders this destination accepts, in order of preference.
    spec fn spec_data_orders() -> Seq<DataOrder>;

    /// The tags this destination can hold.
    spec fn supported(&self) -> Seq<DataType>;

    /// The tag of each column.
    spec fn spec_schema(&self) -> Seq<DataType>;

    /// The cells held, row by row.
    spec fn table(&self) -> Seq<Seq<Value>>;

    /// The storage layout: the tag and width of each block.
    spec fn layout(&self) -> Seq<(DataType, nat)>;

    fn data_orders() -> (r: Vec<DataOrder>)
        ensures
            r@ == Self::spec_data_orders(),
    ;

    /// Allocates `nrows` rows of default cells for the columns of `schema`.
    fn allocate(&mut self, nrows: usize, schema: Vec<DataType>, data_order: DataOrder) -> (r:
        Result<(), ConnectorAgentError>)
        ensures
            !Self::spec_data_orders().contains(data_order) ==> r == Err::<(), ConnectorAgentError>(
                ConnectorAgentError::UnsupportedDataOrder(data_order),
            ),
            Self::spec_data_orders().contains(data_order) && !all_supported(
                schema@,
                old(self).supported(),
            ) ==> (r matches Err(ConnectorAgentError::UnsupportedType(t)) && first_unsupported(
                schema@,
                old(self).supported(),
                t,
            )),
            Self::spec_data_orders().contains(data_order) && all_supported(
                schema@,
                old(self).supported(),
            ) ==> r is Ok,
            r is Err ==> *final(self) == *old(self),
            r is Ok ==> {
                &&& final(self).inv()
                &&& final(self).spec_schema() == schema@
                &&& final(self).supported() == old(self).supported()
                &&& has_shape(final(self).table(), nrows as nat, schema@.len())
                &&& well_typed(final(self).table(), schema@)
                &&& all_default(final(self).table(), schema@)
            },
    ;

    /// Hands out one writer per count; writer `i` holds the `counts[i]` rows
    /// that follow those of the writers before it. The destination keeps no
    /// rows until it takes the writers back.
    fn partition_writers(&mut self, counts: &[usize]) -> (ws: Vec<Self::PartitionWriter>)
        requires
            old(self).inv(),
            sum(counts@) == old(self).table().len(),
        ensures
            final(self).inv(),
            final(self).table().len() == 0,
            final(self).spec_schema() == old(self).spec_schema(),
            final(self).layout() == old(self).layout(),
            final(self).supported() == old(self).supported(),
            ws@.len() == counts@.len(),
            forall|i: int|
                0 <= i < ws@.len() ==> {
                    &&& (#[trigger] ws@[i]).inv()
                    &&& ws@[i].spec_schema() == old(self).spec_schema()
                    &&& ws@[i].layout() == old(self).layout()
                    &&& ws@[i].table() == old(self).table().subrange(
                        offset(counts@, i) as int,
                        offset(counts@, i) + counts@[i],
                    )
                },
    ;

    /// Takes the writers back: their rows follow those already held, in order.
    fn absorb(&mut self, ws: Vec<Self::PartitionWriter>)
        requires
            old(self).inv(),
            forall|i: int|
                0 <= i < ws@.len() ==> {
                    &&& (#[trigger] ws@[i]).inv()
                    &&& ws@[i].spec_schema() == old(self).spec_schema()
                    &&& ws@[i].layout() == old(self).layout()
                },
            old(self).table().len() + concat_tables(ws@).len() <= usize::MAX,
        ensures
            final(self).inv(),
            final(self).spec_schema() == old(self).spec_schema(),
            final(self).layout() == old(self).layout(),
            final(self).supported() == old(self).supported(),
            final(self).table() == old(self).table() + concat_tables(ws@),
    ;

    /// The tag of each column.
    fn schema(&self) -> (s: &[DataType])
        requires
            self.inv(),
        ensures
            s@ == self.spec_schema(),
    ;
}

} // verus!
