use crate::data_sources::{CellView, DataSource, SourceBuilder};
use crate::errors::ConnectorAgentError;
use crate::types::{type_of, DataOrder, DataType, Value};
use crate::writers::mixed::copy_vec;
use crate::writers::{
    all_supported, concat_tables, first_unsupported, has_shape, offset, sum, Consume, PartitionWriter, Writer,
};
use vstd::prelude::*;

verus! {

/// The first `c` cells of the row that starts at stream position `pos`, or
/// the first error met among them.
pub open spec fn row_cells<S: DataSource>(s: S, schema: Seq<DataType>, pos: nat, c: nat) -> Result<
    Seq<CellView>,
    ConnectorAgentError,
>
    decreases c,
{
    if c == 0 {
        Ok(Seq::empty())
    } else {
        match row_cells(s, schema, pos, (c - 1) as nat) {
            Err(e) => Err(e),
            Ok(r) => match s.cell((pos + c - 1) as nat, schema[c - 1]) {
                Err(e) => Err(e),
                Ok(v) => Ok(r.push(v)),
            },
        }
    }
}

/// The first `n` rows that a source yields from stream position `pos` on,
/// row by row, or the first error met among them.
pub open spec fn partition_cells<S: DataSource>(
    s: S,
    schema: Seq<DataType>,
    pos: nat,
    n: nat,
) -> Result<Seq<Seq<CellView>>, ConnectorAgentError>
    decreases n,
{
    if n == 0 {
        Ok(Seq::empty())
    } else {
        match partition_cells(s, schema, pos, (n - 1) as nat) {
            Err(e) => Err(e),
            Ok(rows) => match row_cells(s, schema, (pos + (n - 1) * schema.len()) as nat, schema.len()) {
                Err(e) => Err(e),
                Ok(r) => Ok(rows.push(r)),
            },
        }
    }
}

/// What a table holds, cell by cell.
pub open spec fn table_view(t: Seq<Seq<Value>>) -> Seq<Seq<CellView>> {
    t.map_values(|row: Seq<Value>| row.map_values(|v: Value| v@))
}

pub proof fn lemma_row_err<S: DataSource>(s: S, schema: Seq<DataType>, pos: nat, c: nat, d: nat)
    requires
        row_cells(s, schema, pos, c) is Err,
        c <= d,
    ensures
        row_cells(s, schema, pos, d) == row_cells(s, schema, pos, c),
    decreases d - c,
{
    if c < d {
        lemma_row_err(s, schema, pos, c, (d - 1) as nat);
    }
}

pub proof fn lemma_partition_err<S: DataSource>(
    s: S,
    schema: Seq<DataType>,
    pos: nat,
    n: nat,
    m: nat,
)
    requires
        partition_cells(s, schema, pos, n) is Err,
        n <= m,
    ensures
        partition_cells(s, schema, pos, m) == partition_cells(s, schema, pos, n),
    decreases m - n,
{
    if n < m {
        lemma_partition_err(s, schema, pos, n, (m - 1) as nat);
    }
}

proof fn lemma_view_update(t: Seq<Seq<Value>>, r: int, c: int, v: Value)
    requires
        0 <= r < t.len(),
        0 <= c < t[r].len(),
    ensures
        table_view(t.update(r, t[r].update(c, v))) == table_view(t).update(
            r,
            table_view(t)[r].update(c, v@),
        ),
{
    let a = table_view(t.update(r, t[r].update(c, v)));
    let b = table_view(t).update(r, table_view(t)[r].update(c, v@));
    assert forall|i: int| 0 <= i < a.len() implies #[trigger] a[i] =~= b[i] by {}
    assert(a =~= b);
}

/// Moves the cells of one partition from `src` into `w`, row by row: the
/// cell at `(row, col)` is the next cell of the source, asked for as the
/// type of column `col`. With `checked`, each write checks the cell's type
/// again. The first error of the source ends the transfer.
pub fn transfer<S: DataSource, P: Consume>(
    src: &mut S,
    w: &mut P,
    schema: &[DataType],
    checked: bool,
) -> (r: Result<(), ConnectorAgentError>)
    requires
        old(src).inv(),
        old(w).inv(),
        old(w).spec_schema() == schema@,
    ensures
        final(w).inv(),
        final(w).spec_schema() == schema@,
        final(w).layout() == old(w).layout(),
        final(w).table().len() == old(w).table().len(),
        partition_cells(*old(src), schema@, old(src).produced(), old(w).table().len()) matches Ok(
            rows,
        ) ==> r is Ok && table_view(final(w).table()) == rows,
        partition_cells(*old(src), schema@, old(src).produced(), old(w).table().len()) matches Err(
            e,
        ) ==> r == Err::<(), ConnectorAgentError>(e),
{
    let ghost s0 = *src;
    let ghost start_pos = src.produced();
    let nrows = w.nrows();
    let ncols = w.ncols();
    proof {
        w.lemma_table_shape();
        assert(table_view(w.table()).take(0) =~= Seq::empty());
    }
    let mut row: usize = 0;
    while row < nrows
        invariant
            row <= nrows,
            nrows == w.table().len(),
            nrows == old(w).table().len(),
            s0 == *old(src),
            start_pos == old(src).produced(),
            ncols == schema@.len(),
            src.inv(),
            w.inv(),
            w.spec_schema() == schema@,
            w.layout() == old(w).layout(),
            has_shape(w.table(), nrows as nat, ncols as nat),
            src.produced() == start_pos + row * ncols,
            forall|k: nat, t: DataType| #[trigger] src.cell(k, t) == s0.cell(k, t),
            partition_cells(s0, schema@, start_pos, row as nat) == Ok::<
                Seq<Seq<CellView>>,
                ConnectorAgentError,
            >(table_view(w.table()).take(row as int)),
        decreases nrows - row,
    {
        let ghost before = table_view(w.table()).take(row as int);
        let ghost base: nat = (start_pos + row * ncols) as nat;
        let mut col: usize = 0;
        assert(table_view(w.table())[row as int].take(0) =~= Seq::empty());
        while col < ncols
            invariant
                row < nrows,
                col <= ncols,
                nrows == w.table().len(),
                nrows == old(w).table().len(),
                s0 == *old(src),
                start_pos == old(src).produced(),
                ncols == schema@.len(),
                src.inv(),
                w.inv(),
                w.spec_schema() == schema@,
                w.layout() == old(w).layout(),
                has_shape(w.table(), nrows as nat, ncols as nat),
                base == start_pos + row * ncols,
                src.produced() == base + col,
                forall|k: nat, t: DataType| #[trigger] src.cell(k, t) == s0.cell(k, t),
                partition_cells(s0, schema@, start_pos, row as nat) == Ok::<
                    Seq<Seq<CellView>>,
                    ConnectorAgentError,
                >(before),
                table_view(w.table()).take(row as int) == before,
                row_cells(s0, schema@, base, col as nat) == Ok::<Seq<CellView>, ConnectorAgentError>(
                    table_view(w.table())[row as int].take(col as int),
                ),
            decreases ncols - col,
        {
            let t = schema[col];
            let v = match src.produce(t) {
                Ok(v) => v,
                Err(e) => {
                    proof {
                        assert(s0.cell((base + col) as nat, t) == Err::<CellView, ConnectorAgentError>(e));
                        assert(row_cells(s0, schema@, base, (col + 1) as nat) == Err::<Seq<CellView>, ConnectorAgentError>(e));
                        lemma_row_err(s0, schema@, base, (col + 1) as nat, ncols as nat);
                        assert((start_pos + ((row + 1) as nat - 1) * schema@.len()) as nat == base);
                        assert(partition_cells(s0, schema@, start_pos, (row + 1) as nat) == Err::<
                            Seq<Seq<CellView>>,
                            ConnectorAgentError,
                        >(e));
                        lemma_partition_err(s0, schema@, start_pos, (row + 1) as nat, nrows as nat);
                        assert(partition_cells(s0, schema@, start_pos, nrows as nat) == Err::<
                            Seq<Seq<CellView>>,
                            ConnectorAgentError,
                        >(e));
                    }
                    return Err(e);
                },
            };
            let ghost tv = table_view(w.table());
            proof {
                lemma_view_update(w.table(), row as int, col as int, v);
            }
            if checked {
                match w.consume_checked(row, col, v) {
                    Ok(()) => {},
                    Err(e) => {
                        return Err(e);
                    },
                }
            } else {
                w.consume(row, col, v);
            }
            proof {
                let tv2 = table_view(w.table());
                assert(tv2 == tv.update(row as int, tv[row as int].update(col as int, v@)));
                assert(tv2.take(row as int) =~= before);
                assert(tv2[row as int].take(col + 1) =~= tv[row as int].take(col as int).push(v@));
                assert(w.table()[row as int].len() == ncols);
            }
            col += 1;
        }
        proof {
            let tv = table_view(w.table());
            assert(tv[row as int].take(ncols as int) =~= tv[row as int]);
            assert(start_pos + row * ncols + ncols == start_pos + (row + 1) * ncols) by (nonlinear_arith);
            assert(tv.take(row + 1) =~= before.push(tv[row as int]));
        }
        row += 1;
    }
    proof {
        assert(table_view(w.table()).take(nrows as int) =~= table_view(w.table()));
    }
    Ok(())
}


/// The cell at `(r, c)` of the rows a source yields is the stream's cell at
/// position `pos + r * ncols + c`, asked for as the type of schema column
/// `c`: output position `c` holds what was produced for schema position `c`.
pub proof fn lemma_schema_order<S: DataSource>(
    s: S,
    schema: Seq<DataType>,
    pos: nat,
    n: nat,
    rows: Seq<Seq<CellView>>,
    r: nat,
    c: nat,
)
    requires
        partition_cells(s, schema, pos, n) == Ok::<Seq<Seq<CellView>>, ConnectorAgentError>(rows),
        r < n,
        c < schema.len(),
    ensures
        s.cell(pos + r * schema.len() + c, schema[c as int]) == Ok::<CellView, ConnectorAgentError>(
            rows[r as int][c as int],
        ),
    decreases n,
{
    lemma_partition_len(s, schema, pos, n);
    if r + 1 < n {
        match partition_cells(s, schema, pos, (n - 1) as nat) {
            Ok(prev) => {
                lemma_schema_order(s, schema, pos, (n - 1) as nat, prev, r, c);
                assert(rows[r as int] == prev[r as int]);
            },
            Err(_) => {},
        }
    } else {
        let base = (pos + (n - 1) * schema.len()) as nat;
        match row_cells(s, schema, base, schema.len()) {
            Ok(row) => {
                assert(rows[r as int] == row);
                lemma_row_position(s, schema, base, schema.len(), row, c);
            },
            Err(_) => {},
        }
    }
}

proof fn lemma_row_position<S: DataSource>(
    s: S,
    schema: Seq<DataType>,
    pos: nat,
    k: nat,
    row: Seq<CellView>,
    c: nat,
)
    requires
        row_cells(s, schema, pos, k) == Ok::<Seq<CellView>, ConnectorAgentError>(row),
        c < k,
    ensures
        row.len() == k,
        s.cell(pos + c, schema[c as int]) == Ok::<CellView, ConnectorAgentError>(row[c as int]),
    decreases k,
{
    match row_cells(s, schema, pos, (k - 1) as nat) {
        Ok(prev) => {
            if c + 1 < k {
                lemma_row_position(s, schema, pos, (k - 1) as nat, prev, c);
            } else if k > 1 {
                lemma_row_len(s, schema, pos, (k - 1) as nat);
            }
        },
        Err(_) => {},
    }
}

proof fn lemma_row_len<S: DataSource>(s: S, schema: Seq<DataType>, pos: nat, k: nat)
    ensures
        row_cells(s, schema, pos, k) matches Ok(row) ==> row.len() == k,
    decreases k,
{
    if k > 0 {
        lemma_row_len(s, schema, pos, (k - 1) as nat);
    }
}

/// Rows read in two runs, `a` rows and then `b` rows from where the first
/// run stopped, are the rows of one run of `a + b`.
pub proof fn lemma_partition_split<S: DataSource>(
    s: S,
    schema: Seq<DataType>,
    pos: nat,
    a: nat,
    b: nat,
)
    ensures
        partition_cells(s, schema, pos, a + b) == match partition_cells(s, schema, pos, a) {
            Err(e) => Err(e),
            Ok(x) => match partition_cells(s, schema, pos + a * schema.len(), b) {
                Err(e) => Err(e),
                Ok(y) => Ok(x + y),
            },
        },
    decreases b,
{
    if b == 0 {
        match partition_cells(s, schema, pos, a) {
            Ok(x) => {
                assert(x + Seq::<Seq<CellView>>::empty() =~= x);
            },
            Err(_) => {},
        }
    } else {
        lemma_partition_split(s, schema, pos, a, (b - 1) as nat);
        let w = schema.len();
        assert(pos + (a + b - 1) * w == pos + a * w + (b - 1) * w) by (nonlinear_arith);
        match partition_cells(s, schema, pos, a) {
            Ok(x) => {
                match partition_cells(s, schema, pos + a * w, (b - 1) as nat) {
                    Ok(y) => {
                        match row_cells(s, schema, (pos + (a + b - 1) * w) as nat, w) {
                            Ok(r) => {
                                assert(x + y.push(r) =~= (x + y).push(r));
                            },
                            Err(_) => {},
                        }
                    },
                    Err(_) => {},
                }
            },
            Err(_) => {
                lemma_partition_err(s, schema, pos, a, a + b);
            },
        }
    }
}

/// Two sources with the same stream yield the same rows.
pub proof fn lemma_same_stream<S: DataSource>(
    s1: S,
    s2: S,
    schema: Seq<DataType>,
    pos: nat,
    n: nat,
)
    requires
        forall|k: nat, t: DataType| #[trigger] s1.cell(k, t) == s2.cell(k, t),
    ensures
        partition_cells(s1, schema, pos, n) == partition_cells(s2, schema, pos, n),
    decreases n,
{
    if n > 0 {
        lemma_same_stream(s1, s2, schema, pos, (n - 1) as nat);
        lemma_same_row(s1, s2, schema, (pos + (n - 1) * schema.len()) as nat, schema.len());
    }
}

proof fn lemma_same_row<S: DataSource>(s1: S, s2: S, schema: Seq<DataType>, pos: nat, c: nat)
    requires
        forall|k: nat, t: DataType| #[trigger] s1.cell(k, t) == s2.cell(k, t),
    ensures
        row_cells(s1, schema, pos, c) == row_cells(s2, schema, pos, c),
    decreases c,
{
    if c > 0 {
        lemma_same_row(s1, s2, schema, pos, (c - 1) as nat);
        assert(s1.cell((pos + c - 1) as nat, schema[c - 1]) == s2.cell((pos + c - 1) as nat, schema[c - 1]));
    }
}

/// Partitioning does not change the table: when each partition's source
/// carries the same stream as one source `s` and starts where the partition
/// before it stopped, the partitions together yield the rows of one
/// partition of `sum(counts)` rows.
pub proof fn lemma_partition_independence<S: DataSource>(
    s: S,
    srcs: Seq<S>,
    counts: Seq<usize>,
    schema: Seq<DataType>,
)
    requires
        srcs.len() == counts.len(),
        forall|i: int|
            0 <= i < srcs.len() ==> (#[trigger] srcs[i]).spec_nrows() == counts[i]
                && srcs[i].produced() == s.produced() + offset(counts, i) * schema.len(),
        forall|i: int, k: nat, t: DataType|
            0 <= i < srcs.len() ==> #[trigger] srcs[i].cell(k, t) == s.cell(k, t),
    ensures
        all_partitions(srcs, schema) == partition_cells(s, schema, s.produced(), sum(counts)),
    decreases srcs.len(),
{
    if srcs.len() == 0 {
    } else {
        let n = (srcs.len() - 1) as int;
        let prefix = counts.drop_last();
        assert forall|i: int| 0 <= i < n implies offset(prefix, i) == offset(counts, i) by {
            assert(prefix.take(i) =~= counts.take(i));
        }
        lemma_partition_independence(s, srcs.drop_last(), prefix, schema);
        let last = srcs.last();
        assert(counts.take(n) =~= prefix);
        assert(last.produced() == s.produced() + sum(prefix) * schema.len());
        assert forall|k: nat, t: DataType| #[trigger] last.cell(k, t) == s.cell(k, t) by {
            assert(srcs[n].cell(k, t) == s.cell(k, t));
        }
        lemma_same_stream(last, s, schema, last.produced(), last.spec_nrows());
        lemma_partition_split(s, schema, s.produced(), sum(prefix), counts.last() as nat);
    }
}

/// When the source's orders and the destination's have none in common,
/// negotiation finds none.
pub proof fn lemma_no_common_order(a: Seq<DataOrder>, b: Seq<DataOrder>)
    requires
        forall|i: int| 0 <= i < a.len() ==> !b.contains(#[trigger] a[i]),
    ensures
        first_common(a, b) is None,
    decreases a.len(),
{
    if a.len() > 0 {
        assert forall|i: int| 0 <= i < a.drop_first().len() implies !b.contains(#[trigger] a.drop_first()[i]) by {
            assert(a.drop_first()[i] == a[i + 1]);
        }
        lemma_no_common_order(a.drop_first(), b);
    }
}

/// The first order of `a` that `b` offers too.
pub open spec fn first_common(a: Seq<DataOrder>, b: Seq<DataOrder>) -> Option<DataOrder>
    decreases a.len(),
{
    if a.len() == 0 {
        None
    } else if b.contains(a[0]) {
        Some(a[0])
    } else {
        first_common(a.drop_first(), b)
    }
}

fn contains_order(v: &Vec<DataOrder>, o: DataOrder) -> (r: bool)
    ensures
        r == v@.contains(o),
{
    let mut i: usize = 0;
    while i < v.len()
        invariant
            i <= v@.len(),
            forall|j: int| 0 <= j < i ==> v@[j] != o,
        decreases v@.len() - i,
    {
        if v[i] == o {
            return true;
        }
        i += 1;
    }
    false
}

/// Picks the first order of the source's list that the destination accepts
/// too; `NoCommonDataOrder` when there is none.
pub fn negotiate(src: &Vec<DataOrder>, dst: &Vec<DataOrder>) -> (r: Result<
    DataOrder,
    ConnectorAgentError,
>)
    ensures
        first_common(src@, dst@) matches Some(o) ==> r == Ok::<DataOrder, ConnectorAgentError>(o),
        first_common(src@, dst@) is None ==> r == Err::<DataOrder, ConnectorAgentError>(
            ConnectorAgentError::NoCommonDataOrder,
        ),
{
    let mut i: usize = 0;
    assert(src@.skip(0) =~= src@);
    while i < src.len()
        invariant
            i <= src@.len(),
            first_common(src@, dst@) == first_common(src@.skip(i as int), dst@),
        decreases src@.len() - i,
    {
        assert(src@.skip(i as int)[0] == src@[i as int]);
        if contains_order(dst, src[i]) {
            return Ok(src[i]);
        }
        assert(src@.skip(i as int).drop_first() =~= src@.skip(i + 1));
        i += 1;
    }
    assert(src@.skip(i as int) =~= Seq::<DataOrder>::empty());
    Err(ConnectorAgentError::NoCommonDataOrder)
}

/// Whether building one source per query from `b`, and running each query on
/// its source, gives the sources `srcs` and leaves the builder `b_end`.
pub open spec fn prepared<B: SourceBuilder>(
    b: B,
    queries: Seq<Seq<char>>,
    srcs: Seq<B::DataSource>,
    b_end: B,
) -> bool
    decreases queries.len(),
{
    if queries.len() == 0 {
        srcs.len() == 0 && b_end == b
    } else {
        &&& srcs.len() == queries.len()
        &&& exists|mid: B, fresh: B::DataSource|
            #![trigger mid.builds(b_end, fresh)]
            prepared(b, queries.drop_last(), srcs.drop_last(), mid) && mid.builds(b_end, fresh)
                && fresh.query_ok(queries.last(), srcs.last())
    }
}

/// The rows of all partitions, one partition after the other, or the first
/// error met.
pub open spec fn all_partitions<S: DataSource>(srcs: Seq<S>, schema: Seq<DataType>) -> Result<
    Seq<Seq<CellView>>,
    ConnectorAgentError,
>
    decreases srcs.len(),
{
    if srcs.len() == 0 {
        Ok(Seq::empty())
    } else {
        match all_partitions(srcs.drop_last(), schema) {
            Err(e) => Err(e),
            Ok(t) => match partition_cells(
                srcs.last(),
                schema,
                srcs.last().produced(),
                srcs.last().spec_nrows(),
            ) {
                Err(e) => Err(e),
                Ok(rows) => Ok(t + rows),
            },
        }
    }
}

/// The rows that the sources yield, all partitions together.
pub open spec fn total_rows<S: DataSource>(srcs: Seq<S>) -> nat
    decreases srcs.len(),
{
    if srcs.len() == 0 {
        0
    } else {
        total_rows(srcs.drop_last()) + srcs.last().spec_nrows()
    }
}

/// The failures of preparing the sources, each with its cause, the queries
/// taken in order: building the source of query `i` fails, or running query
/// `i` on it does, after the queries before it succeeded; or the rows of the
/// queries up to `i` are more than a table can hold, where those before `i`
/// were not.
pub open spec fn prepare_error<B: SourceBuilder>(b: B, qv: Seq<Seq<char>>, e: ConnectorAgentError) -> bool {
    ||| exists|i: int, srcs: Seq<B::DataSource>, bi: B|
        0 <= i < qv.len() && #[trigger] prepared(b, qv.take(i), srcs, bi) && total_rows(srcs)
            <= usize::MAX && (bi.build_err(e) || exists|b2: B, fresh: B::DataSource|
            #![trigger bi.builds(b2, fresh)]
            bi.builds(b2, fresh) && fresh.query_err(qv[i], e))
    ||| e is DestinationError && exists|i: int, srcs: Seq<B::DataSource>, bi: B|
        0 < i <= qv.len() && #[trigger] prepared(b, qv.take(i), srcs, bi) && total_rows(srcs)
            > usize::MAX && total_rows(srcs.drop_last()) <= usize::MAX
}

/// The failures of a run, each with its cause, in the order the steps run:
/// the two sides share no data order; else preparing the sources fails;
/// else the destination cannot hold a tag of the schema (the first such
/// column's tag); else a source fails while its partition is transferred
/// (the first failure, partitions in the order of the queries, cells row by
/// row).
pub open spec fn run_error<B: SourceBuilder, W: Writer>(
    b: B,
    w: W,
    schema: Seq<DataType>,
    qv: Seq<Seq<char>>,
    e: ConnectorAgentError,
) -> bool {
    ||| first_common(B::spec_data_orders(), W::spec_data_orders()) is None && e
        == ConnectorAgentError::NoCommonDataOrder
    ||| first_common(B::spec_data_orders(), W::spec_data_orders()) is Some && prepare_error(
        b,
        qv,
        e,
    )
    ||| first_common(B::spec_data_orders(), W::spec_data_orders()) is Some && exists|
        srcs: Seq<B::DataSource>,
        b_end: B,
    |
        #[trigger] prepared(b, qv, srcs, b_end) && total_rows(srcs) <= usize::MAX && ((
        e matches ConnectorAgentError::UnsupportedType(t) && first_unsupported(
            schema,
            w.supported(),
            t,
        )) || (all_supported(schema, w.supported()) && all_partitions(srcs, schema) == Err::<
            Seq<Seq<CellView>>,
            ConnectorAgentError,
        >(e)))
}

pub proof fn lemma_first_common_in_both(a: Seq<DataOrder>, b: Seq<DataOrder>)
    ensures
        first_common(a, b) matches Some(o) ==> a.contains(o) && b.contains(o),
    decreases a.len(),
{
    if a.len() > 0 && !b.contains(a[0]) {
        lemma_first_common_in_both(a.drop_first(), b);
        if first_common(a, b) is Some {
            let o = first_common(a, b)->Some_0;
            let j = choose|j: int| 0 <= j < a.drop_first().len() && a.drop_first()[j] == o;
            assert(a[j + 1] == o);
        }
    } else if a.len() > 0 {
        assert(a[0] == a[0]);
    }
}

proof fn lemma_all_partitions_err<S: DataSource>(srcs: Seq<S>, schema: Seq<DataType>, i: int)
    requires
        0 <= i <= srcs.len(),
        all_partitions(srcs.take(i), schema) is Err,
    ensures
        all_partitions(srcs, schema) == all_partitions(srcs.take(i), schema),
    decreases srcs.len() - i,
{
    if i < srcs.len() {
        assert(srcs.take(i + 1).drop_last() =~= srcs.take(i));
        lemma_all_partitions_err(srcs, schema, i + 1);
    } else {
        assert(srcs.take(i) =~= srcs);
    }
}

proof fn lemma_total_rows<S: DataSource>(srcs: Seq<S>, counts: Seq<usize>)
    requires
        srcs.len() == counts.len(),
        forall|j: int| 0 <= j < srcs.len() ==> #[trigger] counts[j] == srcs[j].spec_nrows(),
    ensures
        total_rows(srcs) == sum(counts),
    decreases srcs.len(),
{
    if srcs.len() > 0 {
        lemma_total_rows(srcs.drop_last(), counts.drop_last());
    }
}

/// The text of each query.
pub open spec fn query_views(queries: Seq<String>) -> Seq<Seq<char>> {
    queries.map_values(|q: String| q@)
}

proof fn lemma_view_concat(a: Seq<Seq<Value>>, b: Seq<Seq<Value>>)
    ensures
        table_view(a + b) == table_view(a) + table_view(b),
{
    assert(table_view(a + b) =~= table_view(a) + table_view(b));
}

proof fn lemma_partition_len<S: DataSource>(s: S, schema: Seq<DataType>, pos: nat, n: nat)
    ensures
        partition_cells(s, schema, pos, n) matches Ok(rows) ==> rows.len() == n,
    decreases n,
{
    if n > 0 {
        lemma_partition_len(s, schema, pos, (n - 1) as nat);
    }
}

/// Builds one source per query, runs each query on its source, and learns
/// the row count of each; the counts and their sum come back with the
/// sources.
pub fn prepare<B: SourceBuilder>(builder: &mut B, queries: &Vec<String>) -> (r: Result<
    (Vec<B::DataSource>, Vec<usize>, usize),
    ConnectorAgentError,
>)
    ensures
        r matches Ok((sources, counts, total)) ==> {
            &&& prepared(*old(builder), query_views(queries@), sources@, *final(builder))
            &&& counts@.len() == sources@.len()
            &&& forall|j: int| 0 <= j < sources@.len() ==> #[trigger] counts@[j] == sources@[j].spec_nrows()
            &&& forall|j: int| 0 <= j < sources@.len() ==> (#[trigger] sources@[j]).inv()
            &&& total == sum(counts@)
        },
        r matches Err(e) ==> prepare_error(*old(builder), query_views(queries@), e),
{
    let ghost b0 = *builder;
    let ghost qv = query_views(queries@);
    let mut sources: Vec<B::DataSource> = Vec::new();
    let mut counts: Vec<usize> = Vec::new();
    let mut total: usize = 0;
    let mut i: usize = 0;
    assert(qv.take(0) =~= Seq::<Seq<char>>::empty());
    while i < queries.len()
        invariant
            i <= queries@.len(),
            b0 == *old(builder),
            qv == query_views(queries@),
            prepared(b0, qv.take(i as int), sources@, *builder),
            sources@.len() == i,
            counts@.len() == i,
            forall|j: int| 0 <= j < i ==> #[trigger] counts@[j] == sources@[j].spec_nrows(),
            forall|j: int| 0 <= j < i ==> (#[trigger] sources@[j]).inv(),
            total == sum(counts@),
        decreases queries@.len() - i,
    {
        let ghost mid = *builder;
        let mut src = match builder.build() {
            Ok(s) => s,
            Err(e) => {
                proof {
                    assert(prepared(b0, qv.take(i as int), sources@, mid));
                    lemma_total_rows(sources@, counts@);
                    assert(prepare_error(b0, qv, e));
                }
                return Err(e);
            },
        };
        let ghost fresh = src;
        match src.run_query(queries[i].as_str()) {
            Ok(()) => {},
            Err(e) => {
                proof {
                    assert(qv[i as int] == queries@[i as int]@);
                    assert(prepared(b0, qv.take(i as int), sources@, mid));
                    lemma_total_rows(sources@, counts@);
                    assert(mid.builds(*builder, fresh) && fresh.query_err(qv[i as int], e));
                    assert(prepare_error(b0, qv, e));
                }
                return Err(e);
            },
        }
        let n = src.nrows();
        if n > usize::MAX - total {
            let e = ConnectorAgentError::DestinationError(
                String::from_str("the queries yield more rows than fit in memory"),
            );
            proof {
                let ghost s2 = sources@.push(src);
                assert(qv.take(i + 1).drop_last() =~= qv.take(i as int));
                assert(s2.drop_last() =~= sources@);
                assert(qv.take(i + 1).last() == queries@[i as int]@);
                assert(mid.builds(*builder, fresh));
                assert(prepared(b0, qv.take(i + 1), s2, *builder));
                lemma_total_rows(sources@, counts@);
                assert(total_rows(s2) > usize::MAX);
                assert(total_rows(s2.drop_last()) <= usize::MAX);
                assert(prepare_error(b0, qv, e));
            }
            return Err(e);
        }
        let ghost old_sources = sources@;
        let ghost old_counts = counts@;
        total = total + n;
        counts.push(n);
        sources.push(src);
        proof {
            assert(qv.take(i + 1).drop_last() =~= qv.take(i as int));
            assert(sources@.drop_last() =~= old_sources);
            assert(counts@.drop_last() =~= old_counts);
            assert(qv.take(i + 1).last() == queries@[i as int]@);
            assert(mid.builds(*builder, fresh));
        }
        i += 1;
    }
    proof {
        assert(qv.take(queries@.len() as int) =~= qv);
    }
    Ok((sources, counts, total))
}

/// Moves the result of one query per partition from the sources of a
/// builder into a destination.
pub struct Dispatcher<B: SourceBuilder, W: Writer> {
    pub builder: B,
    pub writer: W,
    pub schema: Vec<DataType>,
    pub queries: Vec<String>,
}

impl<B: SourceBuilder, W: Writer> Dispatcher<B, W> {
    pub fn new(builder: B, writer: W, schema: Vec<DataType>, queries: Vec<String>) -> (d: Self)
        ensures
            d.builder == builder,
            d.writer == writer,
            d.schema == schema,
            d.queries == queries,
    {
        Dispatcher { builder, writer, schema, queries }
    }

    /// Runs the transfer; each cell is written without a second type check.
    pub fn run(self) -> (r: Result<W, ConnectorAgentError>)
        ensures
            first_common(B::spec_data_orders(), W::spec_data_orders()) is None ==> r == Err::<
                W,
                ConnectorAgentError,
            >(ConnectorAgentError::NoCommonDataOrder),
            r matches Err(e) ==> run_error(
                self.builder,
                self.writer,
                self.schema@,
                query_views(self.queries@),
                e,
            ),
            r matches Ok(w) ==> {
                &&& w.inv()
                &&& w.spec_schema() == self.schema@
                &&& exists|srcs: Seq<B::DataSource>, b_end: B|
                    #[trigger] prepared(self.builder, query_views(self.queries@), srcs, b_end)
                        && all_partitions(srcs, self.schema@) == Ok::<
                        Seq<Seq<CellView>>,
                        ConnectorAgentError,
                    >(table_view(w.table()))
            },
    {
        self.run_with(false)
    }

    /// Runs the transfer; each write checks the cell's type against the schema.
    pub fn run_checked(self) -> (r: Result<W, ConnectorAgentError>)
        ensures
            first_common(B::spec_data_orders(), W::spec_data_orders()) is None ==> r == Err::<
                W,
                ConnectorAgentError,
            >(ConnectorAgentError::NoCommonDataOrder),
            r matches Err(e) ==> run_error(
                self.builder,
                self.writer,
                self.schema@,
                query_views(self.queries@),
                e,
            ),
            r matches Ok(w) ==> {
                &&& w.inv()
                &&& w.spec_schema() == self.schema@
                &&& exists|srcs: Seq<B::DataSource>, b_end: B|
                    #[trigger] prepared(self.builder, query_views(self.queries@), srcs, b_end)
                        && all_partitions(srcs, self.schema@) == Ok::<
                        Seq<Seq<CellView>>,
                        ConnectorAgentError,
                    >(table_view(w.table()))
            },
    {
        self.run_with(true)
    }

    #[verifier::loop_isolation(false)]
    fn run_with(self, checked: bool) -> (r: Result<W, ConnectorAgentError>)
        ensures
            first_common(B::spec_data_orders(), W::spec_data_orders()) is None ==> r == Err::<
                W,
                ConnectorAgentError,
            >(ConnectorAgentError::NoCommonDataOrder),
            r matches Err(e) ==> run_error(
                self.builder,
                self.writer,
                self.schema@,
                query_views(self.queries@),
                e,
            ),
            r matches Ok(w) ==> {
                &&& w.inv()
                &&& w.spec_schema() == self.schema@
                &&& exists|srcs: Seq<B::DataSource>, b_end: B|
                    #[trigger] prepared(self.builder, query_views(self.queries@), srcs, b_end)
                        && all_partitions(srcs, self.schema@) == Ok::<
                        Seq<Seq<CellView>>,
                        ConnectorAgentError,
                    >(table_view(w.table()))
            },
    {
        let Dispatcher { builder, writer, schema, queries } = self;
        let mut builder = builder;
        let mut writer = writer;
        let ghost b0 = builder;
        let ghost qv = query_views(queries@);
        let ghost w0 = writer;
        let order = negotiate(&B::data_orders(), &W::data_orders())?;
        proof {
            lemma_first_common_in_both(B::spec_data_orders(), W::spec_data_orders());
        }
        builder.set_data_order(order)?;
        let (mut sources, counts, total) = match prepare(&mut builder, &queries) {
            Ok(p) => p,
            Err(e) => {
                return Err(e);
            },
        };
        let ghost srcs = sources@;
        let ghost b_end = builder;
        assert(writer == w0);
        proof {
            lemma_total_rows(srcs, counts@);
        }
        match writer.allocate(total, copy_vec(&schema), order) {
            Ok(()) => {},
            Err(e) => {
                proof {
                    assert(prepared(b0, qv, srcs, b_end));
                    assert(run_error(b0, w0, schema@, qv, e));
                }
                return Err(e);
            },
        }
        assert(all_supported(schema@, w0.supported()));
        assert(counts@.take(counts@.len() as int) =~= counts@);
        let ws = writer.partition_writers(counts.as_slice());
        let ghost all_ws = ws@;
        proof {
            assert forall|j: int| 0 <= j < all_ws.len() implies #[trigger] all_ws[j].table().len() == counts@[j] by {
                assert(counts@.take(j + 1).drop_last() =~= counts@.take(j));
                crate::writers::mixed::lemma_offset_mono(counts@, j + 1, counts@.len() as int);
            }
        }
        let mut ws = ws;
        let mut done: Vec<W::PartitionWriter> = Vec::new();
        let mut i: usize = 0;
        proof {
            assert(srcs.take(0) =~= Seq::<B::DataSource>::empty());
            assert(concat_tables(done@) =~= Seq::<Seq<Value>>::empty());
            assert(table_view(Seq::<Seq<Value>>::empty()) =~= Seq::<Seq<CellView>>::empty());
        }
        while i < counts.len()
            invariant
                i <= srcs.len(),
                first_common(B::spec_data_orders(), W::spec_data_orders()) is Some,
                srcs.len() == all_ws.len(),
                ws@ == all_ws.skip(i as int),
                sources@ == srcs.skip(i as int),
                done@.len() == i,
                writer.inv(),
                writer.table().len() == 0,
                writer.spec_schema() == schema@,
                total == sum(counts@),
                counts@.len() == srcs.len(),
                forall|j: int| 0 <= j < srcs.len() ==> #[trigger] counts@[j] == srcs[j].spec_nrows(),
                forall|j: int| 0 <= j < srcs.len() ==> (#[trigger] srcs[j]).inv(),
                forall|j: int|
                    0 <= j < all_ws.len() ==> {
                        &&& (#[trigger] all_ws[j]).inv()
                        &&& all_ws[j].spec_schema() == schema@
                        &&& all_ws[j].layout() == writer.layout()
                        &&& all_ws[j].table().len() == counts@[j]
                    },
                forall|j: int|
                    0 <= j < i ==> {
                        &&& (#[trigger] done@[j]).inv()
                        &&& done@[j].spec_schema() == schema@
                        &&& done@[j].layout() == writer.layout()
                    },
                concat_tables(done@).len() == offset(counts@, i as int),
                all_partitions(srcs.take(i as int), schema@) == Ok::<
                    Seq<Seq<CellView>>,
                    ConnectorAgentError,
                >(table_view(concat_tables(done@))),
            decreases ws@.len(),
        {
            let mut w = ws.remove(0);
            let mut s = sources.remove(0);
            proof {
                assert(all_ws.skip(i as int)[0] == all_ws[i as int]);
                assert(srcs.skip(i as int)[0] == srcs[i as int]);
                assert(all_ws.skip(i as int).drop_first() =~= all_ws.skip(i + 1));
                assert(srcs.skip(i as int).drop_first() =~= srcs.skip(i + 1));
            }
            match transfer(&mut s, &mut w, schema.as_slice(), checked) {
                Ok(()) => {},
                Err(e) => {
                    proof {
                        assert(srcs.take(i + 1).drop_last() =~= srcs.take(i as int));
                        assert(all_partitions(srcs.take(i + 1), schema@) == Err::<Seq<Seq<CellView>>, ConnectorAgentError>(e));
                        lemma_all_partitions_err(srcs, schema@, i + 1);
                        assert(prepared(b0, qv, srcs, b_end));
                        assert(run_error(b0, w0, schema@, qv, e));
                    }
                    return Err(e);
                },
            }
            let ghost old_done = done@;
            done.push(w);
            proof {
                assert(done@.drop_last() =~= old_done);
                assert(srcs.take(i + 1).drop_last() =~= srcs.take(i as int));
                assert(counts@.take(i + 1).drop_last() =~= counts@.take(i as int));
                lemma_view_concat(concat_tables(old_done), w.table());
                lemma_partition_len(srcs[i as int], schema@, srcs[i as int].produced(), srcs[i as int].spec_nrows());
            }
            i += 1;
        }
        proof {
            assert(i == srcs.len());
            assert(srcs.take(srcs.len() as int) =~= srcs);
            assert(counts@.take(counts@.len() as int) =~= counts@);
        }
        writer.absorb(done);
        proof {
            assert(Seq::<Seq<Value>>::empty() + concat_tables(done@) =~= concat_tables(done@));
            assert(prepared(b0, qv, srcs, b_end));
        }
        Ok(writer)
    }
}

} // verus!
