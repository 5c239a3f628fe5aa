use super::{
    decimal, parse_usize, parsed_unsigned, u64_from_u64, u64_to_string, CellView, DataSource,
    SourceBuilder,
};
use crate::errors::ConnectorAgentError;
use crate::float_bits::{half_f64_bits, half_to_f64_bits, int_f64_bits, int_to_f64_bits, EXACT_LIMIT};
use crate::types::{DataOrder, DataType, Value};
use vstd::prelude::*;

verus! {

/// Whether running `query` gives `nrows` rows: the query is the row count in decimal.
pub open spec fn counted_rows(query: Seq<char>, nrows: nat) -> bool {
    parsed_unsigned(query, usize::MAX as nat) == Some(nrows)
}

/// Whether the query is not a row count.
pub open spec fn bad_count(query: Seq<char>, e: ConnectorAgentError) -> bool {
    parsed_unsigned(query, usize::MAX as nat) is None && e is SourceError
}

/// Reads a row count from a query.
fn query_rows(query: &str) -> (r: Result<usize, ConnectorAgentError>)
    ensures
        r matches Ok(n) ==> counted_rows(query@, n as nat),
        r matches Err(e) ==> bad_count(query@, e),
{
    match parse_usize(query) {
        Some(n) => Ok(n),
        None => Err(ConnectorAgentError::SourceError(String::from_str("the query is not a row count"))),
    }
}

/// The only data order of the demo sources.
fn row_major_only(data_order: DataOrder) -> (r: Result<(), ConnectorAgentError>)
    ensures
        seq![DataOrder::RowMajor].contains(data_order) ==> r is Ok,
        !seq![DataOrder::RowMajor].contains(data_order) ==> r == Err::<(), ConnectorAgentError>(
            ConnectorAgentError::UnsupportedDataOrder(data_order),
        ),
{
    if data_order == DataOrder::RowMajor {
        assert(seq![DataOrder::RowMajor][0] == data_order);
        Ok(())
    } else {
        Err(ConnectorAgentError::UnsupportedDataOrder(data_order))
    }
}

/// The `k`-th cell of a counter that yields `k` for every cell, read as `t`.
pub open spec fn counter_cell(k: nat, t: DataType) -> Result<CellView, ConnectorAgentError> {
    if k >= u64::MAX {
        Err(ConnectorAgentError::OutOfBound)
    } else {
        match t {
            DataType::U64 => Ok(CellView::U64(k as u64)),
            DataType::OptU64 => Ok(CellView::OptU64(Some(k as u64))),
            DataType::String => Ok(CellView::Str(decimal(k))),
            DataType::Bool => Ok(CellView::Bool(k % 2 == 0)),
            DataType::F64 => if k < EXACT_LIMIT {
                Ok(CellView::F64(int_f64_bits(k) as u64))
            } else {
                Err(ConnectorAgentError::OutOfBound)
            },
        }
    }
}

/// Builds `U64CounterSource`s.
pub struct U64SourceBuilder {}

impl SourceBuilder for U64SourceBuilder {
    type DataSource = U64CounterSource;

    open spec fn spec_data_orders() -> Seq<DataOrder> {
        seq![DataOrder::RowMajor]
    }

    open spec fn builds(&self, next: Self, src: U64CounterSource) -> bool {
        src.counter == 0 && src.nrows == 0
    }

    open spec fn build_err(&self, e: ConnectorAgentError) -> bool {
        false
    }

    fn data_orders() -> (r: Vec<DataOrder>) {
        vec![DataOrder::RowMajor]
    }

    fn set_data_order(&mut self, data_order: DataOrder) -> (r: Result<(), ConnectorAgentError>) {
        row_major_only(data_order)
    }

    fn build(&mut self) -> (r: Result<U64CounterSource, ConnectorAgentError>) {
        Ok(U64CounterSource::new())
    }
}

/// A source whose `k`-th cell is the number `k`, in whatever type it is
/// asked for (`k % 2 == 0` as a boolean, decimal digits as a string, the
/// double `k` as a float while `k` is below 2^53).
pub struct U64CounterSource {
    pub counter: u64,
    pub nrows: usize,
}

impl U64CounterSource {
    pub fn new() -> (s: Self)
        ensures
            s.counter == 0,
            s.nrows == 0,
    {
        Self { counter: 0, nrows: 0 }
    }
}

impl DataSource for U64CounterSource {
    open spec fn inv(&self) -> bool {
        true
    }

    open spec fn spec_nrows(&self) -> nat {
        self.nrows as nat
    }

    open spec fn produced(&self) -> nat {
        self.counter as nat
    }

    open spec fn cell(&self, k: nat, t: DataType) -> Result<CellView, ConnectorAgentError> {
        counter_cell(k, t)
    }

    open spec fn query_ok(&self, query: Seq<char>, after: Self) -> bool {
        counted_rows(query, after.nrows as nat) && after.counter == self.counter
    }

    open spec fn query_err(&self, query: Seq<char>, e: ConnectorAgentError) -> bool {
        bad_count(query, e)
    }

    proof fn lemma_cell_type(&self, k: nat, t: DataType) {
    }

    fn run_query(&mut self, query: &str) -> (r: Result<(), ConnectorAgentError>) {
        let n = query_rows(query)?;
        self.nrows = n;
        Ok(())
    }

    fn nrows(&self) -> (n: usize) {
        self.nrows
    }

    fn produce(&mut self, t: DataType) -> (r: Result<Value, ConnectorAgentError>) {
        if self.counter == u64::MAX {
            return Err(ConnectorAgentError::OutOfBound);
        }
        let ret = self.counter;
        let v = match t {
            DataType::U64 => match u64_from_u64(ret) {
                Some(x) => Value::U64(x),
                None => Value::U64(0),
            },
            DataType::OptU64 => match u64_from_u64(ret) {
                Some(x) => Value::OptU64(Some(x)),
                None => Value::OptU64(Some(0)),
            },
            DataType::String => Value::Str(u64_to_string(ret)),
            DataType::Bool => Value::Bool(ret % 2 == 0),
            DataType::F64 => {
                if ret >= EXACT_LIMIT {
                    return Err(ConnectorAgentError::OutOfBound);
                }
                Value::F64(int_to_f64_bits(ret))
            },
        };
        self.counter = self.counter + 1;
        Ok(v)
    }
}

/// Builds `StringSource`s.
pub struct StringSourceBuilder {}

impl SourceBuilder for StringSourceBuilder {
    type DataSource = StringSource;

    open spec fn spec_data_orders() -> Seq<DataOrder> {
        seq![DataOrder::RowMajor]
    }

    open spec fn builds(&self, next: Self, src: StringSource) -> bool {
        src.counter == 0 && src.nrows == 0
    }

    open spec fn build_err(&self, e: ConnectorAgentError) -> bool {
        false
    }

    fn data_orders() -> (r: Vec<DataOrder>) {
        vec![DataOrder::RowMajor]
    }

    fn set_data_order(&mut self, data_order: DataOrder) -> (r: Result<(), ConnectorAgentError>) {
        row_major_only(data_order)
    }

    fn build(&mut self) -> (r: Result<StringSource, ConnectorAgentError>) {
        Ok(StringSource::new())
    }
}

/// A source of decimal strings: its `k`-th cell is `k` written in decimal,
/// or the number `k` when asked for an integer. It has no booleans.
pub struct StringSource {
    pub counter: u64,
    pub nrows: usize,
}

/// The `k`-th cell of a `StringSource`, read as `t`.
pub open spec fn string_cell(k: nat, t: DataType) -> Result<CellView, ConnectorAgentError> {
    if t == DataType::Bool {
        Err(ConnectorAgentError::UnsupportedType(DataType::Bool))
    } else {
        counter_cell(k, t)
    }
}

impl StringSource {
    pub fn new() -> (s: Self)
        ensures
            s.counter == 0,
            s.nrows == 0,
    {
        Self { counter: 0, nrows: 0 }
    }
}

impl DataSource for StringSource {
    open spec fn inv(&self) -> bool {
        true
    }

    open spec fn spec_nrows(&self) -> nat {
        self.nrows as nat
    }

    open spec fn produced(&self) -> nat {
        self.counter as nat
    }

    open spec fn cell(&self, k: nat, t: DataType) -> Result<CellView, ConnectorAgentError> {
        string_cell(k, t)
    }

    open spec fn query_ok(&self, query: Seq<char>, after: Self) -> bool {
        counted_rows(query, after.nrows as nat) && after.counter == self.counter
    }

    open spec fn query_err(&self, query: Seq<char>, e: ConnectorAgentError) -> bool {
        bad_count(query, e)
    }

    proof fn lemma_cell_type(&self, k: nat, t: DataType) {
    }

    fn run_query(&mut self, query: &str) -> (r: Result<(), ConnectorAgentError>) {
        let n = query_rows(query)?;
        self.nrows = n;
        Ok(())
    }

    fn nrows(&self) -> (n: usize) {
        self.nrows
    }

    fn produce(&mut self, t: DataType) -> (r: Result<Value, ConnectorAgentError>) {
        if t == DataType::Bool {
            return Err(ConnectorAgentError::UnsupportedType(DataType::Bool));
        }
        if self.counter == u64::MAX {
            return Err(ConnectorAgentError::OutOfBound);
        }
        let ret = self.counter;
        let v = match t {
            DataType::String => Value::Str(u64_to_string(ret)),
            DataType::U64 => match u64_from_u64(ret) {
                Some(x) => Value::U64(x),
                None => Value::U64(0),
            },
            DataType::OptU64 => match u64_from_u64(ret) {
                Some(x) => Value::OptU64(Some(x)),
                None => Value::OptU64(Some(0)),
            },
            _ => {
                if ret >= EXACT_LIMIT {
                    return Err(ConnectorAgentError::OutOfBound);
                }
                Value::F64(int_to_f64_bits(ret))
            },
        };
        self.counter = self.counter + 1;
        Ok(v)
    }
}

/// Builds `F64CounterSource`s.
pub struct F64SourceBuilder {}

impl SourceBuilder for F64SourceBuilder {
    type DataSource = F64CounterSource;

    open spec fn spec_data_orders() -> Seq<DataOrder> {
        seq![DataOrder::RowMajor]
    }

    open spec fn builds(&self, next: Self, src: F64CounterSource) -> bool {
        src.counter == 0 && src.nrows == 0
    }

    open spec fn build_err(&self, e: ConnectorAgentError) -> bool {
        false
    }

    fn data_orders() -> (r: Vec<DataOrder>) {
        vec![DataOrder::RowMajor]
    }

    fn set_data_order(&mut self, data_order: DataOrder) -> (r: Result<(), ConnectorAgentError>) {
        row_major_only(data_order)
    }

    fn build(&mut self) -> (r: Result<F64CounterSource, ConnectorAgentError>) {
        Ok(F64CounterSource::new())
    }
}

/// A source that counts in steps of one half: its `k`-th cell is the double
/// `k / 2` while `k` is below 2^53, or `k / 2` rounded down when asked for
/// an integer. It has no booleans and no strings.
pub struct F64CounterSource {
    /// The number of half steps taken.
    pub counter: u64,
    pub nrows: usize,
}

/// The `k`-th cell of an `F64CounterSource`, read as `t`.
pub open spec fn half_cell(k: nat, t: DataType) -> Result<CellView, ConnectorAgentError> {
    if t == DataType::Bool || t == DataType::String {
        Err(ConnectorAgentError::UnsupportedType(t))
    } else if k >= EXACT_LIMIT {
        Err(ConnectorAgentError::OutOfBound)
    } else {
        match t {
            DataType::F64 => Ok(CellView::F64(half_f64_bits(k) as u64)),
            DataType::U64 => Ok(CellView::U64((k / 2) as u64)),
            _ => Ok(CellView::OptU64(Some((k / 2) as u64))),
        }
    }
}

impl F64CounterSource {
    pub fn new() -> (s: Self)
        ensures
            s.counter == 0,
            s.nrows == 0,
    {
        Self { counter: 0, nrows: 0 }
    }
}

impl DataSource for F64CounterSource {
    open spec fn inv(&self) -> bool {
        true
    }

    open spec fn spec_nrows(&self) -> nat {
        self.nrows as nat
    }

    open spec fn produced(&self) -> nat {
        self.counter as nat
    }

    open spec fn cell(&self, k: nat, t: DataType) -> Result<CellView, ConnectorAgentError> {
        half_cell(k, t)
    }

    open spec fn query_ok(&self, query: Seq<char>, after: Self) -> bool {
        counted_rows(query, after.nrows as nat) && after.counter == self.counter
    }

    open spec fn query_err(&self, query: Seq<char>, e: ConnectorAgentError) -> bool {
        bad_count(query, e)
    }

    proof fn lemma_cell_type(&self, k: nat, t: DataType) {
    }

    fn run_query(&mut self, query: &str) -> (r: Result<(), ConnectorAgentError>) {
        let n = query_rows(query)?;
        self.nrows = n;
        Ok(())
    }

    fn nrows(&self) -> (n: usize) {
        self.nrows
    }

    fn produce(&mut self, t: DataType) -> (r: Result<Value, ConnectorAgentError>) {
        if t == DataType::Bool || t == DataType::String {
            return Err(ConnectorAgentError::UnsupportedType(t));
        }
        if self.counter >= EXACT_LIMIT {
            return Err(ConnectorAgentError::OutOfBound);
        }
        let ret = self.counter;
        let v = match t {
            DataType::F64 => Value::F64(half_to_f64_bits(ret)),
            DataType::U64 => Value::U64(ret / 2),
            _ => Value::OptU64(Some(ret / 2)),
        };
        self.counter = self.counter + 1;
        Ok(v)
    }
}

/// The bit pattern of the double `1.0`.
pub const ONE_F64_BITS: u64 = 4607182418800017408;

/// Builds `BoolCounterSource`s.
pub struct BoolSourceBuilder {}

impl SourceBuilder for BoolSourceBuilder {
    type DataSource = BoolCounterSource;

    open spec fn spec_data_orders() -> Seq<DataOrder> {
        seq![DataOrder::RowMajor]
    }

    open spec fn builds(&self, next: Self, src: BoolCounterSource) -> bool {
        src.produced@ == 0 && src.nrows == 0
    }

    open spec fn build_err(&self, e: ConnectorAgentError) -> bool {
        false
    }

    fn data_orders() -> (r: Vec<DataOrder>) {
        vec![DataOrder::RowMajor]
    }

    fn set_data_order(&mut self, data_order: DataOrder) -> (r: Result<(), ConnectorAgentError>) {
        row_major_only(data_order)
    }

    fn build(&mut self) -> (r: Result<BoolCounterSource, ConnectorAgentError>) {
        Ok(BoolCounterSource::new())
    }
}

/// A source of alternating booleans, starting with `false`. Asked for a
/// number it always yields one; this is for demonstrations only. It has no
/// strings.
pub struct BoolCounterSource {
    pub counter: bool,
    pub nrows: usize,
    pub produced: Ghost<nat>,
}

/// The `k`-th cell of a `BoolCounterSource`, read as `t`.
pub open spec fn bool_cell(k: nat, t: DataType) -> Result<CellView, ConnectorAgentError> {
    match t {
        DataType::Bool => Ok(CellView::Bool(k % 2 == 1)),
        DataType::U64 => Ok(CellView::U64(1)),
        DataType::OptU64 => Ok(CellView::OptU64(Some(1))),
        DataType::F64 => Ok(CellView::F64(ONE_F64_BITS)),
        DataType::String => Err(ConnectorAgentError::UnsupportedType(DataType::String)),
    }
}

impl BoolCounterSource {
    pub fn new() -> (s: Self)
        ensures
            s.produced@ == 0,
            s.nrows == 0,
            s.inv(),
    {
        Self { counter: false, nrows: 0, produced: Ghost(0) }
    }
}

impl DataSource for BoolCounterSource {
    open spec fn inv(&self) -> bool {
        self.counter == (self.produced@ % 2 == 1)
    }

    open spec fn spec_nrows(&self) -> nat {
        self.nrows as nat
    }

    open spec fn produced(&self) -> nat {
        self.produced@
    }

    open spec fn cell(&self, k: nat, t: DataType) -> Result<CellView, ConnectorAgentError> {
        bool_cell(k, t)
    }

    open spec fn query_ok(&self, query: Seq<char>, after: Self) -> bool {
        counted_rows(query, after.nrows as nat) && after.produced == self.produced
            && after.counter == self.counter
    }

    open spec fn query_err(&self, query: Seq<char>, e: ConnectorAgentError) -> bool {
        bad_count(query, e)
    }

    proof fn lemma_cell_type(&self, k: nat, t: DataType) {
    }

    fn run_query(&mut self, query: &str) -> (r: Result<(), ConnectorAgentError>) {
        let n = query_rows(query)?;
        self.nrows = n;
        Ok(())
    }

    fn nrows(&self) -> (n: usize) {
        self.nrows
    }

    fn produce(&mut self, t: DataType) -> (r: Result<Value, ConnectorAgentError>) {
        let v = match t {
            DataType::Bool => Value::Bool(self.counter),
            DataType::U64 => Value::U64(1),
            DataType::OptU64 => Value::OptU64(Some(1)),
            DataType::F64 => Value::F64(ONE_F64_BITS),
            DataType::String => {
                return Err(ConnectorAgentError::UnsupportedType(DataType::String));
            },
        };
        self.counter = !self.counter;
        self.produced = Ghost(self.produced@ + 1);
        Ok(v)
    }
}

/// Builds `OptU64TestSource`s, one for each table of cells it was given,
/// in the order of the tables.
pub struct OptU64SourceBuilder {
    pub fake_values: Vec<Vec<Option<u64>>>,
    pub ncols: usize,
}

impl OptU64SourceBuilder {
    /// A builder over the given tables, each of `ncols` columns, row by row.
    pub fn new(fake_values: Vec<Vec<Option<u64>>>, ncols: usize) -> (b: Self)
        ensures
            b.fake_values == fake_values,
            b.ncols == ncols,
    {
        OptU64SourceBuilder { fake_values, ncols }
    }
}

impl SourceBuilder for OptU64SourceBuilder {
    type DataSource = OptU64TestSource;

    open spec fn spec_data_orders() -> Seq<DataOrder> {
        seq![DataOrder::RowMajor]
    }

    /// The first table goes to the source; the others keep their order.
    open spec fn builds(&self, next: Self, src: OptU64TestSource) -> bool {
        &&& self.fake_values@.len() > 0
        &&& src.vals@ == self.fake_values@[0]@
        &&& src.counter == 0
        &&& src.ncols == self.ncols
        &&& next.ncols == self.ncols
        &&& next.fake_values@ == self.fake_values@.drop_first()
    }

    open spec fn build_err(&self, e: ConnectorAgentError) -> bool {
        self.fake_values@.len() == 0 && e is SourceError
    }

    fn data_orders() -> (r: Vec<DataOrder>) {
        vec![DataOrder::RowMajor]
    }

    fn set_data_order(&mut self, data_order: DataOrder) -> (r: Result<(), ConnectorAgentError>) {
        row_major_only(data_order)
    }

    fn build(&mut self) -> (r: Result<OptU64TestSource, ConnectorAgentError>) {
        if self.fake_values.len() == 0 {
            return Err(ConnectorAgentError::SourceError(String::from_str("no table is left to build a source from")));
        }
        let vals = self.fake_values.remove(0);
        Ok(OptU64TestSource::new(vals, self.ncols))
    }
}

/// A source over a fixed sequence of nullable integers, `ncols` per row.
pub struct OptU64TestSource {
    pub counter: usize,
    pub vals: Vec<Option<u64>>,
    pub ncols: usize,
}

/// The `k`-th cell of an `OptU64TestSource` over `vals`, read as `t`; a
/// null read as a plain integer is zero.
pub open spec fn opt_cell(vals: Seq<Option<u64>>, k: nat, t: DataType) -> Result<
    CellView,
    ConnectorAgentError,
> {
    match t {
        DataType::OptU64 => if k < vals.len() {
            Ok(CellView::OptU64(vals[k as int]))
        } else {
            Err(ConnectorAgentError::OutOfBound)
        },
        DataType::U64 => if k < vals.len() {
            Ok(
                CellView::U64(
                    match vals[k as int] {
                        Some(v) => v,
                        None => 0,
                    },
                ),
            )
        } else {
            Err(ConnectorAgentError::OutOfBound)
        },
        _ => Err(ConnectorAgentError::UnsupportedType(t)),
    }
}

impl OptU64TestSource {
    pub fn new(vals: Vec<Option<u64>>, ncols: usize) -> (s: Self)
        ensures
            s.counter == 0,
            s.vals == vals,
            s.ncols == ncols,
    {
        OptU64TestSource { counter: 0, vals: vals, ncols }
    }
}

impl DataSource for OptU64TestSource {
    open spec fn inv(&self) -> bool {
        self.counter <= self.vals@.len()
    }

    /// Whole rows only; no rows without columns.
    open spec fn spec_nrows(&self) -> nat {
        if self.ncols == 0 {
            0
        } else {
            (self.vals@.len() / self.ncols as nat) as nat
        }
    }

    open spec fn produced(&self) -> nat {
        self.counter as nat
    }

    open spec fn cell(&self, k: nat, t: DataType) -> Result<CellView, ConnectorAgentError> {
        opt_cell(self.vals@, k, t)
    }

    open spec fn query_ok(&self, query: Seq<char>, after: Self) -> bool {
        after == *self
    }

    open spec fn query_err(&self, query: Seq<char>, e: ConnectorAgentError) -> bool {
        false
    }

    proof fn lemma_cell_type(&self, k: nat, t: DataType) {
    }

    fn run_query(&mut self, query: &str) -> (r: Result<(), ConnectorAgentError>) {
        Ok(())
    }

    fn nrows(&self) -> (n: usize) {
        if self.ncols == 0 {
            0
        } else {
            self.vals.len() / self.ncols
        }
    }

    fn produce(&mut self, t: DataType) -> (r: Result<Value, ConnectorAgentError>) {
        if t != DataType::U64 && t != DataType::OptU64 {
            return Err(ConnectorAgentError::UnsupportedType(t));
        }
        if self.counter >= self.vals.len() {
            return Err(ConnectorAgentError::OutOfBound);
        }
        let x = self.vals[self.counter];
        let v = if t == DataType::U64 {
            match x {
                Some(v) => Value::U64(v),
                None => Value::U64(0),
            }
        } else {
            Value::OptU64(x)
        };
        self.counter = self.counter + 1;
        Ok(v)
    }
}

} // verus!
