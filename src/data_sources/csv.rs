use super::{parse_bool, parse_u64, parsed_bool, parsed_unsigned, CellView, DataSource, SourceBuilder};
use crate::errors::ConnectorAgentError;
use crate::types::{DataOrder, DataType, Value};
use vstd::prelude::*;

verus! {

/// The text of each field of each record.
pub open spec fn records_view(records: Seq<Vec<String>>) -> Seq<Seq<Seq<char>>> {
    records.map_values(|row: Vec<String>| row@.map_values(|s: String| s@))
}

/// A field read as the given type: a number that does not parse is zero, a
/// boolean that does not parse is `false`, an empty field is a null.
pub open spec fn field_cell(text: Seq<char>, t: DataType) -> Result<CellView, ConnectorAgentError> {
    match t {
        DataType::U64 => Ok(
            CellView::U64(
                match parsed_unsigned(text, u64::MAX as nat) {
                    Some(n) => n as u64,
                    None => 0,
                },
            ),
        ),
        DataType::OptU64 => Ok(
            CellView::OptU64(
                if text.len() == 0 {
                    None
                } else {
                    Some(
                        match parsed_unsigned(text, u64::MAX as nat) {
                            Some(n) => n as u64,
                            None => 0,
                        },
                    )
                },
            ),
        ),
        DataType::Bool => Ok(
            CellView::Bool(
                match parsed_bool(text) {
                    Some(b) => b,
                    None => false,
                },
            ),
        ),
        DataType::String => Ok(CellView::Str(text)),
        DataType::F64 => Err(ConnectorAgentError::UnsupportedType(DataType::F64)),
    }
}

/// The `k`-th field, counting row by row with `ncols` fields per row.
pub open spec fn csv_cell(records: Seq<Seq<Seq<char>>>, ncols: nat, k: nat, t: DataType) -> Result<
    CellView,
    ConnectorAgentError,
> {
    if ncols == 0 || k >= usize::MAX || k / ncols >= records.len() || k % ncols >= records[(k / ncols) as int].len() {
        Err(ConnectorAgentError::OutOfBound)
    } else {
        field_cell(records[(k / ncols) as int][(k % ncols) as int], t)
    }
}

/// Builds `CSVSource`s over tables that the caller has read, one per query,
/// in the order of the queries.
pub struct CSVSourceBuilder {
    pub tables: Vec<Vec<Vec<String>>>,
}

impl CSVSourceBuilder {
    /// A builder with no tables: its sources hold no records.
    pub fn new() -> (b: Self)
        ensures
            b.tables@.len() == 0,
    {
        CSVSourceBuilder { tables: Vec::new() }
    }

    /// A builder over the given tables, each a list of records of fields.
    pub fn with_tables(tables: Vec<Vec<Vec<String>>>) -> (b: Self)
        ensures
            b.tables == tables,
    {
        CSVSourceBuilder { tables }
    }
}

impl SourceBuilder for CSVSourceBuilder {
    type DataSource = CSVSource;

    open spec fn spec_data_orders() -> Seq<DataOrder> {
        seq![DataOrder::RowMajor]
    }

    /// The first table goes to the source; without tables the source is empty.
    open spec fn builds(&self, next: Self, src: CSVSource) -> bool {
        &&& src.counter == 0
        &&& src.nrows == 0
        &&& src.ncols == 0
        &&& if self.tables@.len() > 0 {
            &&& src.records@ == self.tables@[0]@
            &&& next.tables@ == self.tables@.drop_first()
        } else {
            &&& src.records@.len() == 0
            &&& next.tables@.len() == 0
        }
    }

    open spec fn build_err(&self, e: ConnectorAgentError) -> bool {
        false
    }

    fn data_orders() -> (r: Vec<DataOrder>) {
        vec![DataOrder::RowMajor]
    }

    fn set_data_order(&mut self, data_order: DataOrder) -> (r: Result<(), ConnectorAgentError>) {
        if data_order == DataOrder::RowMajor {
            assert(seq![DataOrder::RowMajor][0] == data_order);
            Ok(())
        } else {
            Err(ConnectorAgentError::UnsupportedDataOrder(data_order))
        }
    }

    fn build(&mut self) -> (r: Result<CSVSource, ConnectorAgentError>) {
        if self.tables.len() == 0 {
            return Ok(CSVSource::new());
        }
        let records = self.tables.remove(0);
        Ok(CSVSource { records, counter: 0, nrows: 0, ncols: 0 })
    }
}

/// A source over the records of one CSV file, read field by field, row by row.
pub struct CSVSource {
    pub records: Vec<Vec<String>>,
    pub counter: usize,
    pub nrows: usize,
    pub ncols: usize,
}

impl CSVSource {
    /// A source with no records.
    pub fn new() -> (s: Self)
        ensures
            s.records@.len() == 0,
            s.counter == 0,
            s.nrows == 0,
            s.ncols == 0,
    {
        Self { records: Vec::new(), counter: 0, nrows: 0, ncols: 0 }
    }

    /// Schema inference is left to the caller, who supplies the schema: this
    /// always fails.
    pub fn infer_schema(&mut self) -> (r: Result<Vec<DataType>, ConnectorAgentError>)
        ensures
            r is Err,
            *final(self) == *old(self),
    {
        Err(ConnectorAgentError::SourceError(String::from_str("schema inference is not supported")))
    }
}

impl DataSource for CSVSource {
    open spec fn inv(&self) -> bool {
        true
    }

    open spec fn spec_nrows(&self) -> nat {
        self.nrows as nat
    }

    open spec fn produced(&self) -> nat {
        self.counter as nat
    }

    open spec fn cell(&self, k: nat, t: DataType) -> Result<CellView, ConnectorAgentError> {
        csv_cell(records_view(self.records@), self.ncols as nat, k, t)
    }

    /// The file was read by the caller: the query only fixes the shape, as
    /// many rows as records, as many columns as the first record has fields.
    open spec fn query_ok(&self, query: Seq<char>, after: Self) -> bool {
        &&& after.records == self.records
        &&& after.counter == self.counter
        &&& after.nrows == self.records@.len()
        &&& after.ncols == if self.records@.len() > 0 {
            self.records@[0]@.len()
        } else {
            self.ncols as nat
        }
    }

    open spec fn query_err(&self, query: Seq<char>, e: ConnectorAgentError) -> bool {
        false
    }

    proof fn lemma_cell_type(&self, k: nat, t: DataType) {
    }

    fn run_query(&mut self, query: &str) -> (r: Result<(), ConnectorAgentError>) {
        self.nrows = self.records.len();
        if self.nrows > 0 {
            self.ncols = self.records[0].len();
        }
        Ok(())
    }

    fn nrows(&self) -> (n: usize) {
        self.nrows
    }

    fn produce(&mut self, t: DataType) -> (r: Result<Value, ConnectorAgentError>) {
        if self.ncols == 0 || self.counter == usize::MAX {
            return Err(ConnectorAgentError::OutOfBound);
        }
        let row = self.counter / self.ncols;
        let col = self.counter % self.ncols;
        if row >= self.records.len() || col >= self.records[row].len() {
            return Err(ConnectorAgentError::OutOfBound);
        }
        let v: &str = self.records[row][col].as_str();
        proof {
            assert(records_view(self.records@)[row as int][col as int] == v@);
        }
        let value = match t {
            DataType::U64 => Value::U64(
                match parse_u64(v) {
                    Some(n) => n,
                    None => 0,
                },
            ),
            DataType::OptU64 => {
                if v.unicode_len() == 0 {
                    Value::OptU64(None)
                } else {
                    Value::OptU64(
                        Some(
                            match parse_u64(v) {
                                Some(n) => n,
                                None => 0,
                            },
                        ),
                    )
                }
            },
            DataType::Bool => Value::Bool(
                match parse_bool(v) {
                    Some(b) => b,
                    None => false,
                },
            ),
            DataType::String => Value::Str(String::from_str(v)),
            DataType::F64 => {
                return Err(ConnectorAgentError::UnsupportedType(DataType::F64));
            },
        };
        self.counter = self.counter + 1;
        Ok(value)
    }
}

} // verus!
