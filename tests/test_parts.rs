use connector_agent::data_sources::csv::CSVSourceBuilder;
use connector_agent::float_bits::{half_to_f64_bits, int_to_f64_bits};
use connector_agent::pandas::string::{StringBlock, StringColumn};
use connector_agent::pandas::{ConnectorAgentPythonError, PandasDType, PandasTypes};
use connector_agent::{
    AnyArray, CSVSource, ConnectorAgentError, DataSource, DataType, Dispatcher, MemoryWriter, Value,
};

fn rec(fields: &[&str]) -> Vec<String> {
    fields.iter().map(|s| s.to_string()).collect()
}

#[test]
fn float_bits_match_ieee() {
    for n in [0u64, 1, 2, 3, 5, 1000, 123456789, (1u64 << 53) - 1] {
        assert_eq!(int_to_f64_bits(n), (n as f64).to_bits(), "n = {}", n);
        assert_eq!(half_to_f64_bits(n), (n as f64 / 2.0).to_bits(), "n = {}", n);
    }
    assert_eq!(int_to_f64_bits(1), 4607182418800017408);
}

#[test]
fn csv_source_reads_fields_row_by_row() {
    let table = vec![rec(&["1", "true", "x", ""]), rec(&["+2", "no", "", "9"])];
    let builder = CSVSourceBuilder::with_tables(vec![table]);
    let schema = vec![DataType::U64, DataType::Bool, DataType::String, DataType::OptU64];
    let dw = Dispatcher::new(builder, MemoryWriter::new(), schema, vec!["a.csv".to_string()])
        .run()
        .expect("run");
    assert!(matches!(dw.cell(0, 0), Some(Value::U64(1))));
    assert!(matches!(dw.cell(0, 1), Some(Value::Bool(true))));
    assert!(matches!(dw.cell(0, 2), Some(Value::Str(s)) if s == "x"));
    assert!(matches!(dw.cell(0, 3), Some(Value::OptU64(None))));
    assert!(matches!(dw.cell(1, 0), Some(Value::U64(2))));
    assert!(matches!(dw.cell(1, 1), Some(Value::Bool(false))));
    assert!(matches!(dw.cell(1, 2), Some(Value::Str(s)) if s.is_empty()));
    assert!(matches!(dw.cell(1, 3), Some(Value::OptU64(Some(9)))));
}

#[test]
fn csv_source_bad_numbers_are_zero() {
    let mut s = CSVSource::new();
    s.records = vec![rec(&["abc", "-1", "18446744073709551616"])];
    s.run_query("file.csv").unwrap();
    assert_eq!(s.nrows(), 1);
    assert_eq!(s.ncols, 3);
    for _ in 0..3 {
        assert!(matches!(s.produce(DataType::U64), Ok(Value::U64(0))));
    }
    assert!(matches!(s.produce(DataType::U64), Err(ConnectorAgentError::OutOfBound)));
    assert!(s.infer_schema().is_err());
}

#[test]
fn csv_source_has_no_floats() {
    let mut s = CSVSource::new();
    s.records = vec![rec(&["1.5"])];
    s.run_query("f").unwrap();
    assert!(matches!(s.produce(DataType::F64), Err(ConnectorAgentError::UnsupportedType(DataType::F64))));
}

#[test]
fn empty_csv_builder_gives_empty_sources() {
    let dw = Dispatcher::new(CSVSourceBuilder::new(), MemoryWriter::new(), vec![DataType::U64], vec!["x".to_string()])
        .run()
        .expect("run");
    assert!(dw.cell(0, 0).is_none());
}

#[test]
fn pandas_names() {
    assert_eq!(PandasTypes::I64(false).dtype(), "int64");
    assert_eq!(PandasTypes::I64(true).dtype(), "Int64");
    assert_eq!(PandasTypes::DateTime(true).dtype(), "datetime64[ns]");
    assert_eq!(PandasTypes::String(false).npdtype(), "O");
    assert_eq!(PandasTypes::Bool(true).npdtype(), "b1");
    assert!(PandasTypes::Bool(true).is_extension());
    assert!(!PandasTypes::F64(true).is_extension());
    assert_eq!(PandasTypes::I64(true).block_name(), "ExtensionBlock");
    assert_eq!(PandasTypes::String(true).block_name(), "ObjectBlock");
    assert_eq!(PandasTypes::parse("float64").unwrap(), PandasTypes::F64(true));
    assert_eq!(PandasTypes::parse("boolean").unwrap(), PandasTypes::Bool(true));
    assert_eq!(PandasTypes::parse("datetime").unwrap(), PandasTypes::DateTime(true));
    match PandasTypes::parse("int32") {
        Err(ConnectorAgentPythonError::UnknownPandasType(s)) => assert_eq!(s, "int32"),
        other => panic!("{:?}", other),
    }
}

#[test]
fn string_column_buffers_until_flush() {
    let block = StringBlock::new(vec![vec![None; 4], vec![None; 4]]);
    let mut cols = block.split();
    assert_eq!(cols.len(), 2);
    let c: &mut StringColumn = &mut cols[0];
    assert_eq!(c.len(), 4);
    c.write(b"ab".to_vec());
    c.write_opt(None);
    c.write(Vec::new());
    c.write_opt(Some(b"xyz".to_vec()));
    c.flush();
    let slots: Vec<Option<Vec<u8>>> = (0..4).map(|i| c.slot(i).clone()).collect();
    assert_eq!(slots, vec![Some(b"ab".to_vec()), None, Some(Vec::new()), Some(b"xyz".to_vec())]);
}

#[test]
fn string_column_partitions() {
    let block = StringBlock::new(vec![vec![None; 5]]);
    let col = block.split().remove(0);
    let mut parts = col.partition(&[2, 3]);
    assert_eq!(parts.len(), 2);
    assert_eq!(parts[0].len(), 2);
    assert_eq!(parts[1].len(), 3);
    parts[1].write(b"q".to_vec());
    parts[1].flush();
    let slots: Vec<Option<Vec<u8>>> = (0..3).map(|i| parts[1].slot(i).clone()).collect();
    assert_eq!(slots, vec![Some(b"q".to_vec()), None, None]);
}

#[test]
fn any_array_checks_type_and_bounds() {
    let mut a = AnyArray::new(DataType::U64, 3, 2);
    assert_eq!(a.dtype(), DataType::U64);
    assert!(matches!(a.get_checked(DataType::U64, 2, 1), Ok(Value::U64(0))));
    assert!(matches!(
        a.get_checked(DataType::Bool, 0, 0),
        Err(ConnectorAgentError::UnexpectedType(DataType::U64, "bool"))
    ));
    assert!(matches!(a.get_checked(DataType::U64, 3, 0), Err(ConnectorAgentError::OutOfBound)));
    assert!(matches!(a.get_checked(DataType::U64, 0, 2), Err(ConnectorAgentError::OutOfBound)));
    a.set(1, 1, Value::U64(11));
    a.set(2, 0, Value::U64(20));
    let head = a.split_rows(1);
    assert_eq!(head.nrows(), 1);
    assert_eq!(a.nrows(), 2);
    assert!(matches!(a.get_checked(DataType::U64, 0, 1), Ok(Value::U64(11))));
    let mut joined = head;
    joined.append_rows(a);
    assert_eq!(joined.nrows(), 3);
    assert_eq!(joined.ncols(), 2);
    assert!(matches!(joined.get_checked(DataType::U64, 2, 0), Ok(Value::U64(20))));
    assert!(matches!(joined.get_checked(DataType::U64, 1, 1), Ok(Value::U64(11))));
}

#[test]
fn string_defaults_are_empty() {
    let a = AnyArray::new(DataType::String, 1, 1);
    assert!(matches!(a.get_checked(DataType::String, 0, 0), Ok(Value::Str(s)) if s.is_empty()));
    assert_eq!(DataType::OptU64.native_name(), "Option<u64>");
}

#[test]
fn string_column_flushes_at_threshold_only() {
    let mut col = StringBlock::new(vec![vec![None; 3]]).split().remove(0);
    col.write(b"a".to_vec());
    col.try_flush();
    assert_eq!(col.slot(0), &None);
    col.flush();
    assert_eq!(col.slot(0), &Some(b"a".to_vec()));
    let big = vec![b'x'; 16 * 1048576];
    col.write(big.clone());
    assert_eq!(col.slot(1), &Some(big));
}
