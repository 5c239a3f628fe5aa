use connector_agent::data_sources::dummy::{
    BoolCounterSource, BoolSourceBuilder, F64CounterSource, StringSource, F64SourceBuilder, OptU64SourceBuilder, StringSourceBuilder,
    U64SourceBuilder,
};
use connector_agent::dispatcher::negotiate;
use connector_agent::{
    Consume, DataSource, ConnectorAgentError, DataOrder, DataType, Dispatcher, MemoryWriter, PartitionWriter,
    Value, Writer,
};

fn u64_of(v: &Value) -> u64 {
    match v {
        Value::U64(x) => *x,
        other => panic!("not a u64 cell: {:?}", other),
    }
}

fn str_of(v: &Value) -> String {
    match v {
        Value::Str(s) => s.clone(),
        other => panic!("not a string cell: {:?}", other),
    }
}

fn bool_of(v: &Value) -> bool {
    match v {
        Value::Bool(b) => *b,
        other => panic!("not a bool cell: {:?}", other),
    }
}

fn f64_of(v: &Value) -> f64 {
    match v {
        Value::F64(bits) => f64::from_bits(*bits),
        other => panic!("not a f64 cell: {:?}", other),
    }
}

fn rows_of<T>(w: &MemoryWriter, nrows: usize, ncols: usize, f: fn(&Value) -> T) -> Vec<Vec<T>> {
    (0..nrows)
        .map(|r| (0..ncols).map(|c| f(w.cell(r, c).expect("cell"))).collect())
        .collect()
}

#[test]
#[should_panic]
fn wrong_data_type() {
    let mut dw = MemoryWriter::supporting(vec![DataType::U64]);
    let _ = dw
        .allocate(
            11,
            vec![
                DataType::U64,
                DataType::U64,
                DataType::U64,
                DataType::F64,
                DataType::U64,
            ],
            DataOrder::RowMajor,
        )
        .unwrap();
}

#[test]
#[should_panic]
fn wrong_string_data_type() {
    let mut dw = MemoryWriter::supporting(vec![DataType::String]);
    let _ = dw
        .allocate(
            11,
            vec![
                DataType::String,
                DataType::String,
                DataType::U64,
                DataType::String,
                DataType::String,
            ],
            DataOrder::RowMajor,
        )
        .unwrap();
}

#[test]
fn write_array() {
    let schema = vec![DataType::U64; 5];
    let queries = vec!["4".to_string(), "7".to_string()];

    let dispatcher = Dispatcher::new(
        U64SourceBuilder {},
        MemoryWriter::supporting(vec![DataType::U64]),
        schema,
        queries,
    );
    let dw = dispatcher.run_checked().expect("run dispatcher");

    let expected: Vec<Vec<u64>> = vec![
        vec![0, 1, 2, 3, 4],
        vec![5, 6, 7, 8, 9],
        vec![10, 11, 12, 13, 14],
        vec![15, 16, 17, 18, 19],
        vec![0, 1, 2, 3, 4],
        vec![5, 6, 7, 8, 9],
        vec![10, 11, 12, 13, 14],
        vec![15, 16, 17, 18, 19],
        vec![20, 21, 22, 23, 24],
        vec![25, 26, 27, 28, 29],
        vec![30, 31, 32, 33, 34],
    ];
    assert_eq!(expected, rows_of(&dw, 11, 5, u64_of));
    assert!(dw.cell(11, 0).is_none());
}

#[test]
fn write_string_array() {
    let schema = vec![DataType::String; 5];
    let queries = vec!["4".to_string(), "7".to_string()];

    let dispatcher = Dispatcher::new(
        StringSourceBuilder {},
        MemoryWriter::supporting(vec![DataType::String]),
        schema,
        queries,
    );
    let dw = dispatcher.run_checked().expect("run dispatcher");

    let expected: Vec<Vec<&str>> = vec![
        vec!["0", "1", "2", "3", "4"],
        vec!["5", "6", "7", "8", "9"],
        vec!["10", "11", "12", "13", "14"],
        vec!["15", "16", "17", "18", "19"],
        vec!["0", "1", "2", "3", "4"],
        vec!["5", "6", "7", "8", "9"],
        vec!["10", "11", "12", "13", "14"],
        vec!["15", "16", "17", "18", "19"],
        vec!["20", "21", "22", "23", "24"],
        vec!["25", "26", "27", "28", "29"],
        vec!["30", "31", "32", "33", "34"],
    ];
    let expected: Vec<Vec<String>> = expected
        .into_iter()
        .map(|r| r.into_iter().map(String::from).collect())
        .collect();
    assert_eq!(expected, rows_of(&dw, 11, 5, str_of));
}

#[test]
fn write_array_bool() {
    let schema = vec![DataType::Bool; 5];
    let queries = vec!["4".to_string(), "7".to_string()];

    let dispatcher = Dispatcher::new(
        BoolSourceBuilder {},
        MemoryWriter::supporting(vec![DataType::Bool]),
        schema,
        queries,
    );
    let dw = dispatcher.run_checked().expect("run dispatcher");
    let expected = vec![
        vec![false, true, false, true, false],
        vec![true, false, true, false, true],
        vec![false, true, false, true, false],
        vec![true, false, true, false, true],
        vec![false, true, false, true, false],
        vec![true, false, true, false, true],
        vec![false, true, false, true, false],
        vec![true, false, true, false, true],
        vec![false, true, false, true, false],
        vec![true, false, true, false, true],
        vec![false, true, false, true, false],
    ];
    assert_eq!(expected, rows_of(&dw, 11, 5, bool_of));
}

#[test]
fn write_array_f64() {
    let schema = vec![DataType::F64; 5];
    let queries = vec!["4".to_string(), "7".to_string()];

    let dispatcher = Dispatcher::new(
        F64SourceBuilder {},
        MemoryWriter::supporting(vec![DataType::F64]),
        schema,
        queries,
    );
    let dw = dispatcher.run_checked().expect("run dispatcher");

    let expected = vec![
        vec![0.0, 0.5, 1.0, 1.5, 2.0],
        vec![2.5, 3.0, 3.5, 4.0, 4.5],
        vec![5.0, 5.5, 6.0, 6.5, 7.0],
        vec![7.5, 8.0, 8.5, 9.0, 9.5],
        vec![0.0, 0.5, 1.0, 1.5, 2.0],
        vec![2.5, 3.0, 3.5, 4.0, 4.5],
        vec![5.0, 5.5, 6.0, 6.5, 7.0],
        vec![7.5, 8.0, 8.5, 9.0, 9.5],
        vec![10.0, 10.5, 11.0, 11.5, 12.0],
        vec![12.5, 13.0, 13.5, 14.0, 14.5],
        vec![15.0, 15.5, 16.0, 16.5, 17.0],
    ];
    assert_eq!(expected, rows_of(&dw, 11, 5, f64_of));
}

#[test]
fn unchecked_run_matches_checked_run() {
    let schema = vec![DataType::U64; 3];
    let queries = vec!["2".to_string(), "3".to_string()];
    let a = Dispatcher::new(U64SourceBuilder {}, MemoryWriter::new(), schema.clone(), queries.clone())
        .run()
        .expect("run");
    let b = Dispatcher::new(U64SourceBuilder {}, MemoryWriter::new(), schema, queries)
        .run_checked()
        .expect("run checked");
    assert_eq!(rows_of(&a, 5, 3, u64_of), rows_of(&b, 5, 3, u64_of));
    assert_eq!(rows_of(&a, 5, 3, u64_of)[2], vec![0, 1, 2]);
}

#[test]
fn schema_mismatch_fails_before_any_write() {
    let schema = vec![DataType::U64, DataType::U64, DataType::U64, DataType::F64, DataType::U64];
    let queries = vec!["4".to_string(), "7".to_string()];
    let r = Dispatcher::new(
        U64SourceBuilder {},
        MemoryWriter::supporting(vec![DataType::U64]),
        schema,
        queries,
    )
    .run_checked();
    assert!(matches!(r, Err(ConnectorAgentError::UnsupportedType(DataType::F64))));
}

#[test]
fn mixed_types_keep_schema_order() {
    let schema = vec![DataType::U64, DataType::F64, DataType::String];
    let queries = vec!["10".to_string()];
    let dw = Dispatcher::new(U64SourceBuilder {}, MemoryWriter::new(), schema, queries)
        .run()
        .expect("run dispatcher");
    // one block per tag, in the order of the tags
    assert_eq!(dw.nbuffers(), 3);
    assert_eq!(dw.column_buffer_index(0), (0, 0));
    assert_eq!(dw.column_buffer_index(1), (1, 0));
    assert_eq!(dw.column_buffer_index(2), (2, 0));
    for r in 0..10u64 {
        let ru = r as usize;
        assert_eq!(u64_of(dw.cell(ru, 0).unwrap()), 3 * r);
        assert_eq!(f64_of(dw.cell(ru, 1).unwrap()), (3 * r + 1) as f64);
        assert_eq!(str_of(dw.cell(ru, 2).unwrap()), (3 * r + 2).to_string());
    }
    let col = dw.column_view(2, DataType::String).expect("string column");
    assert_eq!(col.len(), 10);
    assert_eq!(str_of(col[9]), "29");
    assert!(dw.column_view(2, DataType::U64).is_none());
    assert!(dw.buffer_view(0, DataType::U64).is_some());
    assert!(dw.buffer_view(0, DataType::F64).is_none());
}

#[test]
fn grouped_blocks_preserve_interleaved_columns() {
    let schema = vec![DataType::String, DataType::U64, DataType::String, DataType::U64];
    let dw = Dispatcher::new(U64SourceBuilder {}, MemoryWriter::new(), schema, vec!["2".to_string()])
        .run()
        .expect("run dispatcher");
    assert_eq!(dw.nbuffers(), 2);
    assert_eq!(dw.column_buffer_index(0), (1, 0));
    assert_eq!(dw.column_buffer_index(1), (0, 0));
    assert_eq!(dw.column_buffer_index(2), (1, 1));
    assert_eq!(dw.column_buffer_index(3), (0, 1));
    assert_eq!(str_of(dw.cell(1, 0).unwrap()), "4");
    assert_eq!(u64_of(dw.cell(1, 1).unwrap()), 5);
    assert_eq!(str_of(dw.cell(1, 2).unwrap()), "6");
    assert_eq!(u64_of(dw.cell(1, 3).unwrap()), 7);
    let block = dw.buffer_view(0, DataType::U64).unwrap();
    assert_eq!(block.ncols(), 2);
    assert_eq!(block.nrows(), 2);
}

#[test]
fn bad_query_is_a_source_error() {
    let r = Dispatcher::new(
        U64SourceBuilder {},
        MemoryWriter::new(),
        vec![DataType::U64],
        vec!["four".to_string()],
    )
    .run();
    assert!(matches!(r, Err(ConnectorAgentError::SourceError(_))));
}

#[test]
fn unsupported_cell_type_aborts_the_run() {
    let r = Dispatcher::new(
        StringSourceBuilder {},
        MemoryWriter::new(),
        vec![DataType::String, DataType::Bool],
        vec!["3".to_string()],
    )
    .run_checked();
    assert!(matches!(r, Err(ConnectorAgentError::UnsupportedType(DataType::Bool))));
}

#[test]
fn nullable_source_fills_nullable_columns() {
    let tables = vec![vec![Some(1), None, Some(3), Some(4)], vec![None, Some(6)]];
    let builder = OptU64SourceBuilder::new(tables, 2);
    let dw = Dispatcher::new(
        builder,
        MemoryWriter::new(),
        vec![DataType::OptU64, DataType::U64],
        vec!["a".to_string(), "b".to_string()],
    )
    .run()
    .expect("run dispatcher");
    let cells: Vec<(Option<u64>, u64)> = (0..3)
        .map(|r| {
            let a = match dw.cell(r, 0).unwrap() {
                Value::OptU64(x) => *x,
                other => panic!("{:?}", other),
            };
            (a, u64_of(dw.cell(r, 1).unwrap()))
        })
        .collect();
    assert_eq!(cells, vec![(Some(1), 0), (Some(3), 4), (None, 6)]);
}

#[test]
fn nullable_builder_without_tables_fails() {
    let builder = OptU64SourceBuilder::new(vec![vec![Some(1)]], 1);
    let r = Dispatcher::new(
        builder,
        MemoryWriter::new(),
        vec![DataType::OptU64],
        vec!["a".to_string(), "b".to_string()],
    )
    .run();
    assert!(matches!(r, Err(ConnectorAgentError::SourceError(_))));
}

#[test]
fn partitioning_keeps_the_table() {
    let cells = vec![Some(1), Some(2), None, Some(4), Some(5), None];
    let one = Dispatcher::new(
        OptU64SourceBuilder::new(vec![cells.clone()], 2),
        MemoryWriter::new(),
        vec![DataType::OptU64, DataType::OptU64],
        vec!["all".to_string()],
    )
    .run()
    .expect("run");
    let split = Dispatcher::new(
        OptU64SourceBuilder::new(vec![cells[..2].to_vec(), cells[2..].to_vec()], 2),
        MemoryWriter::new(),
        vec![DataType::OptU64, DataType::OptU64],
        vec!["first".to_string(), "rest".to_string()],
    )
    .run()
    .expect("run");
    let read = |w: &MemoryWriter| -> Vec<Vec<Option<u64>>> {
        (0..3)
            .map(|r| {
                (0..2)
                    .map(|c| match w.cell(r, c).unwrap() {
                        Value::OptU64(x) => *x,
                        other => panic!("{:?}", other),
                    })
                    .collect()
            })
            .collect()
    };
    assert_eq!(read(&one), read(&split));
    assert_eq!(read(&one), vec![vec![Some(1), Some(2)], vec![None, Some(4)], vec![Some(5), None]]);
}

#[test]
fn consume_checked_rejects_wrong_type_and_keeps_cells() {
    let mut dw = MemoryWriter::new();
    dw.allocate(3, vec![DataType::U64, DataType::Bool], DataOrder::RowMajor).unwrap();
    let mut ws = dw.partition_writers(&[1, 2]);
    assert_eq!(ws[1].nrows(), 2);
    assert_eq!(ws[1].ncols(), 2);
    let r = ws[1].consume_checked(0, 0, Value::Bool(true));
    assert!(matches!(r, Err(ConnectorAgentError::UnexpectedType(DataType::U64, "bool"))));
    let r = ws[1].consume_checked(2, 0, Value::U64(1));
    assert!(matches!(r, Err(ConnectorAgentError::OutOfBound)));
    let r = ws[1].consume_checked(0, 5, Value::U64(1));
    assert!(matches!(r, Err(ConnectorAgentError::OutOfBound)));
    ws[1].consume_checked(1, 0, Value::U64(u64::MAX)).unwrap();
    ws[0].consume(0, 1, Value::Bool(true));
    dw.absorb(ws);
    assert_eq!(u64_of(dw.cell(0, 0).unwrap()), 0);
    assert!(bool_of(dw.cell(0, 1).unwrap()));
    assert_eq!(u64_of(dw.cell(1, 0).unwrap()), 0);
    assert_eq!(u64_of(dw.cell(2, 0).unwrap()), u64::MAX);
    assert!(!bool_of(dw.cell(2, 1).unwrap()));
}

#[test]
fn round_trip_every_tag() {
    let schema = vec![DataType::U64, DataType::F64, DataType::Bool, DataType::String, DataType::OptU64];
    let mut dw = MemoryWriter::new();
    dw.allocate(2, schema, DataOrder::RowMajor).unwrap();
    let mut ws = dw.partition_writers(&[2]);
    assert_eq!(ws[0].nrows(), 2);
    ws[0].consume(1, 0, Value::U64(7));
    ws[0].consume(1, 1, Value::F64((-2.25f64).to_bits()));
    ws[0].consume(1, 2, Value::Bool(true));
    ws[0].consume(1, 3, Value::Str("héllo".to_string()));
    ws[0].consume(1, 4, Value::OptU64(None));
    dw.absorb(ws);
    assert_eq!(u64_of(dw.cell(1, 0).unwrap()), 7);
    assert_eq!(f64_of(dw.cell(1, 1).unwrap()), -2.25);
    assert!(bool_of(dw.cell(1, 2).unwrap()));
    assert_eq!(str_of(dw.cell(1, 3).unwrap()), "héllo");
    assert!(matches!(dw.cell(1, 4).unwrap(), Value::OptU64(None)));
    // defaults where nothing was written
    assert_eq!(u64_of(dw.cell(0, 0).unwrap()), 0);
    assert_eq!(str_of(dw.cell(0, 3).unwrap()), "");
}

#[test]
fn allocate_rejects_column_major() {
    let mut dw = MemoryWriter::new();
    let r = dw.allocate(1, vec![DataType::U64], DataOrder::ColumnMajor);
    assert!(matches!(r, Err(ConnectorAgentError::UnsupportedDataOrder(DataOrder::ColumnMajor))));
}

#[test]
fn negotiation_without_common_order_fails() {
    let r = negotiate(&vec![DataOrder::RowMajor], &vec![DataOrder::ColumnMajor]);
    assert!(matches!(r, Err(ConnectorAgentError::NoCommonDataOrder)));
    let r = negotiate(
        &vec![DataOrder::ColumnMajor, DataOrder::RowMajor],
        &vec![DataOrder::RowMajor, DataOrder::ColumnMajor],
    );
    assert!(matches!(r, Ok(DataOrder::ColumnMajor)));
}

#[test]
fn empty_queries_give_an_empty_table() {
    let dw = Dispatcher::new(U64SourceBuilder {}, MemoryWriter::new(), vec![DataType::U64; 2], vec![])
        .run()
        .expect("run");
    assert!(dw.cell(0, 0).is_none());
    let dw = Dispatcher::new(U64SourceBuilder {}, MemoryWriter::new(), vec![DataType::U64; 2], vec!["0".to_string(), "+2".to_string()])
        .run()
        .expect("run");
    assert_eq!(rows_of(&dw, 2, 2, u64_of), vec![vec![0, 1], vec![2, 3]]);
}

#[test]
fn nullable_builder_takes_tables_in_query_order() {
    let tables = vec![vec![Some(1)], vec![Some(2)], vec![Some(3)]];
    let dw = Dispatcher::new(
        OptU64SourceBuilder::new(tables, 1),
        MemoryWriter::new(),
        vec![DataType::U64],
        vec!["a".to_string(), "b".to_string(), "c".to_string()],
    )
    .run()
    .expect("run");
    assert_eq!(rows_of(&dw, 3, 1, u64_of), vec![vec![1], vec![2], vec![3]]);
}

#[test]
fn refused_cells_do_not_advance_sources() {
    let mut s = StringSource::new();
    assert!(s.produce(DataType::Bool).is_err());
    assert!(matches!(s.produce(DataType::String), Ok(Value::Str(x)) if x == "0"));
    assert!(matches!(s.produce(DataType::U64), Ok(Value::U64(1))));
    let mut b = BoolCounterSource::new();
    assert!(b.produce(DataType::String).is_err());
    assert!(matches!(b.produce(DataType::Bool), Ok(Value::Bool(false))));
    assert!(matches!(b.produce(DataType::Bool), Ok(Value::Bool(true))));
    let mut f = F64CounterSource::new();
    assert!(f.produce(DataType::String).is_err());
    assert!(f.produce(DataType::Bool).is_err());
    assert!(matches!(f.produce(DataType::F64), Ok(Value::F64(0))));
    assert_eq!(f64_of(&f.produce(DataType::F64).unwrap()), 0.5);
}

#[test]
fn failed_allocation_leaves_the_destination_empty() {
    let mut dw = MemoryWriter::supporting(vec![DataType::U64]);
    assert!(dw.allocate(2, vec![DataType::Bool], DataOrder::RowMajor).is_err());
    assert_eq!(dw.nbuffers(), 0);
    assert!(dw.cell(0, 0).is_none());
    assert!(dw.schema().is_empty());
}
