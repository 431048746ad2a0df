use h3cellstore::compacted_tables::{CompactedTableSchema, CompactedTableSchemaBuilder, Schema};
use h3cellstore::error::Error;
use h3cellstore::schema::{
    validate_table_name, AggregationMethod, ColumnDefinition, CompressionMethod, Datatype,
    SimpleColumn, TableEngine, TemporalPartitioning, TemporalResolution,
};

#[test]
fn test_validate_table_name() {
    assert!(validate_table_name("unittest", "").is_err());
    assert!(validate_table_name("unittest", " test").is_err());
    assert!(validate_table_name("unittest", "4test").is_err());
    assert!(validate_table_name("unittest", "something").is_ok());
    assert!(validate_table_name("unittest", "some_thing").is_ok());
}

fn data_okavango_delta() -> CompactedTableSchema {
    CompactedTableSchemaBuilder::new("okavango_delta")
        .h3_base_resolutions(vec![1, 2, 3, 4, 5])
        .temporal_partitioning(TemporalPartitioning::Month)
        .add_column(
            "elephant_density",
            ColumnDefinition::WithAggregation(
                SimpleColumn {
                    datatype: Datatype::F32,
                    order_key_position: None,
                },
                AggregationMethod::Average,
            ),
        )
        .add_column(
            "observed_on",
            ColumnDefinition::Simple(SimpleColumn {
                datatype: Datatype::DateTime,
                order_key_position: Some(0),
            }),
        )
        .build()
        .unwrap()
}

#[test]
fn schema_to_json() {
    let s = Schema::CompactedTable(data_okavango_delta());
    for s in s.create_statements().unwrap().iter() {
        println!("{}", s);
    }
}

#[test]
fn partitioning_columns_implicit() {
    assert_eq!(
        data_okavango_delta().partition_by_expressions().unwrap(),
        vec![
            "h3GetBaseCell(h3index)".to_string(),
            "toString(toMonth(observed_on))".to_string()
        ]
    );
}

fn statement(table: &str) -> String {
    format!(
        "
CREATE TABLE IF NOT EXISTS {} (
 elephant_density Float32 CODEC(ZSTD(6)),
 h3index UInt64 CODEC(ZSTD(6)),
 observed_on DateTime CODEC(ZSTD(6))
)
ENGINE ReplacingMergeTree
PARTITION BY (h3GetBaseCell(h3index), toString(toMonth(observed_on)))
ORDER BY (h3index, observed_on);
",
        table
    )
}

#[test]
fn create_statements_of_a_schema() {
    let statements = data_okavango_delta().create_statements().unwrap();
    let tables = [
        "okavango_delta_01_base",
        "okavango_delta_02_base",
        "okavango_delta_03_base",
        "okavango_delta_04_base",
        "okavango_delta_05_base",
        "okavango_delta_00_compacted",
        "okavango_delta_01_compacted",
        "okavango_delta_02_compacted",
        "okavango_delta_03_compacted",
        "okavango_delta_04_compacted",
        "okavango_delta_05_compacted",
    ];
    assert_eq!(statements.len(), tables.len());
    for (found, table) in statements.iter().zip(tables) {
        assert_eq!(found, &statement(table));
    }
}

#[test]
fn statements_do_not_depend_on_the_order_in_which_columns_were_added() {
    let a = CompactedTableSchemaBuilder::new("t1")
        .h3_base_resolutions(vec![3])
        .add_column("b", ColumnDefinition::Simple(SimpleColumn::new(Datatype::U8, Some(2))))
        .add_column("a", ColumnDefinition::Simple(SimpleColumn::new(Datatype::I64N, Some(2))))
        .add_column("zz", ColumnDefinition::Simple(SimpleColumn::new(Datatype::F64, None)))
        .build()
        .unwrap();
    let b = CompactedTableSchemaBuilder::new("t1")
        .h3_base_resolutions(vec![3])
        .add_column("zz", ColumnDefinition::Simple(SimpleColumn::new(Datatype::F64, None)))
        .add_column("a", ColumnDefinition::Simple(SimpleColumn::new(Datatype::I64N, Some(2))))
        .add_column("b", ColumnDefinition::Simple(SimpleColumn::new(Datatype::U8, Some(2))))
        .build()
        .unwrap();
    assert_eq!(a.create_statements().unwrap(), b.create_statements().unwrap());
    let names: Vec<String> = a.get_columns().into_iter().map(|c| c.0).collect();
    assert_eq!(names, vec!["a", "b", "h3index", "zz"]);
    assert_eq!(a.order_by_column_names(), vec!["h3index", "a", "b"]);
    assert!(a.create_statements().unwrap()[0].contains(" a Nullable(Int64) CODEC(ZSTD(6)),\n b UInt8 CODEC"));
}

#[test]
fn a_column_added_twice_is_held_once() {
    let s = CompactedTableSchemaBuilder::new("t1")
        .h3_base_resolutions(vec![3])
        .add_column("a", ColumnDefinition::Simple(SimpleColumn::new(Datatype::U8, None)))
        .add_column("a", ColumnDefinition::Simple(SimpleColumn::new(Datatype::U16, Some(1))))
        .build()
        .unwrap();
    assert_eq!(
        s.get_columns(),
        vec![
            ("a".to_string(), ColumnDefinition::Simple(SimpleColumn::new(Datatype::U16, Some(1)))),
            ("h3index".to_string(), ColumnDefinition::H3Index),
        ]
    );
    assert_eq!(
        s.get_column_def("a").unwrap(),
        ColumnDefinition::Simple(SimpleColumn::new(Datatype::U16, Some(1)))
    );
    assert!(matches!(
        s.get_column_def("b"),
        Err(Error::SchemaValidationError(_, m)) if m == "column b is missing"
    ));
}

#[test]
fn order_by_begins_with_the_cell_index() {
    let s = CompactedTableSchemaBuilder::new("t1")
        .h3_base_resolutions(vec![3])
        .add_column("first", ColumnDefinition::Simple(SimpleColumn::new(Datatype::U8, Some(0))))
        .add_column("a_last", ColumnDefinition::Simple(SimpleColumn::new(Datatype::U8, Some(255))))
        .add_column("ten_b", ColumnDefinition::Simple(SimpleColumn::new(Datatype::U8, Some(10))))
        .add_column("ten_a", ColumnDefinition::WithAggregation(
            SimpleColumn::new(Datatype::U8, Some(10)),
            AggregationMethod::Sum,
        ))
        .add_column("unkeyed", ColumnDefinition::Simple(SimpleColumn::new(Datatype::U8, None)))
        .build()
        .unwrap();
    assert_eq!(
        s.order_by_column_names(),
        vec!["h3index", "first", "ten_a", "ten_b", "a_last"]
    );
}

#[test]
fn engines_and_codecs_are_written_out() {
    let s = CompactedTableSchemaBuilder::new("t1")
        .h3_base_resolutions(vec![0])
        .use_compacted_resolutions(false)
        .table_engine(TableEngine::SummingMergeTree(vec!["n".to_string(), "m".to_string()]))
        .compression_method(CompressionMethod::LZ4HC(9))
        .temporal_resolution(TemporalResolution::Day)
        .temporal_partitioning(TemporalPartitioning::Year)
        .add_column("n", ColumnDefinition::Simple(SimpleColumn::new(Datatype::U32, None)))
        .add_column("m", ColumnDefinition::Simple(SimpleColumn::new(Datatype::U32, None)))
        .add_column("day", ColumnDefinition::Simple(SimpleColumn::new(Datatype::DateN, None)))
        .build()
        .unwrap();
    assert_eq!(
        s.create_statements().unwrap(),
        vec!["
CREATE TABLE IF NOT EXISTS t1_00_base (
 day Nullable(Date) CODEC(LZ4HC(9)),
 h3index UInt64 CODEC(LZ4HC(9)),
 m UInt32 CODEC(LZ4HC(9)),
 n UInt32 CODEC(LZ4HC(9))
)
ENGINE SummingMergeTree(n, m)
PARTITION BY (h3GetBaseCell(h3index), toString(toYear(day)))
ORDER BY (h3index);
"
        .to_string()]
    );
    let aggregating = CompactedTableSchemaBuilder::new("t1")
        .h3_base_resolutions(vec![0])
        .use_compacted_resolutions(false)
        .table_engine(TableEngine::AggregatingMergeTree)
        .build()
        .unwrap();
    assert!(aggregating.create_statements().unwrap()[0].contains("\nENGINE AggregatingMergeTree\n"));
    assert_eq!(CompressionMethod::ZSTD(22).codec(), "ZSTD(22)");
    assert_eq!(CompressionMethod::default(), CompressionMethod::ZSTD(6));
}

#[test]
fn partitioning_by_named_columns() {
    let s = CompactedTableSchemaBuilder::new("t1")
        .h3_base_resolutions(vec![2])
        .add_column("t1", ColumnDefinition::Simple(SimpleColumn::new(Datatype::DateTime, None)))
        .add_column("t2", ColumnDefinition::Simple(SimpleColumn::new(Datatype::Date, None)))
        .add_column("kind", ColumnDefinition::Simple(SimpleColumn::new(Datatype::U8, None)))
        .partition_by(vec![
            "kind".to_string(),
            "t2".to_string(),
            "kind".to_string(),
            "h3index".to_string(),
        ])
        .build()
        .unwrap();
    assert_eq!(
        s.partition_by_expressions().unwrap(),
        vec!["h3GetBaseCell(h3index)", "kind", "toString(toMonth(t2))"]
    );
}

fn message(r: Result<CompactedTableSchema, Error>) -> (String, String) {
    match r {
        Err(Error::SchemaValidationError(owner, message)) => (owner, message),
        Err(e) => panic!("{:?}", e),
        Ok(_) => panic!("schema was accepted"),
    }
}

#[test]
fn faults_of_a_schema() {
    let builder = || CompactedTableSchemaBuilder::new("t1").h3_base_resolutions(vec![2, 3]);
    assert!(builder().build().is_ok());

    assert_eq!(
        message(CompactedTableSchemaBuilder::new("1t").h3_base_resolutions(vec![2]).build()),
        ("CompactedTableSchema".to_string(), "invalid table name".to_string())
    );
    assert_eq!(
        message(builder().compression_method(CompressionMethod::ZSTD(0)).build()),
        ("CompressionMethod".to_string(), "compression level out of range".to_string())
    );
    assert_eq!(
        message(builder().compression_method(CompressionMethod::ZSTD(23)).build()).0,
        "CompressionMethod"
    );
    assert_eq!(
        message(builder().compression_method(CompressionMethod::LZ4HC(13)).build()).0,
        "CompressionMethod"
    );
    assert!(builder().compression_method(CompressionMethod::LZ4HC(0)).build().is_ok());
    assert!(builder().compression_method(CompressionMethod::LZ4HC(12)).build().is_ok());
    assert!(builder().compression_method(CompressionMethod::ZSTD(1)).build().is_ok());
    assert!(builder().compression_method(CompressionMethod::ZSTD(22)).build().is_ok());
    assert_eq!(
        message(
            builder()
                .add_column("h3index", ColumnDefinition::Simple(SimpleColumn::new(Datatype::U64, None)))
                .build()
        ),
        (
            "CompactedTableSchema".to_string(),
            "column h3index must be a h3index column".to_string()
        )
    );
    assert_eq!(
        message(
            builder()
                .table_engine(TableEngine::SummingMergeTree(vec![
                    "x".to_string(),
                    "h3index".to_string(),
                    "y".to_string()
                ]))
                .build()
        ),
        (
            "TableEngine".to_string(),
            "SummingMergeTree engine is missing columns: x, y".to_string()
        )
    );
    assert!(matches!(
        builder().h3_base_resolutions(vec![3, 16, 17]).build(),
        Err(Error::InvalidResolution(16))
    ));
    assert_eq!(
        message(builder().h3_base_resolutions(vec![3, 2]).build()).1,
        "h3 base resolutions must rise without repetition"
    );
    assert_eq!(
        message(builder().h3_base_resolutions(vec![2, 2]).build()).1,
        "h3 base resolutions must rise without repetition"
    );
    assert_eq!(
        message(builder().h3_base_resolutions(vec![]).build()).1,
        "at least one h3 base resolution is required"
    );
    assert_eq!(
        message(
            builder()
                .add_column("t1", ColumnDefinition::Simple(SimpleColumn::new(Datatype::DateTime, None)))
                .add_column("t2", ColumnDefinition::Simple(SimpleColumn::new(Datatype::DateN, None)))
                .build()
        )
        .1,
        "found multiple temporal columns - explicit specification of partitioning columns required"
    );
    assert_eq!(
        message(builder().partition_by(vec!["nope".to_string()]).build()).1,
        "column nope is missing"
    );
}

#[test]
fn the_first_fault_is_reported() {
    let r = CompactedTableSchemaBuilder::new("")
        .compression_method(CompressionMethod::ZSTD(0))
        .build();
    assert_eq!(message(r).1, "invalid table name");
}

#[test]
fn types_and_their_sql_names() {
    let expected = [
        (Datatype::U8, "UInt8"),
        (Datatype::U16, "UInt16"),
        (Datatype::U32, "UInt32"),
        (Datatype::U64, "UInt64"),
        (Datatype::I8, "Int8"),
        (Datatype::I16, "Int16"),
        (Datatype::I32, "Int32"),
        (Datatype::I64, "Int64"),
        (Datatype::F32, "Float32"),
        (Datatype::F64, "Float64"),
        (Datatype::Date, "Date"),
        (Datatype::DateTime, "DateTime"),
        (Datatype::U8N, "Nullable(UInt8)"),
        (Datatype::I32N, "Nullable(Int32)"),
        (Datatype::F64N, "Nullable(Float64)"),
        (Datatype::DateTimeN, "Nullable(DateTime)"),
    ];
    for (datatype, name) in expected {
        assert_eq!(datatype.sqltype(), name);
        assert_eq!(datatype.to_string(), name);
    }
    assert!(Datatype::Date.is_temporal());
    assert!(Datatype::DateTimeN.is_temporal());
    assert!(!Datatype::U64.is_temporal());
    assert!(Datatype::F32N.is_nullable());
    assert!(!Datatype::F32.is_nullable());
    assert_eq!(ColumnDefinition::H3Index.datatype(), Datatype::U64);
    assert_eq!(ColumnDefinition::H3Index.order_key_position(), None);
}

#[test]
fn compaction_needs_a_base_resolution_to_make_statements() {
    let s = data_okavango_delta();
    assert_eq!(s.max_h3_resolution().unwrap(), 5);
    assert_eq!(s.name(), "okavango_delta");
    assert!(s.has_base_suffix());
    assert!(s.use_compaction());
    assert!(s.validate().is_ok());
    assert!(Schema::CompactedTable(s).validate().is_ok());
}
