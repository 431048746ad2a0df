use h3cellstore::catalog::tablesets_query;
use h3cellstore::columnset::{ColVec, ColumnSet};
use h3cellstore::compacted_tables::{CompactedTableSchema, CompactedTableSchemaBuilder, Schema};
use h3cellstore::error::Error;
use h3cellstore::schema::{ColumnDefinition, Datatype, SimpleColumn};
use h3cellstore::store::{check_columnset, insert_tables};
use h3cellstore::tableset::find_tablesets;

fn schema() -> CompactedTableSchema {
    CompactedTableSchemaBuilder::new("herd")
        .h3_base_resolutions(vec![3, 5])
        .add_column("n", ColumnDefinition::Simple(SimpleColumn::new(Datatype::U32, None)))
        .add_column("seen", ColumnDefinition::Simple(SimpleColumn::new(Datatype::DateN, None)))
        .build()
        .unwrap()
}

#[test]
fn columns_are_checked_against_the_schema() {
    let s = Schema::CompactedTable(schema());
    let good = ColumnSet::new()
        .add_column("n", ColVec::U32(vec![1]))
        .unwrap()
        .add_column("h3index", ColVec::U64(vec![1]))
        .unwrap()
        .add_column("seen", ColVec::DateN(vec![None]))
        .unwrap();
    assert_eq!(check_columnset(&s, &good), Ok(()));
    assert_eq!(check_columnset(&s, &ColumnSet::new()), Ok(()));
    let unknown = ColumnSet::new()
        .add_column("n", ColVec::U32(vec![1]))
        .unwrap()
        .add_column("m", ColVec::U32(vec![1]))
        .unwrap()
        .add_column("seen", ColVec::Date(vec![1]))
        .unwrap();
    assert_eq!(
        check_columnset(&s, &unknown),
        Err(Error::ColumnNotFound("m".to_string()))
    );
    let mistyped = ColumnSet::new()
        .add_column("seen", ColVec::Date(vec![1]))
        .unwrap()
        .add_column("m", ColVec::U32(vec![1]))
        .unwrap();
    assert_eq!(check_columnset(&s, &mistyped), Err(Error::IncompatibleDatatype));
}

#[test]
fn rows_are_split_by_the_resolution_of_their_cells() {
    let (r5a, r5b, r4, r0) = (
        0x85283473fffffffu64,
        0x85283477fffffffu64,
        0x8428347ffffffffu64,
        0x8029fffffffffffu64,
    );
    let set = ColumnSet::new()
        .add_column("n", ColVec::U32(vec![1, 2, 3, 4, 5]))
        .unwrap()
        .add_column("h3index", ColVec::U64(vec![r5a, r0, r4, r5b, r0]))
        .unwrap()
        .add_column("c", ColVec::I16N(vec![None, Some(-2), Some(3), None, Some(5)]))
        .unwrap();
    let parts = set.split_by_resolution("h3index", true).unwrap();
    let resolutions: Vec<u8> = parts.iter().map(|p| p.0).collect();
    assert_eq!(resolutions, vec![0, 4, 5]);
    assert_eq!(parts[0].1.column_names(), vec!["n", "c"]);
    assert_eq!(parts[0].1.get("n"), Some(&ColVec::U32(vec![2, 5])));
    assert_eq!(parts[0].1.get("c"), Some(&ColVec::I16N(vec![Some(-2), Some(5)])));
    assert_eq!(parts[1].1.get("n"), Some(&ColVec::U32(vec![3])));
    assert_eq!(parts[2].1.get("n"), Some(&ColVec::U32(vec![1, 4])));
    assert_eq!(parts[2].1.get("c"), Some(&ColVec::I16N(vec![None, None])));

    let parts = set.split_by_resolution("h3index", false).unwrap();
    assert_eq!(parts.len(), 3);
    assert_eq!(parts[2].1.column_names(), vec!["n", "h3index", "c"]);
    assert_eq!(parts[2].1.get("h3index"), Some(&ColVec::U64(vec![r5a, r5b])));
    assert_eq!(parts[0].1.get("h3index"), Some(&ColVec::U64(vec![r0, r0])));

    assert_eq!(
        set.split_by_resolution("cells", true),
        Err(Error::ColumnNotFound("cells".to_string()))
    );
    assert_eq!(
        set.split_by_resolution("n", true),
        Err(Error::IncompatibleDatatype)
    );
    let empty = ColumnSet::new()
        .add_column("h3index", ColVec::U64(vec![]))
        .unwrap();
    assert_eq!(empty.split_by_resolution("h3index", false), Ok(vec![]));
}

#[test]
fn parts_go_into_the_tables_of_their_resolution() {
    let s = schema();
    let names = |r: Result<Vec<h3cellstore::table::Table>, Error>| -> Vec<String> {
        r.unwrap().iter().map(|t| t.to_table_name()).collect()
    };
    assert_eq!(
        names(insert_tables(&s, &vec![0, 3, 5])),
        vec!["herd_00_compacted", "herd_03_compacted", "herd_05_base"]
    );
    assert_eq!(names(insert_tables(&s, &vec![])), Vec::<String>::new());
    assert_eq!(
        insert_tables(&s, &vec![2, 6, 4]),
        Err(Error::InvalidResolution(6))
    );
}

#[test]
fn the_catalog_is_asked_for_the_tables_and_their_columns() {
    assert_eq!(
        tablesets_query(),
        "select table from system.columns where name = 'h3index' and database = currentDatabase()"
    );
    let ts = find_tablesets(&["herd_03", "herd_05_base", "herd_02_compacted"]).remove(0);
    assert_eq!(
        ts.columns_query(),
        "select name, type, count(*) as c from system.columns where table in \
         ('herd_03', 'herd_05_base', 'herd_02_compacted') and database = currentDatabase() \
         and not startsWith(name, 'h3index') group by name, type"
    );
}

#[test]
fn a_column_stays_if_every_table_has_it_with_one_type() {
    let mut ts = find_tablesets(&["herd_03", "herd_05_base", "herd_02_compacted"]).remove(0);
    let row = |n: &str, t: &str, c: u64| (n.to_string(), t.to_string(), c);
    let left_out = ts.enrich_columns(&vec![
        row("n", "UInt32", 3),
        row("seen", "Date", 2),
        row("seen", "DateTime", 1),
        row("h3index_parent", "UInt64", 3),
        row("kind", "UInt8", 3),
        row("rare", "Float32", 1),
        row("n", "UInt64", 4),
    ]);
    assert_eq!(
        ts.columns,
        vec![
            ("n".to_string(), "UInt32".to_string()),
            ("kind".to_string(), "UInt8".to_string())
        ]
    );
    assert_eq!(left_out, vec!["seen", "seen", "rare", "n"]);
    assert_eq!(ts.num_tables(), 3);
    assert_eq!(ts.basename, "herd");

    let left_out = ts.enrich_columns(&vec![row("other", "Int8", 3)]);
    assert_eq!(ts.columns, vec![("other".to_string(), "Int8".to_string())]);
    assert!(left_out.is_empty());
}
