use h3cellstore::tableset::{find_tablesets, TableSet};

fn get<'a>(tablesets: &'a [TableSet], basename: &str) -> Option<&'a TableSet> {
    tablesets.iter().find(|ts| ts.basename == basename)
}

#[test]
fn test_find_tablesets() {
    let table_names = [
        "aggregate_function_combinators",
        "asynchronous_metrics",
        "build_options",
        "clusters",
        "collations",
        "columns",
        "contributors",
        "something_else_06_base",
        "something_else_07_base",
        "data_type_families",
        "databases",
        "detached_parts",
        "dictionaries",
        "disks",
        "events",
        "formats",
        "functions",
        "graphite_retentions",
        "macros",
        "merge_tree_settings",
        "merges",
        "metric_log",
        "metrics",
        "models",
        "mutations",
        "numbers",
        "numbers_mt",
        "one",
        "parts",
        "parts_columns",
        "processes",
        "quota_usage",
        "quotas",
        "replicas",
        "replication_queue",
        "row_policies",
        "settings",
        "stack_trace",
        "storage_policies",
        "table_engines",
        "table_functions",
        "tables",
        "trace_log",
        "zeros",
        "zeros_mt",
        "water_00_base",
        "water_00_compacted",
        "water_01_base",
        "water_01_compacted",
        "water_02_base",
        "water_02_compacted",
        "water_03_base",
        "water_03_compacted",
        "water_04_base",
        "water_04_compacted",
        "water_05_base",
        "water_05_compacted",
        "water_06_base",
        "water_06_compacted",
        "water_07_base",
        "water_07_compacted",
        "water_08_base",
        "water_08_compacted",
        "water_09_base",
        "water_09_compacted",
        "water_10_base",
        "water_10_compacted",
        "water_11_base",
        "water_11_compacted",
        "water_12_base",
        "water_12_compacted",
        "water_13_base",
        "water_13_compacted",
        "elephants_02",
        "elephants_03",
        "elephants_01_compacted",
    ];

    let tablesets = find_tablesets(&table_names);
    assert_eq!(tablesets.len(), 3);
    assert!(get(&tablesets, "water").is_some());
    let water_ts = get(&tablesets, "water").unwrap();
    assert_eq!(water_ts.basename, "water");
    for h3res in 0..=13 {
        assert!(water_ts.base_tables.get(&h3res).is_some());
        assert!(water_ts.compacted_tables.get(&h3res).is_some());
    }
    assert!(water_ts.base_tables.get(&14).is_none());
    assert!(water_ts.compacted_tables.get(&14).is_none());

    assert!(get(&tablesets, "something_else").is_some());
    let se_ts = get(&tablesets, "something_else").unwrap();
    assert_eq!(se_ts.basename, "something_else");
    assert_eq!(se_ts.base_tables.len(), 2);
    assert!(se_ts.base_tables.get(&6).is_some());
    assert!(se_ts.base_tables.get(&7).is_some());
    assert_eq!(se_ts.compacted_tables.len(), 0);

    assert!(get(&tablesets, "elephants").is_some());
    let elephants_ts = get(&tablesets, "elephants").unwrap();
    assert_eq!(elephants_ts.basename, "elephants");
    assert_eq!(elephants_ts.base_tables.len(), 2);
    assert!(elephants_ts.base_tables.get(&2).is_some());
    assert!(elephants_ts.base_tables.get(&3).is_some());
    assert_eq!(elephants_ts.compacted_tables.len(), 1);
    assert!(elephants_ts.compacted_tables.get(&1).is_some());

    assert!(get(&tablesets, "one").is_none());
    assert!(get(&tablesets, "events").is_none());
}

#[test]
fn tablesets_stand_in_the_order_of_their_first_table() {
    let tablesets = find_tablesets(&["b1_03", "a1_02_base", "b1_02_compacted", "a1_01_tmpx"]);
    let names: Vec<&str> = tablesets.iter().map(|ts| ts.basename.as_str()).collect();
    assert_eq!(names, vec!["b1", "a1"]);
    assert_eq!(tablesets[0].num_tables(), 2);
    assert_eq!(tablesets[1].num_tables(), 1);
    assert_eq!(tablesets[1].base_resolutions(), vec![2]);
    assert_eq!(tablesets[1].compacted_resolutions(), Vec::<u8>::new());
}

#[test]
fn temporary_tables_are_passed_over() {
    let tablesets = find_tablesets(&["water_05_base_tmpabc", "water_05_tmp1"]);
    assert!(tablesets.is_empty());
}

#[test]
fn a_later_name_takes_the_place_of_an_earlier_one() {
    let tablesets = find_tablesets(&["water_05", "water_05_base", "water_04_base", "water_04"]);
    assert_eq!(tablesets.len(), 1);
    let water = &tablesets[0];
    assert_eq!(water.base_resolutions(), vec![4, 5]);
    assert!(water.base_tables.get(&5).unwrap().has_base_suffix);
    assert!(!water.base_tables.get(&4).unwrap().has_base_suffix);
    let names: Vec<String> = water.tables().iter().map(|t| t.to_table_name()).collect();
    assert_eq!(names, vec!["water_04", "water_05_base"]);
}

#[test]
fn tables_are_listed_by_rising_resolution() {
    let tablesets = find_tablesets(&[
        "water_07_base",
        "water_02_compacted",
        "water_03_base",
        "water_01_compacted",
    ]);
    let water = &tablesets[0];
    assert_eq!(water.base_resolutions(), vec![3, 7]);
    assert_eq!(water.compacted_resolutions(), vec![1, 2]);
    let base: Vec<String> = water.base_tables().iter().map(|t| t.to_table_name()).collect();
    assert_eq!(base, vec!["water_03_base", "water_07_base"]);
    let compacted: Vec<String> = water
        .compacted_tables()
        .iter()
        .map(|t| t.to_table_name())
        .collect();
    assert_eq!(compacted, vec!["water_01_compacted", "water_02_compacted"]);
    let all: Vec<String> = water.tables().iter().map(|t| t.to_table_name()).collect();
    assert_eq!(
        all,
        vec![
            "water_03_base",
            "water_07_base",
            "water_01_compacted",
            "water_02_compacted"
        ]
    );
    assert_eq!(water.num_tables(), 4);
    assert_eq!(water.as_ref(), "water");
}
