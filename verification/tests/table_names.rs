use h3cellstore::table::{Table, TableSpec};
use std::time::{SystemTime, UNIX_EPOCH};

fn temporary_key() -> String {
    let nanos = SystemTime::now()
        .duration_since(UNIX_EPOCH)
        .map(|d| d.as_nanos())
        .unwrap_or(0);
    format!("k{}", nanos)
}

#[test]
fn test_table_to_name() {
    let mut table = Table {
        basename: "some_table".to_string(),
        spec: TableSpec {
            h3_resolution: 5,
            is_compacted: false,
            temporary_key: None,
            has_base_suffix: true,
        },
    };

    assert_eq!(table.to_table_name(), "some_table_05_base");

    table.spec.has_base_suffix = false;
    assert_eq!(table.to_table_name(), "some_table_05");
}

#[test]
fn test_table_from_name_with_suffix() {
    let table = Table::parse("some_ta78ble_05_base");
    assert!(table.is_some());
    let table_u = table.unwrap();
    assert_eq!(table_u.basename, "some_ta78ble".to_string());
    assert_eq!(table_u.spec.h3_resolution, 5_u8);
    assert!(!table_u.spec.is_compacted);
    assert!(!table_u.spec.is_temporary());
}

#[test]
fn test_table_from_name_without_suffix() {
    let table = Table::parse("some_ta78ble_05");
    assert!(table.is_some());
    let table_u = table.unwrap();
    assert_eq!(table_u.basename, "some_ta78ble".to_string());
    assert_eq!(table_u.spec.h3_resolution, 5_u8);
    assert!(!table_u.spec.is_compacted);
    assert!(!table_u.spec.is_temporary());
}

#[test]
fn test_table_from_name_temporary_temporarykey() {
    let temporary_key = temporary_key();
    let table = Table {
        basename: "some_table".to_string(),
        spec: TableSpec {
            h3_resolution: 5,
            is_compacted: false,
            temporary_key: Some(temporary_key.to_string()),
            has_base_suffix: true,
        },
    };
    let table2 = Table::parse(&table.to_table_name()).unwrap();
    assert_eq!(table, table2);
    assert_eq!(
        temporary_key.to_string(),
        table2.spec.temporary_key.unwrap()
    );
}

#[test]
fn test_table_from_name_temporary_without_suffix() {
    let table = Table::parse("some_ta78ble_05_tmp5t");
    assert!(table.is_some());
    let table_u = table.unwrap();
    assert_eq!(table_u.basename, "some_ta78ble".to_string());
    assert_eq!(table_u.spec.h3_resolution, 5_u8);
    assert!(!table_u.spec.is_compacted);
    assert!(table_u.spec.is_temporary());
    assert_eq!(table_u.spec.temporary_key, Some("5t".to_string()));
}

#[test]
fn test_table_from_name_temporary_with_suffix() {
    let table = Table::parse("some_ta78ble_05_base_tmp5t");
    assert!(table.is_some());
    let table_u = table.unwrap();
    assert_eq!(table_u.basename, "some_ta78ble".to_string());
    assert_eq!(table_u.spec.h3_resolution, 5_u8);
    assert!(!table_u.spec.is_compacted);
    assert!(table_u.spec.is_temporary());
    assert_eq!(table_u.spec.temporary_key, Some("5t".to_string()));
}

#[test]
fn compacted_name_round_trip() {
    let table = Table {
        basename: "water".to_string(),
        spec: TableSpec {
            h3_resolution: 5,
            is_compacted: true,
            temporary_key: None,
            has_base_suffix: true,
        },
    };
    assert_eq!(table.to_table_name(), "water_05_compacted");
    assert_eq!(table.to_string(), "water_05_compacted");
    assert_eq!(Table::parse("water_05_compacted"), Some(table));
    let plain = Table::parse("water_05").unwrap();
    assert!(!plain.spec.has_base_suffix);
    assert!(!plain.spec.is_compacted);
}

#[test]
fn names_that_are_no_table_names() {
    for name in [
        "",
        "one",
        "events",
        "a_05",
        "_ab_05",
        "4ab_05",
        "ab_5",
        "ab_05_",
        "ab_05_tmp",
        "ab_05_basis",
        "ab_05_base_tmp",
        "ab_05_basex",
        "ab_05_tmp-1",
        "äb_05",
        "ab_05 ",
        "ab_٠٥",
    ] {
        assert_eq!(Table::parse(name), None, "{:?}", name);
    }
}

#[test]
fn the_longest_basename_is_read() {
    let table = Table::parse("x_01_tmp_02").unwrap();
    assert_eq!(table.basename, "x_01_tmp");
    assert_eq!(table.spec.h3_resolution, 2);
    assert_eq!(table.spec.temporary_key, None);

    let table = Table::parse("ab_05_base_06_compacted_tmpk_1").unwrap();
    assert_eq!(table.basename, "ab_05_base");
    assert_eq!(table.spec.h3_resolution, 6);
    assert!(table.spec.is_compacted);
    assert!(table.spec.has_base_suffix);
    assert_eq!(table.spec.temporary_key, Some("k_1".to_string()));
}

#[test]
fn resolutions_are_written_with_two_digits() {
    for (resolution, expected) in [(0u8, "t1_00"), (9, "t1_09"), (10, "t1_10"), (15, "t1_15"), (99, "t1_99")] {
        let table = Table {
            basename: "t1".to_string(),
            spec: TableSpec {
                h3_resolution: resolution,
                is_compacted: false,
                temporary_key: None,
                has_base_suffix: false,
            },
        };
        assert_eq!(table.to_table_name(), expected);
        assert_eq!(Table::parse(expected), Some(table));
    }
}

#[test]
fn parsing_agrees_with_the_grammar_as_a_regular_expression() {
    let grammar = regex::Regex::new(
        r"^([A-Za-z][A-Za-z0-9_]+)_([0-9]{2})(_(base|compacted))?(_tmp([A-Za-z0-9_]+))?$",
    )
    .unwrap();
    let names = [
        "water_00_base",
        "water_13_compacted",
        "elephants_02",
        "some_ta78ble_05_base_tmp5t",
        "x_01_tmp_02",
        "x_01_tmp_02_base",
        "ab_05_base_06_compacted_tmpk_1",
        "ab_05_tmp_06_tmp_07",
        "ab_99_compacted_tmp_",
        "ab_1_22",
        "merge_tree_settings",
        "numbers_mt",
        "a_05",
        "ab_05_base_",
        "AB_05_COMPACTED",
        "ab__05",
        "ab_05_compacted_base",
    ];
    for name in names {
        let expected = grammar.captures(name).map(|c| Table {
            basename: c[1].to_string(),
            spec: TableSpec {
                h3_resolution: c[2].parse().unwrap(),
                is_compacted: c.get(4).map(|m| m.as_str() == "compacted").unwrap_or(false),
                temporary_key: c.get(6).map(|m| m.as_str().to_string()),
                has_base_suffix: c.get(4).is_some(),
            },
        });
        assert_eq!(Table::parse(name), expected, "{:?}", name);
    }
}
