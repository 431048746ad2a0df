use h3cellstore::error::Error;
use h3cellstore::tableset::{find_tablesets, TableSet, TableSetQuery};
use h3ron::{H3Cell, Index};

const CELL: u64 = 0x85283473fffffff;
const SIBLING: u64 = 0x85283477fffffff;

fn water() -> TableSet {
    let mut sets = find_tablesets(&[
        "water_03_base",
        "water_04_base",
        "water_05_base",
        "water_00_compacted",
        "water_01_compacted",
        "water_02_compacted",
        "water_03_compacted",
        "water_04_compacted",
    ]);
    assert_eq!(sets.len(), 1);
    let mut water = sets.remove(0);
    water.columns = vec![
        ("depth".to_string(), "Float32".to_string()),
        ("h3index_parent".to_string(), "UInt64".to_string()),
        ("seen".to_string(), "Date".to_string()),
    ];
    water
}

#[test]
fn generated_query_is_a_union_over_the_resolutions() {
    let query = water()
        .build_select_query(&[CELL, SIBLING], &TableSetQuery::AutoGenerated)
        .unwrap();
    let expected = [
        "select h3index, depth, seen from water_00_compacted where h3index in [577199624117288959]",
        "select h3index, depth, seen from water_01_compacted where h3index in [581672437419081727]",
        "select h3index, depth, seen from water_02_compacted where h3index in [586175487290638335]",
        "select h3index, depth, seen from water_03_compacted where h3index in [590678880759578623]",
        "select h3index, depth, seen from water_04_compacted where h3index in [595182446027210751]",
        "select h3index, depth, seen from water_05_base where h3index in [599686042433355775,599686043507097599]",
    ]
    .join(" union all ");
    assert_eq!(query, expected);
}

#[test]
fn parents_in_the_query_are_those_of_the_indexing_library() {
    let cells: Vec<u64> = H3Cell::new(0x8428347ffffffff)
        .get_children(6)
        .unwrap()
        .iter()
        .map(|c| c.h3index())
        .collect();
    assert_eq!(cells.len(), 49);
    let query = water()
        .build_select_query(&cells, &TableSetQuery::TemplatedSelect("<[table]>:<[h3indexes]>".to_string()))
        .unwrap();
    let mut expected = Vec::new();
    for r in 0..=4u8 {
        let mut parents: Vec<u64> = Vec::new();
        for c in &cells {
            let p = H3Cell::new(*c).get_parent(r).unwrap().h3index();
            if !parents.contains(&p) {
                parents.push(p);
            }
        }
        let list: Vec<String> = parents.iter().map(|p| p.to_string()).collect();
        expected.push(format!("water_{:02}_compacted:[{}]", r, list.join(",")));
    }
    assert_eq!(query, expected.join(" union all "));
    assert!(query.ends_with("water_04_compacted:[595182446027210751]"));
}

#[test]
fn template_is_filled_for_each_table() {
    let template = "select h3index, depth from <[table]> where h3index in <[h3indexes]> and table = '<[table]>'";
    let query = water()
        .build_select_query(&[CELL], &TableSetQuery::TemplatedSelect(template.to_string()))
        .unwrap();
    let parts: Vec<&str> = query.split(" union all ").collect();
    assert_eq!(parts.len(), 6);
    assert_eq!(
        parts[5],
        "select h3index, depth from water_05_base where h3index in [599686042433355775] and table = 'water_05_base'"
    );
    assert_eq!(
        parts[0],
        "select h3index, depth from water_00_compacted where h3index in [577199624117288959] and table = 'water_00_compacted'"
    );
    assert!(!query.contains("<[table]>"));
    assert!(!query.contains("<[h3indexes]>"));
}

#[test]
fn no_placeholder_is_left_in_a_template_that_nests_them() {
    let template = "<[tab<[table]>le]> <[h3in<[h3indexes]>dexes]> <[<[h3indexes]>table]> <<[table]>>";
    let query = water()
        .build_select_query(&[CELL], &TableSetQuery::TemplatedSelect(template.to_string()))
        .unwrap();
    assert!(!query.contains("<[table]>"));
    assert!(!query.contains("<[h3indexes]>"));
    assert!(query.starts_with(
        "<[tabwater_00_compactedle]> <[h3in[577199624117288959]dexes]> <[[577199624117288959]table]> <water_00_compacted>"
    ));
}

#[test]
fn template_without_placeholder_is_rejected() {
    let query = TableSetQuery::TemplatedSelect("select * from <[table]>".to_string());
    assert_eq!(
        query.validate(),
        Err(Error::MissingQueryPlaceholder("<[h3indexes]>".to_string()))
    );
    assert_eq!(
        water().build_select_query(&[CELL], &query),
        Err(Error::MissingQueryPlaceholder("<[h3indexes]>".to_string()))
    );
    assert_eq!(
        TableSetQuery::TemplatedSelect("select <[h3indexes]>".to_string()).validate(),
        Err(Error::MissingQueryPlaceholder("<[table]>".to_string()))
    );
    assert_eq!(
        TableSetQuery::TemplatedSelect("nothing".to_string()).validate(),
        Err(Error::MissingQueryPlaceholder("<[table]>".to_string()))
    );
    assert_eq!(
        TableSetQuery::TemplatedSelect("<[h3indexes]><[table]>".to_string()).validate(),
        Ok(())
    );
    assert_eq!(TableSetQuery::AutoGenerated.validate(), Ok(()));
    assert!(water().build_select_query(&[CELL], &TableSetQuery::AutoGenerated).is_ok());
}

#[test]
fn query_of_an_optional_template() {
    assert!(matches!(
        TableSetQuery::from_template(None),
        TableSetQuery::AutoGenerated
    ));
    assert!(matches!(
        TableSetQuery::from_template(Some("x".to_string())),
        TableSetQuery::TemplatedSelect(t) if t == "x"
    ));
}

#[test]
fn planning_fails_without_cells_or_with_mixed_cells() {
    assert_eq!(
        water().build_select_query(&[], &TableSetQuery::AutoGenerated),
        Err(Error::EmptyCells)
    );
    assert_eq!(
        water().build_select_query(&[CELL, 0x8428347ffffffff], &TableSetQuery::AutoGenerated),
        Err(Error::MixedResolutions)
    );
    assert_eq!(
        water().build_select_query(
            &[],
            &TableSetQuery::TemplatedSelect("no placeholder".to_string())
        ),
        Err(Error::MissingQueryPlaceholder("<[table]>".to_string()))
    );
}

#[test]
fn planning_fails_without_tables_up_to_the_resolution_of_the_cells() {
    let sets = find_tablesets(&["fine_07_base", "fine_06_compacted"]);
    assert_eq!(
        sets[0].build_select_query(&[CELL], &TableSetQuery::AutoGenerated),
        Err(Error::NoQueryableTables)
    );
    let sets = find_tablesets(&["base_04_base", "base_03"]);
    assert_eq!(
        sets[0].build_select_query(&[CELL], &TableSetQuery::AutoGenerated),
        Err(Error::NoQueryableTables)
    );
}

#[test]
fn the_table_of_the_cells_resolution_is_the_base_table_or_else_the_compacted_one() {
    let sets = find_tablesets(&["a1_05_compacted", "a1_04_base", "a1_03_compacted"]);
    let query = sets[0]
        .build_select_query(&[CELL], &TableSetQuery::TemplatedSelect("<[table]><[h3indexes]>".to_string()))
        .unwrap();
    assert_eq!(
        query,
        "a1_03_compacted[590678880759578623] union all a1_05_compacted[599686042433355775]"
    );
    let sets = find_tablesets(&["b1_05"]);
    let query = sets[0]
        .build_select_query(&[CELL, CELL], &TableSetQuery::AutoGenerated)
        .unwrap();
    assert_eq!(
        query,
        "select h3index,  from b1_05 where h3index in [599686042433355775]"
    );
}
