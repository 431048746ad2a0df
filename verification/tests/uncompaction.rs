use h3cellstore::columnset::{ColVec, ColumnSet};
use h3cellstore::error::Error;
use h3cellstore::uncompact::uncompact;
use h3ron::{H3Cell, Index};

const ANCESTOR: u64 = 0x8428347ffffffff;
const OTHER_ANCESTOR: u64 = 0x8428341ffffffff;

fn children(cell: u64, resolution: u8) -> Vec<u64> {
    H3Cell::new(cell)
        .get_children(resolution)
        .unwrap()
        .iter()
        .map(|c| c.h3index())
        .collect()
}

fn block(cells: Vec<u64>, counts: Vec<u32>) -> ColumnSet {
    ColumnSet::new()
        .add_column("h3index", ColVec::U64(cells))
        .unwrap()
        .add_column("count", ColVec::U32(counts))
        .unwrap()
}

#[test]
fn a_row_of_an_ancestor_becomes_a_row_for_each_cell_asked_for() {
    let below = children(ANCESTOR, 5);
    assert_eq!(below.len(), 7);
    let (c0, c1) = (below[2], below[5]);
    let out = uncompact(&block(vec![ANCESTOR], vec![7]), &[c1, c0]).unwrap();
    assert_eq!(out.column_names(), vec!["count", "h3index"]);
    assert_eq!(out.get("h3index"), Some(&ColVec::U64(vec![c0, c1])));
    assert_eq!(out.get("count"), Some(&ColVec::U32(vec![7, 7])));
    assert_eq!(out.len(), 2);
    assert_eq!(out.num_columns(), 2);
}

#[test]
fn every_row_is_repeated_as_often_as_it_stands_for_cells() {
    let below = children(ANCESTOR, 6);
    let others = children(OTHER_ANCESTOR, 6);
    let cells = vec![below[48], below[0], below[7], others[3]];
    let set = ColumnSet::new()
        .add_column("name", ColVec::I8N(vec![Some(-1), None, Some(3), Some(4)]))
        .unwrap()
        .add_column("h3index", ColVec::U64(vec![below[7], ANCESTOR, 0x832834fffffffff, others[3]]))
        .unwrap()
        .add_column("density", ColVec::F32(vec![1.5f32.to_bits(), 0, 2, 3]))
        .unwrap()
        .add_column("seen", ColVec::DateTime(vec![-5, 6, 7, 8]))
        .unwrap();
    let out = uncompact(&set, &cells).unwrap();
    assert_eq!(out.column_names(), vec!["name", "density", "seen", "h3index"]);
    assert_eq!(
        out.get("h3index"),
        Some(&ColVec::U64(vec![
            below[7], below[0], below[7], below[48], others[3], below[0], below[7], below[48],
            others[3]
        ]))
    );
    assert_eq!(
        out.get("name"),
        Some(&ColVec::I8N(vec![
            Some(-1),
            None,
            None,
            None,
            Some(3),
            Some(3),
            Some(3),
            Some(3),
            Some(4)
        ]))
    );
    assert_eq!(
        out.get("density"),
        Some(&ColVec::F32(vec![1.5f32.to_bits(), 0, 0, 0, 2, 2, 2, 2, 3]))
    );
    assert_eq!(
        out.get("seen"),
        Some(&ColVec::DateTime(vec![-5, 6, 6, 6, 7, 7, 7, 7, 8]))
    );
    assert_eq!(out.len(), 9);
}

#[test]
fn a_row_without_cells_asked_for_below_it_is_left_out() {
    let below = children(ANCESTOR, 5);
    let out = uncompact(
        &block(vec![OTHER_ANCESTOR, ANCESTOR, OTHER_ANCESTOR], vec![1, 2, 3]),
        &[below[0]],
    )
    .unwrap();
    assert_eq!(out.get("h3index"), Some(&ColVec::U64(vec![below[0]])));
    assert_eq!(out.get("count"), Some(&ColVec::U32(vec![2])));
}

#[test]
fn a_row_of_the_resolution_asked_for_is_passed_on() {
    let below = children(ANCESTOR, 5);
    let out = uncompact(&block(vec![below[1], below[2]], vec![1, 2]), &[below[2]]).unwrap();
    assert_eq!(out.get("h3index"), Some(&ColVec::U64(vec![below[1], below[2]])));
    assert_eq!(out.get("count"), Some(&ColVec::U32(vec![1, 2])));
}

#[test]
fn an_empty_block_stays_empty() {
    let below = children(ANCESTOR, 5);
    let out = uncompact(&block(vec![], vec![]), &below).unwrap();
    assert_eq!(out.get("h3index"), Some(&ColVec::U64(vec![])));
    assert_eq!(out.get("count"), Some(&ColVec::U32(vec![])));
    assert!(out.is_empty());
}

#[test]
fn uncompaction_fails_on_what_it_cannot_expand() {
    let below = children(ANCESTOR, 5);
    let finer = children(ANCESTOR, 6);
    assert_eq!(
        uncompact(&block(vec![ANCESTOR], vec![1]), &[]),
        Err(Error::EmptyCells)
    );
    assert_eq!(
        uncompact(&block(vec![ANCESTOR], vec![1]), &[12345, below[0]]),
        Err(Error::InvalidCell(12345))
    );
    let no_cells = ColumnSet::new()
        .add_column("count", ColVec::U32(vec![1]))
        .unwrap();
    assert_eq!(
        uncompact(&no_cells, &below),
        Err(Error::ColumnNotFound("h3index".to_string()))
    );
    let signed = ColumnSet::new()
        .add_column("h3index", ColVec::I64(vec![1]))
        .unwrap();
    assert_eq!(uncompact(&signed, &below), Err(Error::IncompatibleDatatype));
    let nullable = ColumnSet::new()
        .add_column("h3index", ColVec::U64N(vec![Some(ANCESTOR)]))
        .unwrap();
    assert_eq!(uncompact(&nullable, &below), Err(Error::IncompatibleDatatype));
    assert_eq!(
        uncompact(&block(vec![ANCESTOR, 77, finer[0]], vec![1, 2, 3]), &below),
        Err(Error::InvalidCell(77))
    );
    assert_eq!(
        uncompact(&block(vec![ANCESTOR, finer[0], 77], vec![1, 2, 3]), &below),
        Err(Error::InvalidResolution(6))
    );
}

#[test]
fn columns_of_a_set_have_one_length_and_names_of_their_own() {
    let set = block(vec![1, 2], vec![3, 4]);
    assert_eq!(
        set.add_column("more", ColVec::U8(vec![1])),
        Err(Error::DifferentColumnLength("more".to_string(), 2, 1))
    );
    let set = block(vec![1, 2], vec![3, 4]);
    assert!(matches!(
        set.add_column("count", ColVec::U8(vec![1, 2])),
        Err(Error::SchemaValidationError(owner, message))
            if owner == "ColumnSet" && message == "column count exists"
    ));
    let set = block(vec![1, 2], vec![3, 4]);
    assert_eq!(set.get("count").unwrap().len(), 2);
    assert!(set.get("nothing").is_none());
    assert!(ColumnSet::new().is_empty());
    assert_eq!(ColumnSet::new().len(), 0);
}
