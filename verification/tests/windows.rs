use h3cellstore::error::Error;
use h3cellstore::tableset::{find_tablesets, TableSet};
use h3cellstore::window::{
    after_probe, fits_window, merge_window_cells, next_probe, prefetch_query, window_candidates,
    window_index_resolution, SlidingH3Window, WindowFetch, WindowStep,
};
use h3ron::{H3Cell, Index};

const CELL: u64 = 0x85283473fffffff;

fn water() -> TableSet {
    find_tablesets(&[
        "water_03_base",
        "water_04_base",
        "water_05_base",
        "water_00_compacted",
        "water_01_compacted",
        "water_02_compacted",
        "water_03_compacted",
        "water_04_compacted",
    ])
    .remove(0)
}

#[test]
fn the_window_is_walked_through_once() {
    let mut window = SlidingH3Window::new(7, vec![3, 1, 2]);
    assert_eq!(window.target_h3_resolution(), 7);
    assert_eq!(window.remaining(), 3);
    assert_eq!(window.next_window(), Some(3));
    assert_eq!(window.next_window(), Some(1));
    assert_eq!(window.remaining(), 1);
    assert_eq!(window.next_window(), Some(2));
    assert_eq!(window.next_window(), None);
    assert_eq!(window.next_window(), None);
    assert_eq!(window.remaining(), 0);
    assert_eq!(SlidingH3Window::new(7, vec![]).next_window(), None);
}

#[test]
fn the_window_resolution_is_the_coarsest_that_keeps_windows_small() {
    let ts = water();
    assert_eq!(window_index_resolution(&ts, 5, 49), 3);
    assert_eq!(window_index_resolution(&ts, 5, 48), 4);
    assert_eq!(window_index_resolution(&ts, 5, 7), 4);
    assert_eq!(window_index_resolution(&ts, 5, 6), 5);
    assert_eq!(window_index_resolution(&ts, 5, 1), 5);
    assert_eq!(window_index_resolution(&ts, 5, 0), 5);
    assert_eq!(window_index_resolution(&ts, 5, 16807), 0);
    assert_eq!(window_index_resolution(&ts, 5, u32::MAX), 0);
    assert_eq!(window_index_resolution(&ts, 9, 2401), 5);
    assert_eq!(window_index_resolution(&ts, 9, 2400), 9);
    assert_eq!(window_index_resolution(&ts, 0, 100), 0);
    let gaps = find_tablesets(&["gaps_02_base", "gaps_06_base"]).remove(0);
    assert_eq!(window_index_resolution(&gaps, 7, 343), 6);
    assert_eq!(window_index_resolution(&gaps, 7, 16807), 2);
    assert_eq!(window_index_resolution(&gaps, 1, 16807), 1);
}

#[test]
fn powers_of_seven() {
    assert!(fits_window(0, 1));
    assert!(!fits_window(0, 0));
    assert!(fits_window(1, 7));
    assert!(!fits_window(1, 6));
    assert!(fits_window(11, 1977326743));
    assert!(!fits_window(11, 1977326742));
    assert!(!fits_window(12, u32::MAX));
    assert!(!fits_window(255, u32::MAX));
}

#[test]
fn window_cells_are_the_filled_cells_and_their_neighbours() {
    let disk: Vec<u64> = H3Cell::new(CELL)
        .grid_disk(1)
        .unwrap()
        .iter()
        .map(|c| c.h3index())
        .collect();
    assert_eq!(disk.len(), 7);
    let mut expected = vec![CELL];
    for c in &disk {
        if !expected.contains(c) {
            expected.push(*c);
        }
    }
    assert_eq!(window_candidates(&[CELL]).unwrap(), expected);
    assert_eq!(expected.len(), 7);

    let neighbour = *disk.iter().find(|c| **c != CELL).unwrap();
    let both = window_candidates(&[CELL, neighbour, CELL]).unwrap();
    assert_eq!(both.len(), 10);
    assert_eq!(&both[..7], &expected[..]);
    let mut sorted = both.clone();
    sorted.sort();
    sorted.dedup();
    assert_eq!(sorted.len(), both.len());
    assert_eq!(window_candidates(&[]).unwrap(), Vec::<u64>::new());
}

#[test]
fn merging_keeps_the_first_occurrence_of_each_cell() {
    assert_eq!(
        merge_window_cells(&vec![(5, vec![1, 5, 2]), (6, vec![2, 7]), (5, vec![9, 1])]),
        vec![5, 1, 2, 6, 7, 9]
    );
    assert_eq!(merge_window_cells(&vec![]), Vec::<u64>::new());
}

#[test]
fn a_window_is_probed_with_a_query_for_one_row() {
    let ts = water();
    let query = prefetch_query(&ts, CELL, None).unwrap();
    let parts: Vec<&str> = query.split(" union all ").collect();
    assert_eq!(parts.len(), 6);
    assert_eq!(
        parts[0],
        "select h3index from water_00_compacted where h3index in [577199624117288959] limit 1"
    );
    assert_eq!(
        parts[5],
        "select h3index from water_05_base where h3index in [599686042433355775] limit 1"
    );
    let query = prefetch_query(&ts, 0x8428347ffffffff, Some("select 1 from <[table]> where h3index in <[h3indexes]>")).unwrap();
    assert!(query.ends_with(
        "select 1 from water_04_base where h3index in [595182446027210751] limit 1"
    ));
    assert_eq!(prefetch_query(&ts, 5, None), Err(Error::InvalidCell(5)));
    assert_eq!(
        prefetch_query(&ts, CELL, Some("select 1")),
        Err(Error::MissingQueryPlaceholder("<[table]>".to_string()))
    );
}

#[test]
fn windows_without_data_are_skipped() {
    let ts = water();
    let cells: Vec<u64> = H3Cell::new(0x832834fffffffff)
        .get_children(4)
        .unwrap()
        .iter()
        .map(|c| c.h3index())
        .take(3)
        .collect();
    let empty = cells[1];
    let mut window = SlidingH3Window::new(5, cells.clone());
    let mut fetched = Vec::new();
    loop {
        match next_probe(&mut window, &ts, None).unwrap() {
            WindowStep::Done => break,
            WindowStep::Probe { window_cell, query } => {
                assert!(query.contains(&format!("[{}] limit 1", window_cell)));
                let has_rows = window_cell != empty;
                match after_probe(window_cell, window.target_h3_resolution(), has_rows).unwrap() {
                    WindowFetch::Skip => assert_eq!(window_cell, empty),
                    WindowFetch::Fetch { window_cell, cells } => {
                        let expected: Vec<u64> = H3Cell::new(window_cell)
                            .get_children(5)
                            .unwrap()
                            .iter()
                            .map(|c| c.h3index())
                            .collect();
                        assert_eq!(cells, expected);
                        assert_eq!(cells.len(), 7);
                        fetched.push(window_cell);
                    }
                }
            }
        }
    }
    assert_eq!(fetched, vec![cells[0], cells[2]]);
    assert_eq!(next_probe(&mut window, &ts, None), Ok(WindowStep::Done));
}

#[test]
fn a_window_cannot_be_finer_than_the_cells_to_look_up() {
    assert_eq!(after_probe(CELL, 4, true), Err(Error::InvalidResolution(4)));
    assert_eq!(after_probe(CELL, 16, true), Err(Error::InvalidResolution(16)));
    assert_eq!(after_probe(CELL, 4, false), Ok(WindowFetch::Skip));
    assert_eq!(
        after_probe(CELL, 5, true),
        Ok(WindowFetch::Fetch {
            window_cell: CELL,
            cells: vec![CELL]
        })
    );
}
