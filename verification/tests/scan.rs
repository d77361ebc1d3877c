use buddhabrot::scan::{
    progress_of, snapshot_of, GridScan, Progress, ScanEvent, INCLUDE_ESCAPING,
    INCLUDE_NONESCAPING,
};

fn events(mut scan: GridScan) -> Vec<ScanEvent> {
    let mut all = Vec::new();
    while let Some(event) = scan.next() {
        all.push(event);
    }
    assert_eq!(scan.next(), None);
    assert_eq!(scan.next(), None);
    all
}

#[test]
fn the_seed_grid_is_the_screen_times_the_supersampling_factor() {
    let scan = GridScan::new((16384, 16384), 2, 16).unwrap();
    assert_eq!(scan.grid_size(), (32768, 32768));
    assert_eq!(scan.band_height(), 2048);
    let scan = GridScan::new((4, 6), 3, 4).unwrap();
    assert_eq!(scan.grid_size(), (12, 18));
    assert_eq!(scan.band_height(), 4);
}

#[test]
fn settings_that_are_not_valid_give_no_scan() {
    assert!(GridScan::new((1, 4), 1, 1).is_none());
    assert!(GridScan::new((4, 1), 1, 1).is_none());
    assert!(GridScan::new((4, 4), 0, 1).is_none());
    assert!(GridScan::new((4, 4), -2, 1).is_none());
    assert!(GridScan::new((4, 4), 1, 0).is_none());
    assert!(GridScan::new((4, 4), 1, -1).is_none());
    assert!(GridScan::new((4, 4), 1, 5).is_none());
    assert!(GridScan::new((4, 4), 1, 4).is_some());
    assert!(GridScan::new((i32::MAX, 4), 2, 1).is_none());
    assert!(GridScan::new((4, i32::MAX), 2, 1).is_none());
    assert!(GridScan::new((i32::MAX, i32::MAX), 1, 1).is_some());
}

#[test]
fn a_scan_is_row_major_and_ends_once() {
    let all = events(GridScan::new((3, 2), 1, 1).unwrap());
    let expected = vec![
        ScanEvent::RowStart { row: 0, progress: Progress::Milestone, snapshot: Some(0) },
        ScanEvent::Seed { x: 0, y: 0 },
        ScanEvent::Seed { x: 1, y: 0 },
        ScanEvent::Seed { x: 2, y: 0 },
        ScanEvent::RowStart { row: 1, progress: Progress::Silent, snapshot: None },
        ScanEvent::Seed { x: 0, y: 1 },
        ScanEvent::Seed { x: 1, y: 1 },
        ScanEvent::Seed { x: 2, y: 1 },
        ScanEvent::Finished,
    ];
    assert_eq!(all, expected);
}

#[test]
fn every_seed_of_the_supersampled_grid_is_visited_once() {
    let all = events(GridScan::new((5, 4), 3, 2).unwrap());
    let seeds: Vec<(i32, i32)> = all
        .iter()
        .filter_map(|e| match e {
            ScanEvent::Seed { x, y } => Some((*x, *y)),
            _ => None,
        })
        .collect();
    let mut expected = Vec::new();
    for y in 0..12 {
        for x in 0..15 {
            expected.push((x, y));
        }
    }
    assert_eq!(seeds, expected);
    assert_eq!(all.len(), 12 * 16 + 1);
    assert_eq!(all.last(), Some(&ScanEvent::Finished));
}

#[test]
fn snapshots_fall_on_band_boundaries_with_rising_indices() {
    let all = events(GridScan::new((2, 10), 1, 3).unwrap());
    let snapshots: Vec<(i32, i32)> = all
        .iter()
        .filter_map(|e| match e {
            ScanEvent::RowStart { row, snapshot: Some(index), .. } => Some((*row, *index)),
            _ => None,
        })
        .collect();
    // ten rows in three bands: a band is three rows high
    assert_eq!(snapshots, vec![(0, 0), (3, 1), (6, 2), (9, 3)]);
}

#[test]
fn snapshot_index_is_the_row_divided_by_the_band_height() {
    assert_eq!(snapshot_of(0, 2048), Some(0));
    assert_eq!(snapshot_of(2048, 2048), Some(1));
    assert_eq!(snapshot_of(30720, 2048), Some(15));
    assert_eq!(snapshot_of(2047, 2048), None);
    assert_eq!(snapshot_of(1, 2048), None);
    assert_eq!(snapshot_of(7, 1), Some(7));
}

#[test]
fn progress_is_reported_every_fourth_row_and_in_full_every_512th() {
    assert_eq!(progress_of(0), Progress::Milestone);
    assert_eq!(progress_of(512), Progress::Milestone);
    assert_eq!(progress_of(1024), Progress::Milestone);
    assert_eq!(progress_of(4), Progress::Tick);
    assert_eq!(progress_of(508), Progress::Tick);
    assert_eq!(progress_of(516), Progress::Tick);
    assert_eq!(progress_of(1), Progress::Silent);
    assert_eq!(progress_of(511), Progress::Silent);
    assert_eq!(progress_of(513), Progress::Silent);
}

#[test]
fn only_escaping_orbits_are_drawn() {
    assert!(INCLUDE_ESCAPING);
    assert!(!INCLUDE_NONESCAPING);
}
