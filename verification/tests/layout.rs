use doc_photos::layout::{plan_sheet, row_split, Grid, LayoutError, Orientation};

#[test]
fn six_over_a_four_column_grid_split_three_and_three() {
    assert_eq!(row_split(6, 4), vec![3, 3]);
}

#[test]
fn five_over_a_four_column_grid_put_the_fuller_row_first() {
    assert_eq!(row_split(5, 4), vec![3, 2]);
}

#[test]
fn a_full_grid_is_left_as_it_is() {
    assert_eq!(row_split(8, 4), vec![4, 4]);
    assert_eq!(row_split(7, 3), vec![3, 2, 2]);
}

#[test]
fn nothing_to_place_gives_no_rows() {
    assert!(row_split(0, 4).is_empty());
    assert!(row_split(4, 0).is_empty());
}

#[test]
fn the_larger_grid_wins_unless_locked() {
    let portrait = Grid { cols: 2, rows: 3 };
    let landscape = Grid { cols: 4, rows: 2 };
    let free = plan_sheet(6, portrait, landscape, false).unwrap();
    assert_eq!(free.orientation, Orientation::Landscape);
    assert_eq!(free.capacity_per_sheet, 8);
    let locked = plan_sheet(6, portrait, landscape, true).unwrap();
    assert_eq!(locked.orientation, Orientation::Portrait);
    assert_eq!(locked.grid, portrait);
    assert_eq!(locked.capacity_per_sheet, 6);
}

#[test]
fn ties_stay_portrait() {
    let g = Grid { cols: 2, rows: 2 };
    let plan = plan_sheet(1, g, Grid { cols: 4, rows: 1 }, false).unwrap();
    assert_eq!(plan.orientation, Orientation::Portrait);
}

#[test]
fn count_beyond_capacity_reports_extra_sheets() {
    let g = Grid { cols: 2, rows: 2 };
    let plan = plan_sheet(9, g, g, true).unwrap();
    assert_eq!(plan.on_first_sheet, 4);
    assert_eq!(plan.sheets_needed, 3);
    let exact = plan_sheet(8, g, g, true).unwrap();
    assert_eq!(exact.sheets_needed, 2);
    let none = plan_sheet(0, g, g, true).unwrap();
    assert_eq!((none.on_first_sheet, none.sheets_needed), (0, 0));
}

#[test]
fn a_grid_holding_nothing_means_the_photo_is_too_large() {
    let empty = Grid { cols: 0, rows: 3 };
    assert_eq!(plan_sheet(1, empty, empty, false), Err(LayoutError::PhotoTooLarge));
    assert_eq!(Grid { cols: 3, rows: 5 }.capacity(), 15);
}
