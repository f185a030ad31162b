use dcss_bot::map::{Cell, MapState};

fn cell(x: Option<i32>, y: Option<i32>, g: Option<&str>) -> Cell {
    Cell { x, y, g: g.map(|s| s.to_string()) }
}

#[test]
fn empty_map_renders_fixed_line() {
    let map = MapState::new();
    assert_eq!(map.print_map(), "Map is empty\n");
}

#[test]
fn run_length_cells_continue_the_cursor() {
    // a cell with coordinates recenters the cursor; coordinate-less cells
    // advance it one slot at a time
    let mut map = MapState::new();
    let cells = vec![
        cell(Some(0), Some(0), Some("@")),
        cell(None, None, Some(".")),
        cell(None, None, Some(".")),
    ];
    map.update_map(&cells);
    assert_eq!(map.print_map(), "100,100 - 102,100\n@..\n");
}

#[test]
fn absolute_cells_recenter() {
    let mut map = MapState::new();
    let cells = vec![
        cell(Some(-1), Some(-1), Some("#")),
        cell(Some(1), Some(1), Some("$")),
    ];
    map.update_map(&cells);
    assert_eq!(map.print_map(), "99,99 - 101,101\n#  \n   \n  $\n");
}

#[test]
fn glyphless_cells_leave_slots_untouched() {
    let mut map = MapState::new();
    let cells = vec![
        cell(Some(0), Some(0), Some("@")),
        cell(None, None, None),
        cell(None, None, Some("!")),
    ];
    map.update_map(&cells);
    assert_eq!(map.print_map(), "100,100 - 102,100\n@ !\n");
}

#[test]
fn out_of_range_writes_are_dropped() {
    let mut map = MapState::new();
    let cells = vec![
        cell(Some(5000), Some(5000), Some("x")),
        cell(Some(0), Some(0), Some("@")),
    ];
    map.update_map(&cells);
    assert_eq!(map.print_map(), "100,100 - 100,100\n@\n");
}

#[test]
fn later_batches_overwrite() {
    let mut map = MapState::new();
    map.update_map(&vec![cell(Some(0), Some(0), Some("@"))]);
    map.update_map(&vec![cell(Some(0), Some(0), Some("."))]);
    assert_eq!(map.print_map(), "100,100 - 100,100\n.\n");
}
