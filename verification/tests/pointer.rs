use conway_life::components::Coordinate;
use conway_life::event::{mouse_input_handling, CellTriggerEvent};
use conway_life::resources::{Board, BoardOptions, Bounds};

fn default_board() -> Board {
    // Origin (-400, -400), size (800, 800), cell size 10.
    Board::new(&BoardOptions::default())
}

#[test]
fn bounds_in_bounds_is_inclusive() {
    let bounds = Bounds { position: (-400, -400), size: (800, 800) };
    assert!(bounds.in_bounds((-400, -400)));
    assert!(bounds.in_bounds((400, 400)));
    assert!(bounds.in_bounds((0, 0)));
    assert!(!bounds.in_bounds((-401, 0)));
    assert!(!bounds.in_bounds((0, 401)));
}

#[test]
fn pointer_maps_to_cell_40_40() {
    let board = default_board();
    // Device pixel (400, 400) on an 800 x 800 viewport: Y-flip gives 400,
    // centering gives (0, 0), which is 400 pixels from the board origin on
    // each axis, i.e. cell (40, 40). Exact arithmetic, no rounding.
    let coord = board.mouse_position((800, 800), (400, 400));
    assert_eq!(coord, Some(Coordinate { x: 40, y: 40 }));
}

#[test]
fn pointer_y_axis_is_flipped() {
    let board = default_board();
    // The bottom-left device pixel is the first cell.
    assert_eq!(board.mouse_position((800, 800), (0, 800)), Some(Coordinate { x: 0, y: 0 }));
    // One pixel inside the top-right corner is the last cell.
    assert_eq!(board.mouse_position((800, 800), (799, 1)), Some(Coordinate { x: 79, y: 79 }));
}

#[test]
fn pointer_on_far_edge_selects_no_cell() {
    let board = default_board();
    // The top-left device pixel flips to board point (-400, 400): on the
    // bounding rectangle, but past the last row of cells.
    assert_eq!(board.mouse_position((800, 800), (0, 0)), None);
    assert_eq!(board.mouse_position((800, 800), (800, 800)), None);
}

#[test]
fn pointer_outside_bounds_selects_no_cell() {
    let board = default_board();
    // On a 1000 x 1000 viewport the board covers the middle 800 x 800.
    assert_eq!(board.mouse_position((1000, 1000), (50, 500)), None);
    assert_eq!(board.mouse_position((1000, 1000), (500, 50)), None);
    assert_eq!(board.mouse_position((1000, 1000), (500, 150)), Some(Coordinate { x: 40, y: 75 }));
}

#[test]
fn mouse_input_requires_left_press() {
    let board = default_board();
    let trigger = mouse_input_handling(&board, (800, 800), Some((400, 400)), false);
    assert_eq!(trigger, None);
}

#[test]
fn mouse_input_without_cursor_is_dropped() {
    let board = default_board();
    let trigger = mouse_input_handling(&board, (800, 800), None, true);
    assert_eq!(trigger, None);
}

#[test]
fn mouse_input_resolves_to_trigger() {
    let board = default_board();
    let trigger = mouse_input_handling(&board, (800, 800), Some((400, 400)), true);
    assert_eq!(trigger, Some(CellTriggerEvent(Coordinate { x: 40, y: 40 })));
}

#[test]
fn mouse_input_outside_board_is_dropped() {
    let board = default_board();
    let trigger = mouse_input_handling(&board, (1000, 1000), Some((50, 500)), true);
    assert_eq!(trigger, None);
}
