use conway_life::components::{CellState, Coordinate};
use conway_life::resources::{Board, BoardOptions, CellMap};

fn make_board(width: usize, height: usize) -> Board {
    Board::new(&BoardOptions { map_size: (width, height), cell_size: 10 })
}

fn set(board: &mut Board, x: usize, y: usize, state: CellState) {
    assert!(board.coord_available(Coordinate { x, y }));
    board.set_cell(Coordinate { x, y }, state);
}

#[test]
fn empty_map_is_all_dead() {
    let map = CellMap::empty(3, 4);
    assert_eq!(map.map.len(), 4);
    for row in &map.map {
        assert_eq!(row.len(), 3);
        for cell in row {
            assert_eq!(*cell, CellState::DEAD);
        }
    }
}

#[test]
fn board_new_centers_bounds() {
    let board = Board::new(&BoardOptions::default());
    assert_eq!(board.bounds.position, (-400, -400));
    assert_eq!(board.bounds.size, (800, 800));
    assert_eq!(board.cell_size, 10);
    assert_eq!(board.cell_map.map.len(), 80);
    assert_eq!(board.cell_map.map[0].len(), 80);
}

#[test]
fn board_options_default_values() {
    let options = BoardOptions::default();
    assert_eq!(options.map_size, (80, 80));
    assert_eq!(options.cell_size, 10);
}

#[test]
fn coord_available_checks_both_axes() {
    let board = make_board(3, 5);
    assert!(board.coord_available(Coordinate { x: 0, y: 0 }));
    assert!(board.coord_available(Coordinate { x: 2, y: 4 }));
    assert!(!board.coord_available(Coordinate { x: 3, y: 0 }));
    assert!(!board.coord_available(Coordinate { x: 0, y: 5 }));
}

#[test]
fn set_cell_and_is_alive() {
    let mut board = make_board(4, 4);
    assert!(!board.is_alive(Coordinate { x: 2, y: 1 }));
    set(&mut board, 2, 1, CellState::ALIVE);
    assert!(board.is_alive(Coordinate { x: 2, y: 1 }));
    assert!(!board.is_alive(Coordinate { x: 1, y: 2 }));
    set(&mut board, 2, 1, CellState::DEAD);
    assert!(!board.is_alive(Coordinate { x: 2, y: 1 }));
}

#[test]
fn count_neighbors_full_grid() {
    let mut board = make_board(3, 3);
    for x in 0..3 {
        for y in 0..3 {
            set(&mut board, x, y, CellState::ALIVE);
        }
    }
    assert_eq!(board.count_neighbors(Coordinate { x: 1, y: 1 }), 8);
    assert_eq!(board.count_neighbors(Coordinate { x: 0, y: 0 }), 3);
    assert_eq!(board.count_neighbors(Coordinate { x: 1, y: 0 }), 5);
    assert_eq!(board.count_neighbors(Coordinate { x: 2, y: 2 }), 3);
}

#[test]
fn count_neighbors_never_counts_self() {
    let mut board = make_board(3, 3);
    for x in 0..3 {
        for y in 0..3 {
            set(&mut board, x, y, CellState::ALIVE);
        }
    }
    let center = Coordinate { x: 1, y: 1 };
    let with_self_alive = board.count_neighbors(center);
    set(&mut board, 1, 1, CellState::DEAD);
    let with_self_dead = board.count_neighbors(center);
    assert_eq!(with_self_alive, 8);
    assert_eq!(with_self_dead, 8);
}

#[test]
fn count_neighbors_at_origin_sees_only_three_cells() {
    let mut board = make_board(4, 4);
    set(&mut board, 0, 0, CellState::ALIVE);
    set(&mut board, 1, 0, CellState::ALIVE);
    set(&mut board, 0, 1, CellState::ALIVE);
    set(&mut board, 1, 1, CellState::ALIVE);
    // Even with the whole corner alive, (0, 0) has only its 3 on-grid
    // neighbors; the underflowing offsets never wrap to large indices.
    assert_eq!(board.count_neighbors(Coordinate { x: 0, y: 0 }), 3);
}

#[test]
fn count_neighbors_out_of_range_position_counts_border() {
    let mut board = make_board(3, 3);
    set(&mut board, 2, 2, CellState::ALIVE);
    // A position just off the grid still counts its in-range neighbors and
    // must not crash.
    assert_eq!(board.count_neighbors(Coordinate { x: 3, y: 2 }), 1);
    assert_eq!(board.count_neighbors(Coordinate { x: 3, y: 3 }), 1);
    assert_eq!(board.count_neighbors(Coordinate { x: 5, y: 5 }), 0);
}

#[test]
fn coordinate_add_sums_components() {
    let a = Coordinate { x: 3, y: 7 };
    let b = Coordinate { x: 10, y: 1 };
    let c = a.add(b);
    assert_eq!(c, Coordinate { x: 13, y: 8 });
}

#[test]
fn coordinate_sub_saturates_at_zero() {
    let a = Coordinate { x: 3, y: 7 };
    let b = Coordinate { x: 10, y: 1 };
    assert_eq!(a.sub(b), Coordinate { x: 0, y: 6 });
    assert_eq!(b.sub(a), Coordinate { x: 7, y: 0 });
}

#[test]
fn coordinate_offset_clamps_instead_of_wrapping() {
    let origin = Coordinate { x: 0, y: 0 };
    assert_eq!(origin.offset(-1, -1), Coordinate { x: 0, y: 0 });
    assert_eq!(origin.offset(1, 1), Coordinate { x: 1, y: 1 });
    assert_eq!(origin.offset(0, -1), Coordinate { x: 0, y: 0 });
    let far = Coordinate { x: usize::MAX, y: 2 };
    assert_eq!(far.offset(1, -1), Coordinate { x: usize::MAX, y: 1 });
}
