use conway_life::components::{CellState, Coordinate};
use conway_life::event::{
    key_board_input_handling, trigger_event_handler, update_event_handler, CellTriggerEvent,
    CellUpdateEvent,
};
use conway_life::resources::{Board, BoardOptions};
use conway_life::state::GameState;

fn make_board(width: usize, height: usize) -> Board {
    Board::new(&BoardOptions { map_size: (width, height), cell_size: 10 })
}

#[test]
fn trigger_toggles_current_state() {
    let mut board = make_board(4, 4);
    let coord = Coordinate { x: 1, y: 2 };
    let trigger = CellTriggerEvent(coord);

    let update = trigger_event_handler(&board, &GameState::INITIAL, &trigger);
    assert_eq!(update, Some(CellUpdateEvent { coord, state: CellState::ALIVE }));
    update_event_handler(&mut board, &vec![update.unwrap()]);
    assert!(board.is_alive(coord));

    // The second trigger reads the grid's current state, not a stale one.
    let update = trigger_event_handler(&board, &GameState::INITIAL, &trigger);
    assert_eq!(update, Some(CellUpdateEvent { coord, state: CellState::DEAD }));
}

#[test]
fn toggling_twice_returns_to_original_state() {
    let mut board = make_board(4, 4);
    let original = board.cell_map.map.clone();
    let coord = Coordinate { x: 3, y: 0 };
    let trigger = CellTriggerEvent(coord);

    for _ in 0..2 {
        let update = trigger_event_handler(&board, &GameState::INITIAL, &trigger).unwrap();
        update_event_handler(&mut board, &vec![update]);
    }
    assert_eq!(board.cell_map.map, original);
}

#[test]
fn trigger_is_not_processed_while_running() {
    let mut board = make_board(4, 4);
    let before = board.cell_map.map.clone();
    let trigger = CellTriggerEvent(Coordinate { x: 1, y: 1 });

    let update = trigger_event_handler(&board, &GameState::RUNNING, &trigger);
    assert_eq!(update, None);
    // No update event, hence no state change from a click while running.
    update_event_handler(&mut board, &Vec::new());
    assert_eq!(board.cell_map.map, before);
}

#[test]
fn out_of_range_trigger_selects_no_cell() {
    let board = make_board(4, 4);
    let trigger = CellTriggerEvent(Coordinate { x: 4, y: 0 });
    assert_eq!(trigger_event_handler(&board, &GameState::INITIAL, &trigger), None);
}

#[test]
fn applying_an_update_twice_equals_applying_it_once() {
    let mut once = make_board(4, 4);
    let mut twice = make_board(4, 4);
    let event = CellUpdateEvent { coord: Coordinate { x: 2, y: 3 }, state: CellState::ALIVE };

    update_event_handler(&mut once, &vec![event]);
    update_event_handler(&mut twice, &vec![event, event]);
    assert_eq!(once.cell_map.map, twice.cell_map.map);
}

#[test]
fn later_update_for_same_coordinate_wins() {
    let mut board = make_board(4, 4);
    let coord = Coordinate { x: 0, y: 0 };
    let events = vec![
        CellUpdateEvent { coord, state: CellState::ALIVE },
        CellUpdateEvent { coord, state: CellState::DEAD },
    ];
    update_event_handler(&mut board, &events);
    assert!(!board.is_alive(coord));
}

#[test]
fn run_state_starts_paused_and_toggles() {
    let mut state = GameState::default();
    assert_eq!(state, GameState::INITIAL);

    key_board_input_handling(&mut state, false);
    assert_eq!(state, GameState::INITIAL);

    key_board_input_handling(&mut state, true);
    assert_eq!(state, GameState::RUNNING);

    key_board_input_handling(&mut state, true);
    assert_eq!(state, GameState::INITIAL);
}
