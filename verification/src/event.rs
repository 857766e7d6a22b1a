//! The event-driven update protocol: trigger events (a user toggled a
//! coordinate), update events (a coordinate's state changed), the evolution
//! rule engine that emits them in bulk, and the handlers that gate and apply
//! them.
//!
//! Within one tick either a trigger is resolved (while paused) or one full
//! evolution pass runs (while running), never both: the run state enforces
//! that mutual exclusion.

use vstd::prelude::*;

use crate::components::{flip, CellState, Coordinate};
use crate::resources::{
    all_dead, cell_at, grid_height, grid_wf, grid_width, in_grid, live_at, live_neighbor_count,
    set_at, Board, LifeTimer,
};
use crate::state::GameState;

verus! {

/// A user toggled the cell at this coordinate.
#[derive(Debug, Clone, Copy, PartialEq, Eq, Structural)]
pub struct CellTriggerEvent(pub Coordinate);

/// The cell at `coord` changed to `state`; the change must be applied to the
/// grid and surfaced to the rendering collaborator.
#[derive(Debug, Clone, Copy, PartialEq, Eq, Structural)]
pub struct CellUpdateEvent {
    pub coord: Coordinate,
    pub state: CellState,
}

/// The update event a trigger at `c` resolves to: the cell flips to the
/// opposite of its current state.
pub open spec fn toggle_event(g: Seq<Seq<CellState>>, c: Coordinate) -> CellUpdateEvent {
    CellUpdateEvent { coord: c, state: flip(cell_at(g, c.x as int, c.y as int)) }
}

/// The survival/birth rule, read against the old generation: a live cell
/// with a live-neighbor count other than 2 or 3 dies; a dead cell with
/// exactly 3 live neighbors is born; otherwise nothing changes and no event
/// is emitted.
pub open spec fn event_for(g: Seq<Seq<CellState>>, x: int, y: int) -> Option<CellUpdateEvent> {
    let alive = live_at(g, x, y);
    let n = live_neighbor_count(g, x, y);
    if alive && !(n == 2 || n == 3) {
        Some(
            CellUpdateEvent {
                coord: Coordinate { x: x as usize, y: y as usize },
                state: CellState::DEAD,
            },
        )
    } else if !alive && n == 3 {
        Some(
            CellUpdateEvent {
                coord: Coordinate { x: x as usize, y: y as usize },
                state: CellState::ALIVE,
            },
        )
    } else {
        None
    }
}

/// The change record of one cell as a (possibly empty) event sequence.
pub open spec fn event_seq(e: Option<CellUpdateEvent>) -> Seq<CellUpdateEvent> {
    match e {
        Some(ev) => seq![ev],
        None => Seq::empty(),
    }
}

/// The update events of row `y` for the first `n` columns, in column order.
pub open spec fn row_events(g: Seq<Seq<CellState>>, y: int, n: int) -> Seq<CellUpdateEvent>
    decreases n,
{
    if n <= 0 {
        Seq::empty()
    } else {
        row_events(g, y, n - 1) + event_seq(event_for(g, n - 1, y))
    }
}

/// The update events of the first `m` rows, row by row.
pub open spec fn step_events_upto(g: Seq<Seq<CellState>>, m: int) -> Seq<CellUpdateEvent>
    decreases m,
{
    if m <= 0 {
        Seq::empty()
    } else {
        step_events_upto(g, m - 1) + row_events(g, m - 1, grid_width(g))
    }
}

/// One full evolution pass over the grid: exactly the coordinates whose
/// classification changes, in row-major order, each paired with its new
/// state. The grid itself is not mutated during evaluation.
pub open spec fn step_events(g: Seq<Seq<CellState>>) -> Seq<CellUpdateEvent> {
    step_events_upto(g, grid_height(g))
}

/// The grid after one update event is applied.
pub open spec fn apply_update(g: Seq<Seq<CellState>>, e: CellUpdateEvent) -> Seq<
    Seq<CellState>,
> {
    set_at(g, e.coord.x as int, e.coord.y as int, e.state)
}

/// The grid after a sequence of update events is applied in emission order;
/// when two events target the same coordinate the later one wins.
pub open spec fn apply_updates(g: Seq<Seq<CellState>>, events: Seq<CellUpdateEvent>) -> Seq<
    Seq<CellState>,
>
    decreases events.len(),
{
    if events.len() == 0 {
        g
    } else {
        apply_update(apply_updates(g, events.drop_last()), events.last())
    }
}

/// One full evolution pass of the rule engine: for every cell of the board,
/// classify it against the old generation and collect an update event for
/// exactly the cells whose state must flip. The board is only read, never
/// mutated, so every classification sees pre-step state.
pub fn evolve(board: &Board) -> (events: Vec<CellUpdateEvent>)
    requires
        board.wf(),
    ensures
        events@ == step_events(board.grid()),
{
    let ghost g = board.grid();
    let width = board.cell_map.width();
    let height = board.cell_map.height();
    let mut events: Vec<CellUpdateEvent> = Vec::new();
    let mut y: usize = 0;
    while y < height
        invariant
            board.wf(),
            g == board.grid(),
            width == grid_width(g),
            height == grid_height(g),
            y <= height,
            events@ == step_events_upto(g, y as int),
        decreases height - y,
    {
        let mut x: usize = 0;
        while x < width
            invariant
                board.wf(),
                g == board.grid(),
                width == grid_width(g),
                height == grid_height(g),
                y < height,
                x <= width,
                events@ == step_events_upto(g, y as int) + row_events(g, y as int, x as int),
            decreases width - x,
        {
            let coord = Coordinate { x, y };
            let n = board.count_neighbors(coord);
            let alive = board.is_alive(coord);
            if alive && !(n == 2 || n == 3) {
                events.push(CellUpdateEvent { coord, state: CellState::DEAD });
            } else if !alive && n == 3 {
                events.push(CellUpdateEvent { coord, state: CellState::ALIVE });
            }
            proof {
                assert(row_events(g, y as int, x as int + 1) == row_events(g, y as int, x as int)
                    + event_seq(event_for(g, x as int, y as int)));
                assert(events@ == step_events_upto(g, y as int) + row_events(
                    g,
                    y as int,
                    x as int + 1,
                ));
            }
            x = x + 1;
        }
        proof {
            assert(step_events_upto(g, y as int + 1) == step_events_upto(g, y as int)
                + row_events(g, y as int, grid_width(g)));
        }
        y = y + 1;
    }
    events
}

/// The trigger a left click resolves to. A press with no known cursor
/// position is a no-op, and so is a press outside the board or any input
/// without a press.
pub open spec fn spec_trigger_for(
    board: &Board,
    window_size: (i64, i64),
    cursor: (i64, i64),
) -> Option<CellTriggerEvent> {
    match board.spec_mouse_position(
        window_size.0 as int,
        window_size.1 as int,
        cursor.0 as int,
        cursor.1 as int,
    ) {
        Some(c) => Some(CellTriggerEvent(c)),
        None => None,
    }
}

/// Resolve pointer input to a trigger event: on a left press with a known
/// cursor position, map the position through the board's pointer mapping;
/// everything else is dropped.
pub fn mouse_input_handling(
    board: &Board,
    window_size: (i64, i64),
    cursor: Option<(i64, i64)>,
    left_pressed: bool,
) -> (trigger: Option<CellTriggerEvent>)
    requires
        board.wf(),
        0 <= window_size.0,
        0 <= window_size.1,
        cursor matches Some(p) ==> 0 <= p.0 <= window_size.0 && 0 <= p.1 <= window_size.1,
    ensures
        !left_pressed ==> trigger is None,
        cursor is None ==> trigger is None,
        left_pressed ==> (cursor matches Some(p) ==> trigger == spec_trigger_for(
            board,
            window_size,
            p,
        )),
        trigger matches Some(t) ==> in_grid(board.grid(), t.0.x as int, t.0.y as int),
{
    if !left_pressed {
        return None;
    }
    match cursor {
        None => None,
        Some(p) => match board.mouse_position(window_size, p) {
            Some(c) => Some(CellTriggerEvent(c)),
            None => None,
        },
    }
}

/// Resolve a trigger event against the grid's current state: while paused,
/// an in-range trigger becomes an update event that flips the cell; while
/// running, triggers are not processed — manual toggles and bulk evolution
/// are mutually exclusive — and an out-of-range trigger selects no cell.
pub fn trigger_event_handler(
    board: &Board,
    state: &GameState,
    trigger: &CellTriggerEvent,
) -> (update: Option<CellUpdateEvent>)
    requires
        board.wf(),
    ensures
        *state == GameState::RUNNING ==> update is None,
        *state != GameState::RUNNING && in_grid(board.grid(), trigger.0.x as int, trigger.0.y as int)
            ==> update == Some(toggle_event(board.grid(), trigger.0)),
        *state != GameState::RUNNING && !in_grid(
            board.grid(),
            trigger.0.x as int,
            trigger.0.y as int,
        ) ==> update is None,
{
    if *state == GameState::RUNNING {
        return None;
    }
    if !board.coord_available(trigger.0) {
        return None;
    }
    let new_state = if board.is_alive(trigger.0) {
        CellState::DEAD
    } else {
        CellState::ALIVE
    };
    Some(CellUpdateEvent { coord: trigger.0, state: new_state })
}

/// Run the rule engine once per elapsed timer interval, only while running.
/// While paused the engine never fires, however much time has elapsed, and
/// the timer does not advance. While running the timer accumulates the
/// frame delta and, when it fires, one full evolution pass is emitted.
pub fn update_life(
    board: &Board,
    life_timer: &mut LifeTimer,
    state: &GameState,
    delta_ms: u64,
) -> (events: Vec<CellUpdateEvent>)
    requires
        board.wf(),
        old(life_timer).wf(),
    ensures
        final(life_timer).wf(),
        final(life_timer).interval_ms == old(life_timer).interval_ms,
        *state != GameState::RUNNING ==> *final(life_timer) == *old(life_timer) && events@
            == Seq::<CellUpdateEvent>::empty(),
        *state == GameState::RUNNING && old(life_timer).elapsed_ms + delta_ms >= old(
            life_timer,
        ).interval_ms ==> final(life_timer).elapsed_ms == 0 && events@ == step_events(
            board.grid(),
        ),
        *state == GameState::RUNNING && old(life_timer).elapsed_ms + delta_ms < old(
            life_timer,
        ).interval_ms ==> final(life_timer).elapsed_ms == old(life_timer).elapsed_ms + delta_ms
            && events@ == Seq::<CellUpdateEvent>::empty(),
{
    if *state == GameState::RUNNING {
        if life_timer.tick(delta_ms) {
            evolve(board)
        } else {
            Vec::new()
        }
    } else {
        Vec::new()
    }
}

/// Apply a tick's update events to the grid in emission order; the caller
/// then surfaces each event to the rendering collaborator. Applying the
/// same event again would leave the grid unchanged, and of two events for
/// one coordinate the later one wins.
pub fn update_event_handler(board: &mut Board, events: &Vec<CellUpdateEvent>)
    requires
        old(board).wf(),
        forall|i: int|
            0 <= i < events@.len() ==> in_grid(
                old(board).grid(),
                (#[trigger] events@[i]).coord.x as int,
                events@[i].coord.y as int,
            ),
    ensures
        final(board).wf(),
        final(board).grid() == apply_updates(old(board).grid(), events@),
        final(board).bounds == old(board).bounds,
        final(board).cell_size == old(board).cell_size,
{
    let ghost g0 = old(board).grid();
    let n = events.len();
    let mut i: usize = 0;
    while i < n
        invariant
            board.wf(),
            n == events@.len(),
            i <= n,
            forall|j: int|
                0 <= j < events@.len() ==> in_grid(
                    g0,
                    (#[trigger] events@[j]).coord.x as int,
                    events@[j].coord.y as int,
                ),
            grid_width(board.grid()) == grid_width(g0),
            grid_height(board.grid()) == grid_height(g0),
            board.grid() == apply_updates(g0, events@.take(i as int)),
            board.bounds == old(board).bounds,
            board.cell_size == old(board).cell_size,
        decreases n - i,
    {
        let ev = events[i];
        board.set_cell(ev.coord, ev.state);
        proof {
            let taken = events@.take(i as int + 1);
            assert(taken.drop_last() =~= events@.take(i as int));
            assert(taken.last() == ev);
            assert(board.grid() == apply_updates(g0, taken));
        }
        i = i + 1;
    }
    proof {
        assert(events@.take(n as int) =~= events@);
    }
}

/// Flip the run state on the toggle command (and only then): paused becomes
/// running and running becomes paused.
pub fn key_board_input_handling(state: &mut GameState, toggle_pressed: bool)
    ensures
        toggle_pressed ==> *final(state) == crate::state::toggled(*old(state)),
        !toggle_pressed ==> *final(state) == *old(state),
{
    if toggle_pressed {
        *state = match *state {
            GameState::INITIAL => GameState::RUNNING,
            GameState::RUNNING => GameState::INITIAL,
        };
    }
}

/// The state carried by the last event of the sequence that targets `c`, if
/// any does.
pub open spec fn last_update_for(events: Seq<CellUpdateEvent>, c: Coordinate) -> Option<CellState>
    decreases events.len(),
{
    if events.len() == 0 {
        None
    } else if events.last().coord == c {
        Some(events.last().state)
    } else {
        last_update_for(events.drop_last(), c)
    }
}

/// Applying in-range update events keeps the grid well-formed and its
/// dimensions fixed: the grid is always in a valid, fully-defined state
/// between ticks.
pub proof fn lemma_apply_updates_wf(g: Seq<Seq<CellState>>, events: Seq<CellUpdateEvent>)
    requires
        grid_wf(g),
        forall|i: int|
            0 <= i < events.len() ==> in_grid(
                g,
                (#[trigger] events[i]).coord.x as int,
                events[i].coord.y as int,
            ),
    ensures
        grid_wf(apply_updates(g, events)),
        grid_width(apply_updates(g, events)) == grid_width(g),
        grid_height(apply_updates(g, events)) == grid_height(g),
    decreases events.len(),
{
    if events.len() == 0 {
    } else {
        let rest = events.drop_last();
        let e = events.last();
        lemma_apply_updates_wf(g, rest);
        let g1 = apply_updates(g, rest);
        let x = e.coord.x as int;
        let y = e.coord.y as int;
        assert(g1[y].len() == grid_width(g1));
        let g2 = apply_update(g1, e);
        assert forall|i: int| 0 <= i < g2.len() implies (#[trigger] g2[i]).len()
            == g2[0].len() by {
            assert(g1[i].len() == g1[0].len());
        }
    }
}

/// Last-write-wins: after a tick's events are applied in emission order,
/// each cell holds the state of the last event that targeted it, and a cell
/// no event targeted keeps its old state.
pub proof fn lemma_last_write_wins(
    g: Seq<Seq<CellState>>,
    events: Seq<CellUpdateEvent>,
    c: Coordinate,
)
    requires
        grid_wf(g),
        forall|i: int|
            0 <= i < events.len() ==> in_grid(
                g,
                (#[trigger] events[i]).coord.x as int,
                events[i].coord.y as int,
            ),
        in_grid(g, c.x as int, c.y as int),
    ensures
        cell_at(apply_updates(g, events), c.x as int, c.y as int) == match last_update_for(
            events,
            c,
        ) {
            Some(s) => s,
            None => cell_at(g, c.x as int, c.y as int),
        },
    decreases events.len(),
{
    if events.len() == 0 {
    } else {
        let rest = events.drop_last();
        let e = events.last();
        lemma_last_write_wins(g, rest, c);
        lemma_apply_updates_wf(g, rest);
        let g1 = apply_updates(g, rest);
        assert(g1[e.coord.y as int].len() == grid_width(g1));
        assert(g1[c.y as int].len() == grid_width(g1));
    }
}

/// Rows whose cells all keep their classification contribute no events.
proof fn lemma_row_events_empty(g: Seq<Seq<CellState>>, y: int, n: int)
    requires
        forall|x: int| 0 <= x < n ==> (#[trigger] event_for(g, x, y)) is None,
    ensures
        row_events(g, y, n) == Seq::<CellUpdateEvent>::empty(),
    decreases n,
{
    if n <= 0 {
    } else {
        lemma_row_events_empty(g, y, n - 1);
        assert(row_events(g, y, n) =~= Seq::<CellUpdateEvent>::empty());
    }
}

/// A grid in which no cell changes classification emits no events at all.
proof fn lemma_step_events_upto_empty(g: Seq<Seq<CellState>>, m: int)
    requires
        forall|x: int, y: int|
            0 <= x < grid_width(g) && 0 <= y < m ==> (#[trigger] event_for(g, x, y)) is None,
    ensures
        step_events_upto(g, m) == Seq::<CellUpdateEvent>::empty(),
    decreases m,
{
    if m <= 0 {
    } else {
        lemma_step_events_upto_empty(g, m - 1);
        lemma_row_events_empty(g, m - 1, grid_width(g));
        assert(step_events_upto(g, m) =~= Seq::<CellUpdateEvent>::empty());
    }
}

/// Every event of a row's pass lies in that row, in range, and differs from
/// the cell's current state.
proof fn lemma_row_events_change_state(g: Seq<Seq<CellState>>, y: int, n: int)
    requires
        grid_wf(g),
        0 <= y < grid_height(g),
        n <= grid_width(g),
        grid_width(g) <= usize::MAX,
        grid_height(g) <= usize::MAX,
    ensures
        forall|i: int|
            0 <= i < row_events(g, y, n).len() ==> {
                let e = #[trigger] row_events(g, y, n)[i];
                &&& in_grid(g, e.coord.x as int, e.coord.y as int)
                &&& e.coord.y == y
                &&& cell_at(g, e.coord.x as int, e.coord.y as int) != e.state
            },
    decreases n,
{
    if n <= 0 {
    } else {
        lemma_row_events_change_state(g, y, n - 1);
    }
}

/// Every event of the first `m` rows' passes is in range and differs from
/// the cell's current state.
proof fn lemma_step_events_upto_change_state(g: Seq<Seq<CellState>>, m: int)
    requires
        grid_wf(g),
        m <= grid_height(g),
        grid_width(g) <= usize::MAX,
        grid_height(g) <= usize::MAX,
    ensures
        forall|i: int|
            0 <= i < step_events_upto(g, m).len() ==> {
                let e = #[trigger] step_events_upto(g, m)[i];
                &&& in_grid(g, e.coord.x as int, e.coord.y as int)
                &&& cell_at(g, e.coord.x as int, e.coord.y as int) != e.state
            },
    decreases m,
{
    if m <= 0 {
    } else {
        lemma_step_events_upto_change_state(g, m - 1);
        lemma_row_events_change_state(g, m - 1, grid_width(g));
    }
}

/// An evolution pass emits no redundant event: every emitted update targets
/// an in-range coordinate and carries a state different from the one the
/// cell currently has.
pub proof fn lemma_step_events_change_state(g: Seq<Seq<CellState>>)
    requires
        grid_wf(g),
        grid_width(g) <= usize::MAX,
        grid_height(g) <= usize::MAX,
    ensures
        forall|i: int|
            0 <= i < step_events(g).len() ==> {
                let e = #[trigger] step_events(g)[i];
                &&& in_grid(g, e.coord.x as int, e.coord.y as int)
                &&& cell_at(g, e.coord.x as int, e.coord.y as int) != e.state
            },
{
    lemma_step_events_upto_change_state(g, grid_height(g));
}

/// Idempotence: applying the same update event twice leaves the grid in the
/// same state as applying it once.
pub proof fn lemma_update_idempotent(g: Seq<Seq<CellState>>, e: CellUpdateEvent)
    requires
        grid_wf(g),
        in_grid(g, e.coord.x as int, e.coord.y as int),
    ensures
        apply_update(apply_update(g, e), e) == apply_update(g, e),
{
    let x = e.coord.x as int;
    let y = e.coord.y as int;
    let g1 = apply_update(g, e);
    assert(g[y].len() == grid_width(g));
    assert(g1[y] == g[y].update(x, e.state));
    assert(g1[y].update(x, e.state) =~= g1[y]);
    assert(apply_update(g1, e) =~~= g1);
}

/// Round-trip: toggling a cell twice via triggers returns the grid to its
/// original state — the first toggle flips the cell, the second, resolved
/// against the grid's then-current state, flips it back.
pub proof fn lemma_toggle_round_trip(g: Seq<Seq<CellState>>, c: Coordinate)
    requires
        grid_wf(g),
        in_grid(g, c.x as int, c.y as int),
    ensures
        ({
            let g1 = apply_update(g, toggle_event(g, c));
            apply_update(g1, toggle_event(g1, c)) == g
        }),
{
    let x = c.x as int;
    let y = c.y as int;
    let g1 = apply_update(g, toggle_event(g, c));
    assert(cell_at(g1, x, y) == flip(cell_at(g, x, y)));
    assert(apply_update(g1, toggle_event(g1, c)) =~~= g);
}

/// Stasis: an all-dead grid emits no update events, so one evolution step —
/// and hence any number of them — leaves it all dead and unchanged.
pub proof fn lemma_stasis(g: Seq<Seq<CellState>>)
    requires
        grid_wf(g),
        all_dead(g),
    ensures
        step_events(g) == Seq::<CellUpdateEvent>::empty(),
        apply_updates(g, step_events(g)) == g,
        all_dead(apply_updates(g, step_events(g))),
{
    assert forall|x: int, y: int|
        0 <= x < grid_width(g) && 0 <= y < grid_height(g) implies (#[trigger] event_for(
        g,
        x,
        y,
    )) is None by {
        assert(!live_at(g, x, y));
        assert(!live_at(g, x - 1, y - 1));
        assert(!live_at(g, x, y - 1));
        assert(!live_at(g, x + 1, y - 1));
        assert(!live_at(g, x - 1, y));
        assert(!live_at(g, x + 1, y));
        assert(!live_at(g, x - 1, y + 1));
        assert(!live_at(g, x, y + 1));
        assert(!live_at(g, x + 1, y + 1));
    }
    lemma_step_events_upto_empty(g, grid_height(g));
}

/// The grid whose only live cells form a 2 x 2 block with corner `(bx, by)`.
pub open spec fn block_grid(w: int, h: int, bx: int, by: int) -> Seq<Seq<CellState>> {
    Seq::new(
        h as nat,
        |y: int|
            Seq::new(
                w as nat,
                |x: int|
                    if bx <= x <= bx + 1 && by <= y <= by + 1 {
                        CellState::ALIVE
                    } else {
                        CellState::DEAD
                    },
            ),
    )
}

/// Block stability: a 2 x 2 fully-alive block in the interior of a grid of
/// at least 4 x 4 cells is a still life — every block cell has exactly 3
/// live neighbors and no dead cell reaches 3, so one evolution step emits
/// no events and leaves the grid unchanged.
pub proof fn lemma_block_stable(w: int, h: int, bx: int, by: int)
    requires
        4 <= w,
        4 <= h,
        1 <= bx <= w - 3,
        1 <= by <= h - 3,
    ensures
        step_events(block_grid(w, h, bx, by)) == Seq::<CellUpdateEvent>::empty(),
        apply_updates(block_grid(w, h, bx, by), step_events(block_grid(w, h, bx, by)))
            == block_grid(w, h, bx, by),
{
    let g = block_grid(w, h, bx, by);
    assert(grid_width(g) == w);
    assert(grid_height(g) == h);
    assert forall|x: int, y: int|
        0 <= x < grid_width(g) && 0 <= y < grid_height(g) implies (#[trigger] event_for(
        g,
        x,
        y,
    )) is None by {
        assert(live_at(g, x, y) == (bx <= x <= bx + 1 && by <= y <= by + 1));
        assert(live_at(g, x - 1, y - 1) == (bx <= x - 1 <= bx + 1 && by <= y - 1 <= by + 1));
        assert(live_at(g, x, y - 1) == (bx <= x <= bx + 1 && by <= y - 1 <= by + 1));
        assert(live_at(g, x + 1, y - 1) == (bx <= x + 1 <= bx + 1 && by <= y - 1 <= by + 1));
        assert(live_at(g, x - 1, y) == (bx <= x - 1 <= bx + 1 && by <= y <= by + 1));
        assert(live_at(g, x + 1, y) == (bx <= x + 1 <= bx + 1 && by <= y <= by + 1));
        assert(live_at(g, x - 1, y + 1) == (bx <= x - 1 <= bx + 1 && by <= y + 1 <= by + 1));
        assert(live_at(g, x, y + 1) == (bx <= x <= bx + 1 && by <= y + 1 <= by + 1));
        assert(live_at(g, x + 1, y + 1) == (bx <= x + 1 <= bx + 1 && by <= y + 1 <= by + 1));
    }
    lemma_step_events_upto_empty(g, grid_height(g));
}

} // verus!
