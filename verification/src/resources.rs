//! Grid storage, board placement, pointer mapping, neighbor counting and the
//! evolution timer.
//!
//! All spatial placement values (board origin, board extent, cell edge
//! length, pointer positions) are integer pixel units.

use vstd::prelude::*;

use crate::components::{CellState, Coordinate};

verus! {

/// A well-formed grid: at least one row, at least one column, and every row
/// of the same length.
pub open spec fn grid_wf(g: Seq<Seq<CellState>>) -> bool {
    &&& g.len() >= 1
    &&& g[0].len() >= 1
    &&& forall|y: int| 0 <= y < g.len() ==> (#[trigger] g[y]).len() == g[0].len()
}

/// Number of columns of a grid.
pub open spec fn grid_width(g: Seq<Seq<CellState>>) -> int {
    g[0].len() as int
}

/// Number of rows of a grid.
pub open spec fn grid_height(g: Seq<Seq<CellState>>) -> int {
    g.len() as int
}

/// Whether `(x, y)` indexes a cell of the grid.
pub open spec fn in_grid(g: Seq<Seq<CellState>>, x: int, y: int) -> bool {
    0 <= x < grid_width(g) && 0 <= y < grid_height(g)
}

/// The cell stored at `(x, y)`.
pub open spec fn cell_at(g: Seq<Seq<CellState>>, x: int, y: int) -> CellState {
    g[y][x]
}

/// Whether `(x, y)` is in range and holds a live cell.
pub open spec fn live_at(g: Seq<Seq<CellState>>, x: int, y: int) -> bool {
    in_grid(g, x, y) && cell_at(g, x, y) == CellState::ALIVE
}

/// The grid with the cell at `(x, y)` replaced by `s`.
pub open spec fn set_at(g: Seq<Seq<CellState>>, x: int, y: int, s: CellState) -> Seq<
    Seq<CellState>,
> {
    g.update(y, g[y].update(x, s))
}

/// Whether every cell of the grid is dead.
pub open spec fn all_dead(g: Seq<Seq<CellState>>) -> bool {
    forall|x: int, y: int| in_grid(g, x, y) ==> #[trigger] cell_at(g, x, y) == CellState::DEAD
}

/// A `height x width` grid with every cell dead.
pub open spec fn empty_grid(width: int, height: int) -> Seq<Seq<CellState>> {
    Seq::new(height as nat, |y: int| Seq::new(width as nat, |x: int| CellState::DEAD))
}

/// 1 if the condition holds, 0 otherwise.
pub open spec fn one_if(b: bool) -> int {
    if b {
        1
    } else {
        0
    }
}

/// Number of live cells among the at most 8 distinct in-range neighbors of
/// `(x, y)` under 8-connectivity. An offset whose target falls outside the
/// grid contributes nothing, and `(x, y)` itself is never an offset target,
/// so it is never counted.
pub open spec fn live_neighbor_count(g: Seq<Seq<CellState>>, x: int, y: int) -> int {
    one_if(live_at(g, x - 1, y - 1)) + one_if(live_at(g, x, y - 1)) + one_if(
        live_at(g, x + 1, y - 1),
    ) + one_if(live_at(g, x - 1, y)) + one_if(live_at(g, x + 1, y)) + one_if(
        live_at(g, x - 1, y + 1),
    ) + one_if(live_at(g, x, y + 1)) + one_if(live_at(g, x + 1, y + 1))
}

/// Static configuration of the board: grid dimensions and the pixel edge
/// length of one cell. Visual padding between cells is a renderer concern
/// and lives with the presentation layer.
#[derive(Clone, Copy)]
pub struct BoardOptions {
    pub map_size: (usize, usize),
    pub cell_size: i64,
}

impl Default for BoardOptions {
    /// An 80 x 80 grid of cells 10 pixels wide.
    fn default() -> (r: BoardOptions)
        ensures
            r.map_size.0 == 80,
            r.map_size.1 == 80,
            r.cell_size == 10,
    {
        BoardOptions { map_size: (80, 80), cell_size: 10 }
    }
}

/// A rectangular grid of cell states: a vector of rows, each row a vector of
/// one `CellState` per column. The cell at `Coordinate { x, y }` is
/// `map[y][x]`.
#[derive(Debug, Clone)]
pub struct CellMap {
    pub map: Vec<Vec<CellState>>,
}

impl View for CellMap {
    type V = Seq<Seq<CellState>>;

    open spec fn view(&self) -> Seq<Seq<CellState>> {
        self.map@.map_values(|row: Vec<CellState>| row@)
    }
}

impl CellMap {
    /// A `width x height` grid created entirely dead. A degenerate grid with
    /// zero width or height is disallowed.
    pub fn empty(width: usize, height: usize) -> (r: CellMap)
        requires
            1 <= width,
            1 <= height,
        ensures
            r@ == empty_grid(width as int, height as int),
            grid_wf(r@),
            grid_width(r@) == width,
            grid_height(r@) == height,
    {
        let mut map: Vec<Vec<CellState>> = Vec::new();
        for y in 0..height
            invariant
                map@.len() == y,
                forall|i: int|
                    0 <= i < y ==> (#[trigger] map@[i])@ == Seq::new(
                        width as nat,
                        |x: int| CellState::DEAD,
                    ),
        {
            let mut row: Vec<CellState> = Vec::new();
            for x in 0..width
                invariant
                    row@.len() == x,
                    forall|j: int| 0 <= j < x ==> row@[j] == CellState::DEAD,
            {
                row.push(CellState::DEAD);
            }
            proof {
                assert(row@ =~= Seq::new(width as nat, |x: int| CellState::DEAD));
            }
            map.push(row);
        }
        let r = CellMap { map };
        proof {
            assert(r@ =~~= empty_grid(width as int, height as int));
        }
        r
    }

    /// Number of columns.
    pub fn width(&self) -> (w: usize)
        requires
            grid_wf(self@),
        ensures
            w == grid_width(self@),
    {
        self.map[0].len()
    }

    /// Number of rows.
    pub fn height(&self) -> (h: usize)
        ensures
            h == grid_height(self@),
    {
        self.map.len()
    }
}

/// An axis-aligned bounding rectangle in pixel space: its bottom-left corner
/// and its (non-negative) extent.
#[derive(Clone, Copy)]
pub struct Bounds {
    pub position: (i64, i64),
    pub size: (i64, i64),
}

impl Bounds {
    /// A usable rectangle: non-negative extent whose far corner still fits
    /// in the coordinate range.
    pub open spec fn wf(&self) -> bool {
        &&& self.size.0 >= 0
        &&& self.size.1 >= 0
        &&& self.position.0 + self.size.0 <= i64::MAX
        &&& self.position.1 + self.size.1 <= i64::MAX
    }

    /// Whether the point lies inside the rectangle, borders included.
    pub open spec fn spec_in_bounds(&self, x: int, y: int) -> bool {
        &&& self.position.0 <= x <= self.position.0 + self.size.0
        &&& self.position.1 <= y <= self.position.1 + self.size.1
    }

    /// Whether the point lies inside the rectangle, borders included.
    pub fn in_bounds(&self, coords: (i64, i64)) -> (r: bool)
        requires
            self.wf(),
        ensures
            r == self.spec_in_bounds(coords.0 as int, coords.1 as int),
    {
        coords.0 >= self.position.0 && coords.1 >= self.position.1 && coords.0 <= self.position.0
            + self.size.0 && coords.1 <= self.position.1 + self.size.1
    }
}

/// The grid plus its spatial placement: bounding rectangle and cell edge
/// length, used to map pointer positions to grid coordinates.
#[derive(Clone)]
pub struct Board {
    pub cell_map: CellMap,
    pub bounds: Bounds,
    pub cell_size: i64,
}

impl Board {
    /// The grid owned by this board.
    pub open spec fn grid(&self) -> Seq<Seq<CellState>> {
        self.cell_map@
    }

    /// Well-formedness: a well-formed grid, a positive cell size, and a
    /// bounding rectangle whose extent is exactly the grid dimensions scaled
    /// by the cell size.
    pub open spec fn wf(&self) -> bool {
        &&& grid_wf(self.grid())
        &&& self.cell_size >= 1
        &&& grid_width(self.grid()) <= i64::MAX
        &&& grid_height(self.grid()) <= i64::MAX
        &&& grid_width(self.grid()) <= usize::MAX
        &&& grid_height(self.grid()) <= usize::MAX
        &&& self.bounds.size.0 == grid_width(self.grid()) * self.cell_size
        &&& self.bounds.size.1 == grid_height(self.grid()) * self.cell_size
        &&& self.bounds.wf()
    }

    /// A board with an all-dead grid of the configured dimensions, centered
    /// on the origin: its bounding rectangle extends half the scaled grid
    /// size in each direction.
    pub fn new(options: &BoardOptions) -> (board: Board)
        requires
            1 <= options.map_size.0,
            1 <= options.map_size.1,
            1 <= options.cell_size,
            options.map_size.0 * options.cell_size <= i64::MAX,
            options.map_size.1 * options.cell_size <= i64::MAX,
        ensures
            board.wf(),
            board.grid() == empty_grid(options.map_size.0 as int, options.map_size.1 as int),
            board.cell_size == options.cell_size,
            board.bounds.size.0 == options.map_size.0 * options.cell_size,
            board.bounds.size.1 == options.map_size.1 * options.cell_size,
            board.bounds.position.0 == -(board.bounds.size.0 as int / 2),
            board.bounds.position.1 == -(board.bounds.size.1 as int / 2),
    {
        let width = options.map_size.0;
        let height = options.map_size.1;
        proof {
            assert(width <= i64::MAX && height <= i64::MAX) by (nonlinear_arith)
                requires
                    width * options.cell_size <= i64::MAX,
                    height * options.cell_size <= i64::MAX,
                    options.cell_size >= 1,
            ;
        }
        let board_width: i64 = (width as i64) * options.cell_size;
        let board_height: i64 = (height as i64) * options.cell_size;
        let cell_map = CellMap::empty(width, height);
        Board {
            cell_map,
            bounds: Bounds {
                position: (-(board_width / 2), -(board_height / 2)),
                size: (board_width, board_height),
            },
            cell_size: options.cell_size,
        }
    }

    /// Whether the coordinate indexes a cell of this board's grid.
    pub fn coord_available(&self, coord: Coordinate) -> (r: bool)
        requires
            self.wf(),
        ensures
            r == in_grid(self.grid(), coord.x as int, coord.y as int),
    {
        coord.x < self.cell_map.width() && coord.y < self.cell_map.height()
    }

    /// Whether the cell at the coordinate is alive. Out-of-range access is a
    /// caller contract violation: callers bound-check first through
    /// [`Board::coord_available`].
    pub fn is_alive(&self, coord: Coordinate) -> (r: bool)
        requires
            self.wf(),
            in_grid(self.grid(), coord.x as int, coord.y as int),
        ensures
            r == live_at(self.grid(), coord.x as int, coord.y as int),
    {
        let row: &Vec<CellState> = &self.cell_map.map[coord.y];
        proof {
            assert(row@ == self.grid()[coord.y as int]);
            assert(self.grid()[coord.y as int].len() == grid_width(self.grid()));
        }
        let s = row[coord.x];
        s == CellState::ALIVE
    }

    /// Whether one offset step from `position` lands on a live in-range
    /// neighbor. A step that would leave the grid — underflow past zero or
    /// past the far edge — yields no neighbor; in particular a saturated
    /// (clamped) result is never mistaken for one.
    fn neighbor_alive(&self, position: Coordinate, dx: i8, dy: i8) -> (r: bool)
        requires
            self.wf(),
            -1 <= dx <= 1,
            -1 <= dy <= 1,
        ensures
            r == live_at(self.grid(), position.x + dx, position.y + dy),
    {
        if dx < 0 && position.x == 0 {
            return false;
        }
        if dy < 0 && position.y == 0 {
            return false;
        }
        let neighbor = position.offset(dx, dy);
        self.coord_available(neighbor) && self.is_alive(neighbor)
    }

    /// The number of live cells among the at most 8 distinct in-range
    /// neighbors of `position`; `position` itself is never counted.
    pub fn count_neighbors(&self, position: Coordinate) -> (n: usize)
        requires
            self.wf(),
        ensures
            n == live_neighbor_count(self.grid(), position.x as int, position.y as int),
            n <= 8,
    {
        let mut n: usize = 0;
        if self.neighbor_alive(position, -1, -1) {
            n += 1;
        }
        if self.neighbor_alive(position, 0, -1) {
            n += 1;
        }
        if self.neighbor_alive(position, 1, -1) {
            n += 1;
        }
        if self.neighbor_alive(position, -1, 0) {
            n += 1;
        }
        if self.neighbor_alive(position, 1, 0) {
            n += 1;
        }
        if self.neighbor_alive(position, -1, 1) {
            n += 1;
        }
        if self.neighbor_alive(position, 0, 1) {
            n += 1;
        }
        if self.neighbor_alive(position, 1, 1) {
            n += 1;
        }
        n
    }

    /// The mapping from a pointer position in a top-left-origin, Y-down
    /// pixel viewport to a grid coordinate: flip Y, center on the viewport,
    /// test against the bounding rectangle, then translate by the board
    /// origin and divide by the cell size, truncating. Outside the rectangle,
    /// or past the far edge of the grid, no cell is selected.
    pub open spec fn spec_mouse_position(
        &self,
        window_width: int,
        window_height: int,
        px: int,
        py: int,
    ) -> Option<Coordinate> {
        let cx = px - window_width / 2;
        let cy = (window_height - py) - window_height / 2;
        if !self.bounds.spec_in_bounds(cx, cy) {
            None
        } else {
            let gx = (cx - self.bounds.position.0) / (self.cell_size as int);
            let gy = (cy - self.bounds.position.1) / (self.cell_size as int);
            if gx < grid_width(self.grid()) && gy < grid_height(self.grid()) {
                Some(Coordinate { x: gx as usize, y: gy as usize })
            } else {
                None
            }
        }
    }

    /// Translate a pointer position, given in the top-left-origin, Y-down
    /// pixel space of a `window_size` viewport, into the grid coordinate of
    /// the cell under it, or `None` when the pointer is outside the board.
    pub fn mouse_position(&self, window_size: (i64, i64), position: (i64, i64)) -> (r: Option<
        Coordinate,
    >)
        requires
            self.wf(),
            0 <= position.0 <= window_size.0,
            0 <= position.1 <= window_size.1,
        ensures
            r == self.spec_mouse_position(
                window_size.0 as int,
                window_size.1 as int,
                position.0 as int,
                position.1 as int,
            ),
            r matches Some(c) ==> in_grid(self.grid(), c.x as int, c.y as int),
    {
        let flipped_y = window_size.1 - position.1;
        let cx = position.0 - window_size.0 / 2;
        let cy = flipped_y - window_size.1 / 2;
        if !self.bounds.in_bounds((cx, cy)) {
            return None;
        }
        let local_x = cx - self.bounds.position.0;
        let local_y = cy - self.bounds.position.1;
        let gx = local_x / self.cell_size;
        let gy = local_y / self.cell_size;
        let w = self.cell_map.width();
        let h = self.cell_map.height();
        if gx < w as i64 && gy < h as i64 {
            Some(Coordinate { x: gx as usize, y: gy as usize })
        } else {
            None
        }
    }

    /// Replace the state of one cell in place. The caller must have
    /// validated that the coordinate is in range.
    pub fn set_cell(&mut self, coord: Coordinate, state: CellState)
        requires
            old(self).wf(),
            in_grid(old(self).grid(), coord.x as int, coord.y as int),
        ensures
            final(self).wf(),
            final(self).grid() == set_at(
                old(self).grid(),
                coord.x as int,
                coord.y as int,
                state,
            ),
            final(self).bounds == old(self).bounds,
            final(self).cell_size == old(self).cell_size,
    {
        proof {
            assert(old(self).grid()[coord.y as int].len() == grid_width(old(self).grid()));
        }
        self.cell_map.map[coord.y][coord.x] = state;
        proof {
            let g0 = old(self).grid();
            let g1 = self.grid();
            assert(g1 =~~= set_at(g0, coord.x as int, coord.y as int, state));
            assert forall|y: int| 0 <= y < g1.len() implies (#[trigger] g1[y]).len()
                == g1[0].len() by {
                assert(g0[y].len() == g0[0].len());
            }
        }
    }
}

/// The live-neighbor count is drawn from the 8 neighbor offsets alone: it
/// always lies between 0 and 8.
pub proof fn lemma_neighbor_count_bounds(g: Seq<Seq<CellState>>, x: int, y: int)
    ensures
        0 <= live_neighbor_count(g, x, y) <= 8,
{
}

/// The live-neighbor count never includes the cell itself: replacing the
/// state of the cell it is taken at leaves the count unchanged.
pub proof fn lemma_neighbor_count_excludes_self(
    g: Seq<Seq<CellState>>,
    x: int,
    y: int,
    s: CellState,
)
    requires
        grid_wf(g),
        in_grid(g, x, y),
    ensures
        live_neighbor_count(set_at(g, x, y, s), x, y) == live_neighbor_count(g, x, y),
{
    let g1 = set_at(g, x, y, s);
    assert(grid_width(g1) == grid_width(g));
    assert(live_at(g1, x - 1, y - 1) == live_at(g, x - 1, y - 1));
    assert(live_at(g1, x, y - 1) == live_at(g, x, y - 1));
    assert(live_at(g1, x + 1, y - 1) == live_at(g, x + 1, y - 1));
    assert(live_at(g1, x - 1, y) == live_at(g, x - 1, y));
    assert(live_at(g1, x + 1, y) == live_at(g, x + 1, y));
    assert(live_at(g1, x - 1, y + 1) == live_at(g, x - 1, y + 1));
    assert(live_at(g1, x, y + 1) == live_at(g, x, y + 1));
    assert(live_at(g1, x + 1, y + 1) == live_at(g, x + 1, y + 1));
}

/// A live cell in the corner at the origin only ever considers the 3 valid
/// neighbors that exist on-grid: the offsets that step below zero contribute
/// nothing, so the count there never exceeds 3.
pub proof fn lemma_boundary_origin(g: Seq<Seq<CellState>>)
    ensures
        live_neighbor_count(g, 0, 0) == one_if(live_at(g, 1, 0)) + one_if(live_at(g, 0, 1))
            + one_if(live_at(g, 1, 1)),
        live_neighbor_count(g, 0, 0) <= 3,
{
}

/// The repeating evolution interval. Elapsed time accumulates tick by tick;
/// when it reaches the interval the timer fires once and resets, dropping
/// any excess so that at most one evolution pass runs per tick.
#[derive(Debug, Clone)]
pub struct LifeTimer {
    pub interval_ms: u64,
    pub elapsed_ms: u64,
}

impl LifeTimer {
    /// A positive interval, with strictly less than one interval
    /// accumulated.
    pub open spec fn wf(&self) -> bool {
        &&& self.interval_ms >= 1
        &&& self.elapsed_ms < self.interval_ms
    }

    /// A fresh timer with nothing accumulated.
    pub fn new(interval_ms: u64) -> (r: LifeTimer)
        requires
            interval_ms >= 1,
        ensures
            r.wf(),
            r.interval_ms == interval_ms,
            r.elapsed_ms == 0,
    {
        LifeTimer { interval_ms, elapsed_ms: 0 }
    }

    /// Advance the timer by the elapsed time since the last tick. Fires
    /// exactly when the accumulated time reaches the interval; firing resets
    /// the accumulation to zero, dropping the excess.
    pub fn tick(&mut self, delta_ms: u64) -> (fired: bool)
        requires
            old(self).wf(),
        ensures
            final(self).wf(),
            final(self).interval_ms == old(self).interval_ms,
            fired == (old(self).elapsed_ms + delta_ms >= old(self).interval_ms),
            fired ==> final(self).elapsed_ms == 0,
            !fired ==> final(self).elapsed_ms == old(self).elapsed_ms + delta_ms,
    {
        if delta_ms >= self.interval_ms - self.elapsed_ms {
            self.elapsed_ms = 0;
            true
        } else {
            self.elapsed_ms = self.elapsed_ms + delta_ms;
            false
        }
    }
}

} // verus!
