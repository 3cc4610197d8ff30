//! The simulator: one step of the life rule, and the live cells of a
//! generation as a list of coordinates.

use crate::board::rule;
use crate::board::Board;
use crate::grid::lemma_offset_in_range;
use crate::grid::Grid;
use vstd::prelude::*;

verus! {

/// The position of one cell.
#[derive(Clone, Copy, Debug, PartialEq, Eq, Structural)]
pub struct Coordinate {
    pub x: usize,
    pub y: usize,
}

/// Whether `a` comes before `b` in the order in which cells are listed: by
/// `x` first, and by `y` among cells of one `x`.
pub open spec fn listed_before(a: Coordinate, b: Coordinate) -> bool {
    a.x < b.x || (a.x == b.x && a.y < b.y)
}

/// What `cells` must be to list the live cells of `board`: every entry is a
/// live cell, every live cell is an entry, and the entries come in strictly
/// ascending order, so that none occurs twice.
pub open spec fn lists_live_cells(cells: Seq<Coordinate>, board: Board) -> bool {
    &&& forall|i: int|
        0 <= i < cells.len() ==> board.alive((#[trigger] cells[i]).x as int, cells[i].y as int)
    &&& forall|x: int, y: int| #[trigger]
        board.alive(x, y) ==> exists|i: int|
            0 <= i < cells.len() && (#[trigger] cells[i]).x == x && cells[i].y == y
    &&& forall|i: int, j: int|
        0 <= i < j < cells.len() ==> listed_before(#[trigger] cells[i], #[trigger] cells[j])
}

/// Whether the position `(a, b)` is visited before `(x, y)` when the grid is
/// walked by `x` first.
spec fn visited_before(a: int, b: int, x: int, y: int) -> bool {
    a < x || (a == x && b < y)
}

/// `cells` lists the live cells of `board` that are visited before `(x, y)`.
spec fn lists_live_cells_before(cells: Seq<Coordinate>, board: Board, x: int, y: int) -> bool {
    &&& forall|i: int|
        0 <= i < cells.len() ==> board.alive((#[trigger] cells[i]).x as int, cells[i].y as int)
            && visited_before(cells[i].x as int, cells[i].y as int, x, y)
    &&& forall|a: int, b: int| #[trigger]
        board.alive(a, b) && visited_before(a, b, x, y) ==> exists|i: int|
            0 <= i < cells.len() && (#[trigger] cells[i]).x == a && cells[i].y == b
    &&& forall|i: int, j: int|
        0 <= i < j < cells.len() ==> listed_before(#[trigger] cells[i], #[trigger] cells[j])
}

/// The state of a cell in the next generation, from its state now and the
/// number of its live neighbours.
pub fn next_state(alive: bool, neighbors: u8) -> (next: bool)
    ensures
        next == rule(alive, neighbors as nat),
{
    if alive {
        neighbors == 2 || neighbors == 3
    } else {
        neighbors == 3
    }
}

/// The next generation of `grid`: a new grid of the same dimensions in
/// which every cell follows the rule, read from `grid` alone.
pub fn step(grid: &Grid) -> (next: Grid)
    ensures
        next@ == grid@.step(),
{
    let (width, height) = grid.dimensions();
    let decide = |x: usize, y: usize| -> (alive: bool)
        requires
            x < width && y < height,
        ensures
            alive == grid@.next_alive(x as int, y as int),
        { next_state(grid.get(x, y), grid.live_neighbors(x, y)) };
    let built = Grid::create(width, height, decide);
    let next = built.unwrap();
    proof {
        let want = grid@.step();
        assert forall|p: (int, int)| next@.live.contains(p) == want.live.contains(p) by {
            if next@.in_bounds(p.0, p.1) {
                let x = p.0 as usize;
                let y = p.1 as usize;
                assert(call_ensures(decide, (x, y), next@.alive(x as int, y as int)));
            }
        }
        assert(next@.live =~= want.live);
    }
    next
}

/// The live cells of `grid`, each once, ordered by `x` and, among cells of
/// one `x`, by `y`.
pub fn live_cells(grid: &Grid) -> (cells: Vec<Coordinate>)
    ensures
        lists_live_cells(cells@, grid@),
        cells@.len() <= grid@.width * grid@.height,
{
    let (width, height) = grid.dimensions();
    let mut cells: Vec<Coordinate> = Vec::new();
    let mut x: usize = 0;
    while x < width
        invariant
            width == grid@.width,
            height == grid@.height,
            height > 0,
            x <= width,
            lists_live_cells_before(cells@, grid@, x as int, 0),
            cells@.len() <= x * height,
        decreases width - x,
    {
        let mut y: usize = 0;
        while y < height
            invariant
                width == grid@.width,
                height == grid@.height,
                x < width,
                y <= height,
                lists_live_cells_before(cells@, grid@, x as int, y as int),
                cells@.len() <= x * height + y,
            decreases height - y,
        {
            let ghost before = cells@;
            if grid.get(x, y) {
                cells.push(Coordinate { x, y });
                proof {
                    let last = before.len() as int;
                    assert(cells@[last].x == x && cells@[last].y == y);
                    assert forall|a: int, b: int| #[trigger]
                        grid@.alive(a, b) && visited_before(
                            a,
                            b,
                            x as int,
                            y + 1,
                        ) implies exists|i: int|
                        0 <= i < cells@.len() && (#[trigger] cells@[i]).x == a && cells@[i].y
                            == b by {
                        if a == x && b == y {
                            assert(cells@[last].x == a && cells@[last].y == b);
                        } else {
                            assert(visited_before(a, b, x as int, y as int));
                            let i = choose|i: int|
                                0 <= i < before.len() && (#[trigger] before[i]).x == a
                                    && before[i].y == b;
                            assert(cells@[i].x == a && cells@[i].y == b);
                        }
                    }
                }
            } else {
                proof {
                    assert forall|a: int, b: int| #[trigger]
                        grid@.alive(a, b) && visited_before(
                            a,
                            b,
                            x as int,
                            y + 1,
                        ) implies visited_before(a, b, x as int, y as int) by {}
                }
            }
            y += 1;
        }
        proof {
            assert forall|a: int, b: int| #[trigger]
                grid@.alive(a, b) && visited_before(
                    a,
                    b,
                    x + 1,
                    0,
                ) implies visited_before(a, b, x as int, height as int) by {}
            lemma_offset_in_range(x as int, 0, width as int, height as int);
        }
        x += 1;
    }
    cells
}

} // verus!
