//! What holds of every generation: theorems about the rule, the edges of the
//! board, the list of live cells and seeding.

use crate::board::rule;
use crate::board::Board;
use crate::grid::lemma_offset_in_range;
use crate::grid::Grid;
use crate::seed::seeded_board;
use crate::seed::LIVE_DRAW;
use crate::simulator::lists_live_cells;
use crate::simulator::listed_before;
use crate::simulator::Coordinate;
use vstd::prelude::*;

verus! {

/// Well-formed boards that agree on the dimensions and on every cell are
/// one and the same board.
pub proof fn lemma_same_cells_are_equal(a: Board, b: Board)
    requires
        a.wf(),
        b.wf(),
        a.same_cells(b),
    ensures
        a == b,
{
    assert forall|p: (int, int)| a.live.contains(p) == b.live.contains(p) by {
        assert(a.alive(p.0, p.1) == b.alive(p.0, p.1));
    }
    assert(a.live =~= b.live);
}

/// A step keeps the dimensions and gives a well-formed board.
pub proof fn lemma_step_keeps_shape(board: Board)
    ensures
        board.step().width == board.width,
        board.step().height == board.height,
        board.step().wf(),
{
}

/// The next generation is a function of the current cells and of nothing
/// else: boards that agree on every cell have the same next generation.
pub proof fn lemma_step_depends_on_cells_alone(a: Board, b: Board)
    requires
        a.same_cells(b),
    ensures
        a.step() == b.step(),
{
    assert forall|p: (int, int)| a.step().live.contains(p) == b.step().live.contains(p) by {
        assert(a.live_neighbors(p.0, p.1) == b.live_neighbors(p.0, p.1));
    }
    assert(a.step().live =~= b.step().live);
}

/// Two steps from one grid give the same generation.
pub proof fn lemma_step_is_deterministic(grid: Grid, first: Grid, second: Grid)
    requires
        first@ == grid@.step(),
        second@ == grid@.step(),
    ensures
        first@ == second@,
        first@.same_cells(second@),
{
}

/// The rule, cell by cell. A dead cell becomes live with exactly three live
/// neighbours and stays dead with any other number. A live cell stays live
/// with two or three and dies otherwise. Outside the board nothing lives.
pub proof fn lemma_step_follows_rule(board: Board, x: int, y: int)
    ensures
        board.in_bounds(x, y) ==> board.step().alive(x, y) == rule(
            board.alive(x, y),
            board.live_neighbors(x, y),
        ),
        board.in_bounds(x, y) && !board.alive(x, y) ==> (board.step().alive(x, y) <==>
            board.live_neighbors(x, y) == 3),
        board.in_bounds(x, y) && board.alive(x, y) ==> (board.step().alive(x, y) <==>
            board.live_neighbors(x, y) == 2 || board.live_neighbors(x, y) == 3),
        !board.in_bounds(x, y) ==> !board.step().alive(x, y),
{
}

/// At a corner at most three neighbours are counted.
pub proof fn lemma_corner_has_three_neighbors(board: Board, x: int, y: int)
    requires
        board.in_bounds(x, y),
        x == 0 || x == board.width - 1,
        y == 0 || y == board.height - 1,
    ensures
        board.neighbors_in_bounds(x, y) <= 3,
        board.live_neighbors(x, y) <= 3,
{
}

/// On an edge at most five neighbours are counted.
pub proof fn lemma_edge_has_five_neighbors(board: Board, x: int, y: int)
    requires
        board.in_bounds(x, y),
        x == 0 || x == board.width - 1 || y == 0 || y == board.height - 1,
    ensures
        board.neighbors_in_bounds(x, y) <= 5,
        board.live_neighbors(x, y) <= 5,
{
}

/// Whether `(px, py)` is one of the four cells of the block whose corner
/// with the smallest coordinates is `(x, y)`.
pub open spec fn in_block(x: int, y: int, px: int, py: int) -> bool {
    (px == x || px == x + 1) && (py == y || py == y + 1)
}

/// The block is a still life: a board whose live cells are exactly the four
/// cells of a two by two square is its own next generation.
pub proof fn lemma_block_is_still(board: Board, x: int, y: int)
    requires
        board.wf(),
        board.in_bounds(x, y),
        board.in_bounds(x + 1, y + 1),
        forall|px: int, py: int| #[trigger] board.alive(px, py) == in_block(x, y, px, py),
    ensures
        board.step() == board,
{
    assert forall|p: (int, int)| board.step().live.contains(p) == board.live.contains(p) by {
        let px = p.0;
        let py = p.1;
        assert(board.alive(px, py) == in_block(x, y, px, py));
        assert(board.alive(px - 1, py - 1) == in_block(x, y, px - 1, py - 1));
        assert(board.alive(px - 1, py) == in_block(x, y, px - 1, py));
        assert(board.alive(px - 1, py + 1) == in_block(x, y, px - 1, py + 1));
        assert(board.alive(px, py - 1) == in_block(x, y, px, py - 1));
        assert(board.alive(px, py + 1) == in_block(x, y, px, py + 1));
        assert(board.alive(px + 1, py - 1) == in_block(x, y, px + 1, py - 1));
        assert(board.alive(px + 1, py) == in_block(x, y, px + 1, py));
        assert(board.alive(px + 1, py + 1) == in_block(x, y, px + 1, py + 1));
    }
    assert(board.step().live =~= board.live);
}

/// Whether `(px, py)` is one of the three cells of the row centred on
/// `(x, y)`.
pub open spec fn in_row_of_three(x: int, y: int, px: int, py: int) -> bool {
    py == y && x - 1 <= px <= x + 1
}

/// Whether `(px, py)` is one of the three cells of the column centred on
/// `(x, y)`.
pub open spec fn in_column_of_three(x: int, y: int, px: int, py: int) -> bool {
    px == x && y - 1 <= py <= y + 1
}

/// Whether the cell at `(x, y)` and the four cells beside, above and below
/// it all lie on the board.
pub open spec fn has_room_for_blinker(board: Board, x: int, y: int) -> bool {
    &&& board.in_bounds(x - 1, y)
    &&& board.in_bounds(x + 1, y)
    &&& board.in_bounds(x, y - 1)
    &&& board.in_bounds(x, y + 1)
}

/// A row of three live cells, alone on the board, becomes the column of
/// three through its centre.
pub proof fn lemma_row_becomes_column(board: Board, x: int, y: int)
    requires
        has_room_for_blinker(board, x, y),
        forall|px: int, py: int| #[trigger] board.alive(px, py) == in_row_of_three(x, y, px, py),
    ensures
        forall|px: int, py: int| #[trigger]
            board.step().alive(px, py) == in_column_of_three(x, y, px, py),
{
    assert forall|px: int, py: int| #[trigger]
        board.step().alive(px, py) == in_column_of_three(x, y, px, py) by {
        assert(board.alive(px, py) == in_row_of_three(x, y, px, py));
        assert(board.alive(px - 1, py - 1) == in_row_of_three(x, y, px - 1, py - 1));
        assert(board.alive(px - 1, py) == in_row_of_three(x, y, px - 1, py));
        assert(board.alive(px - 1, py + 1) == in_row_of_three(x, y, px - 1, py + 1));
        assert(board.alive(px, py - 1) == in_row_of_three(x, y, px, py - 1));
        assert(board.alive(px, py + 1) == in_row_of_three(x, y, px, py + 1));
        assert(board.alive(px + 1, py - 1) == in_row_of_three(x, y, px + 1, py - 1));
        assert(board.alive(px + 1, py) == in_row_of_three(x, y, px + 1, py));
        assert(board.alive(px + 1, py + 1) == in_row_of_three(x, y, px + 1, py + 1));
    }
}

/// A column of three live cells, alone on the board, becomes the row of
/// three through its centre.
pub proof fn lemma_column_becomes_row(board: Board, x: int, y: int)
    requires
        has_room_for_blinker(board, x, y),
        forall|px: int, py: int| #[trigger]
            board.alive(px, py) == in_column_of_three(x, y, px, py),
    ensures
        forall|px: int, py: int| #[trigger]
            board.step().alive(px, py) == in_row_of_three(x, y, px, py),
{
    assert forall|px: int, py: int| #[trigger]
        board.step().alive(px, py) == in_row_of_three(x, y, px, py) by {
        assert(board.alive(px, py) == in_column_of_three(x, y, px, py));
        assert(board.alive(px - 1, py - 1) == in_column_of_three(x, y, px - 1, py - 1));
        assert(board.alive(px - 1, py) == in_column_of_three(x, y, px - 1, py));
        assert(board.alive(px - 1, py + 1) == in_column_of_three(x, y, px - 1, py + 1));
        assert(board.alive(px, py - 1) == in_column_of_three(x, y, px, py - 1));
        assert(board.alive(px, py + 1) == in_column_of_three(x, y, px, py + 1));
        assert(board.alive(px + 1, py - 1) == in_column_of_three(x, y, px + 1, py - 1));
        assert(board.alive(px + 1, py) == in_column_of_three(x, y, px + 1, py));
        assert(board.alive(px + 1, py + 1) == in_column_of_three(x, y, px + 1, py + 1));
    }
}

/// The blinker has period two: a row of three live cells, alone on the
/// board, is back after two steps.
pub proof fn lemma_blinker_has_period_two(board: Board, x: int, y: int)
    requires
        board.wf(),
        has_room_for_blinker(board, x, y),
        forall|px: int, py: int| #[trigger] board.alive(px, py) == in_row_of_three(x, y, px, py),
    ensures
        board.step().step() == board,
{
    lemma_row_becomes_column(board, x, y);
    lemma_column_becomes_row(board.step(), x, y);
    let back = board.step().step();
    assert forall|px: int, py: int| back.alive(px, py) == board.alive(px, py) by {
        assert(back.alive(px, py) == in_row_of_three(x, y, px, py));
    }
    lemma_same_cells_are_equal(back, board);
}

/// A list of the live cells names no cell twice.
pub proof fn lemma_live_cells_listed_once(cells: Seq<Coordinate>, board: Board)
    requires
        lists_live_cells(cells, board),
    ensures
        forall|i: int, j: int|
            0 <= i < cells.len() && 0 <= j < cells.len() && i != j ==> cells[i] != cells[j],
{
    assert forall|i: int, j: int|
        0 <= i < cells.len() && 0 <= j < cells.len() && i != j implies cells[i] != cells[j] by {
        if i < j {
            assert(listed_before(cells[i], cells[j]));
        } else {
            assert(listed_before(cells[j], cells[i]));
        }
    }
}

/// A cell is in the list of the live cells exactly when it is live.
pub proof fn lemma_live_cells_are_the_live_ones(cells: Seq<Coordinate>, board: Board, x: int, y: int)
    requires
        lists_live_cells(cells, board),
    ensures
        board.alive(x, y) <==> exists|i: int|
            0 <= i < cells.len() && (#[trigger] cells[i]).x == x && cells[i].y == y,
{
    if board.alive(x, y) {
    }
}

/// Two lists of the live cells of one board agree on every index that
/// both have, up to `upto`.
proof fn lemma_lists_agree_upto(
    first: Seq<Coordinate>,
    second: Seq<Coordinate>,
    board: Board,
    upto: int,
)
    requires
        lists_live_cells(first, board),
        lists_live_cells(second, board),
        0 <= upto <= first.len(),
        upto <= second.len(),
    ensures
        forall|k: int| 0 <= k < upto ==> first[k] == second[k],
    decreases upto,
{
    if upto > 0 {
        let i = upto - 1;
        lemma_lists_agree_upto(first, second, board, i);
        let a = first[i];
        let b = second[i];
        assert(board.alive(a.x as int, a.y as int));
        let j = choose|j: int|
            0 <= j < second.len() && (#[trigger] second[j]).x == a.x && second[j].y == a.y;
        if j < i {
            assert(first[j] == second[j]);
            assert(listed_before(first[j], first[i]));
        }
        if i < j {
            assert(listed_before(second[i], second[j]));
        }
        assert(board.alive(b.x as int, b.y as int));
        let k = choose|k: int|
            0 <= k < first.len() && (#[trigger] first[k]).x == b.x && first[k].y == b.y;
        if k < i {
            assert(first[k] == second[k]);
            assert(listed_before(second[k], second[i]));
        }
        if i < k {
            assert(listed_before(first[i], first[k]));
        }
    }
}

/// A list of the live cells that is longer than another of the same board
/// cannot be.
proof fn lemma_lists_no_longer(first: Seq<Coordinate>, second: Seq<Coordinate>, board: Board)
    requires
        lists_live_cells(first, board),
        lists_live_cells(second, board),
    ensures
        second.len() <= first.len(),
{
    if first.len() < second.len() {
        let n = first.len() as int;
        lemma_lists_agree_upto(first, second, board, n);
        let b = second[n];
        assert(board.alive(b.x as int, b.y as int));
        let k = choose|k: int|
            0 <= k < first.len() && (#[trigger] first[k]).x == b.x && first[k].y == b.y;
        assert(first[k] == second[k]);
        assert(listed_before(second[k], second[n]));
    }
}

/// A board has one list of its live cells and no other.
pub proof fn lemma_live_cells_list_is_unique(
    first: Seq<Coordinate>,
    second: Seq<Coordinate>,
    board: Board,
)
    requires
        lists_live_cells(first, board),
        lists_live_cells(second, board),
    ensures
        first == second,
{
    lemma_lists_no_longer(first, second, board);
    lemma_lists_no_longer(second, first, board);
    lemma_lists_agree_upto(first, second, board, first.len() as int);
    assert(first =~= second);
}

/// Seeding reads the draws cell by cell: on the seeded board the cell at
/// `(x, y)` is live exactly when the draw at `x * height + y` is the live
/// one, and the board is well formed.
pub proof fn lemma_seeded_cell(width: nat, height: nat, draws: Seq<i32>, x: int, y: int)
    requires
        0 <= x < width,
        0 <= y < height,
    ensures
        seeded_board(width, height, draws).wf(),
        seeded_board(width, height, draws).alive(x, y) == (draws[x * height + y] == LIVE_DRAW),
        0 <= x * height + y < width * height,
{
    lemma_offset_in_range(x, y, width as int, height as int);
}

/// Seeding is a function of the draws: two grids seeded from the same draws
/// are the same generation.
pub proof fn lemma_seeding_is_deterministic(
    width: nat,
    height: nat,
    draws: Seq<i32>,
    first: Grid,
    second: Grid,
)
    requires
        first@ == seeded_board(width, height, draws),
        second@ == seeded_board(width, height, draws),
    ensures
        first@ == second@,
{
}

} // verus!
