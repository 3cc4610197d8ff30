//! The mathematical model of one generation, and the life rule stated on it.

use vstd::prelude::*;

verus! {

/// One generation as a mathematical object: the two dimensions and the set
/// of positions that hold a live cell.
pub struct Board {
    pub width: nat,
    pub height: nat,
    pub live: Set<(int, int)>,
}

/// 1 for a live cell, 0 for a dead one.
pub open spec fn count_of(alive: bool) -> nat {
    if alive {
        1
    } else {
        0
    }
}

/// The life rule for one cell: a live cell stays live with exactly two or
/// three live neighbours, a dead cell becomes live with exactly three.
pub open spec fn rule(alive: bool, neighbors: nat) -> bool {
    if alive {
        neighbors == 2 || neighbors == 3
    } else {
        neighbors == 3
    }
}

impl Board {
    /// Whether `(x, y)` is a position of the board.
    pub open spec fn in_bounds(self, x: int, y: int) -> bool {
        0 <= x < self.width && 0 <= y < self.height
    }

    /// A board is well formed when no position outside it is marked live.
    pub open spec fn wf(self) -> bool {
        forall|x: int, y: int| #[trigger] self.live.contains((x, y)) ==> self.in_bounds(x, y)
    }

    /// Whether the cell at `(x, y)` is live. Every position outside the
    /// board is dead, on all four sides alike.
    pub open spec fn alive(self, x: int, y: int) -> bool {
        self.in_bounds(x, y) && self.live.contains((x, y))
    }

    /// How many of the eight positions around `(x, y)` hold a live cell.
    pub open spec fn live_neighbors(self, x: int, y: int) -> nat {
        count_of(self.alive(x - 1, y - 1)) + count_of(self.alive(x - 1, y)) + count_of(
            self.alive(x - 1, y + 1),
        ) + count_of(self.alive(x, y - 1)) + count_of(self.alive(x, y + 1)) + count_of(
            self.alive(x + 1, y - 1),
        ) + count_of(self.alive(x + 1, y)) + count_of(self.alive(x + 1, y + 1))
    }

    /// How many of the eight positions around `(x, y)` lie on the board.
    pub open spec fn neighbors_in_bounds(self, x: int, y: int) -> nat {
        count_of(self.in_bounds(x - 1, y - 1)) + count_of(self.in_bounds(x - 1, y)) + count_of(
            self.in_bounds(x - 1, y + 1),
        ) + count_of(self.in_bounds(x, y - 1)) + count_of(self.in_bounds(x, y + 1)) + count_of(
            self.in_bounds(x + 1, y - 1),
        ) + count_of(self.in_bounds(x + 1, y)) + count_of(self.in_bounds(x + 1, y + 1))
    }

    /// Only positions on the board count as neighbours: the live
    /// neighbours of a cell are never more than the positions around it
    /// that lie on the board, and those are never more than eight.
    pub proof fn lemma_neighbors_lie_in_bounds(self, x: int, y: int)
        ensures
            self.live_neighbors(x, y) <= self.neighbors_in_bounds(x, y) <= 8,
    {
    }

    /// Whether the cell at `(x, y)` is live in the next generation.
    pub open spec fn next_alive(self, x: int, y: int) -> bool {
        self.in_bounds(x, y) && rule(self.alive(x, y), self.live_neighbors(x, y))
    }

    /// The next generation: the same dimensions, and every cell decided by
    /// the rule from this generation alone.
    pub open spec fn step(self) -> Board {
        Board {
            width: self.width,
            height: self.height,
            live: Set::new(|p: (int, int)| self.next_alive(p.0, p.1)),
        }
    }

    /// Two boards are the same generation when they agree on the dimensions
    /// and on every cell.
    pub open spec fn same_cells(self, other: Board) -> bool {
        &&& self.width == other.width
        &&& self.height == other.height
        &&& forall|x: int, y: int| self.alive(x, y) == other.alive(x, y)
    }
}

} // verus!
