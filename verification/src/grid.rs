//! The grid: dense storage of one generation, fixed in size and read-only
//! once built.

use crate::board::count_of;
use crate::board::Board;
use vstd::prelude::*;

verus! {

/// Why a grid could not be built.
#[derive(Clone, Copy, Debug, PartialEq, Eq)]
pub enum GridError {
    /// The width or the height asked for was zero.
    InvalidDimensions,
}

/// One generation of cells, `width` by `height`, stored densely.
///
/// The cell at `(x, y)` lies at offset `x * height + y` of the buffer. A
/// grid offers no way to change a cell: a new generation is a new grid.
#[derive(Debug, PartialEq, Eq)]
pub struct Grid {
    width: usize,
    height: usize,
    cells: Vec<bool>,
}

/// The offset of a position of the grid lies inside the buffer.
pub proof fn lemma_offset_in_range(x: int, y: int, width: int, height: int)
    requires
        0 <= x < width,
        0 <= y < height,
    ensures
        0 <= x * height,
        0 <= x * height + y < width * height,
        (x + 1) * height == x * height + height,
{
    assert(0 <= x * height) by (nonlinear_arith)
        requires
            0 <= x,
            0 <= height,
    ;
    assert((x + 1) * height == x * height + height) by (nonlinear_arith);
    assert((x + 1) * height <= width * height) by (nonlinear_arith)
        requires
            x + 1 <= width,
            0 <= height,
    ;
}

impl View for Grid {
    type V = Board;

    closed spec fn view(&self) -> Board {
        Board {
            width: self.width as nat,
            height: self.height as nat,
            live: Set::new(
                |p: (int, int)|
                    0 <= p.0 < self.width && 0 <= p.1 < self.height && self.cells@[p.0
                        * self.height + p.1],
            ),
        }
    }
}

impl Clone for Grid {
    /// A copy of the same generation.
    fn clone(&self) -> (copy: Grid)
        ensures
            copy@ == self@,
    {
        proof {
            use_type_invariant(self);
        }
        let cells = self.cells.clone();
        assert(cells@ =~= self.cells@);
        Grid { width: self.width, height: self.height, cells }
    }
}

impl Grid {
    #[verifier::type_invariant]
    spec fn inv(&self) -> bool {
        &&& self.width > 0
        &&& self.height > 0
        &&& self.width * self.height <= usize::MAX
        &&& self.cells@.len() == self.width * self.height
    }

    /// The model of any grid marks no position outside it.
    pub proof fn lemma_view_wf(&self)
        ensures
            self@.wf(),
    {
    }

    /// Builds a grid of `width` by `height` cells, asking `initializer` for
    /// the state of each cell. Fails when either dimension is zero.
    pub fn create<F: Fn(usize, usize) -> bool>(width: usize, height: usize, initializer: F) -> (r:
        Result<Grid, GridError>)
        requires
            width * height <= usize::MAX,
            forall|x: usize, y: usize|
                x < width && y < height ==> call_requires(initializer, (x, y)),
        ensures
            width > 0 && height > 0 <==> r is Ok,
            r matches Err(e) ==> e == GridError::InvalidDimensions,
            r matches Ok(g) ==> {
                &&& g@.wf()
                &&& g@.width == width
                &&& g@.height == height
                &&& forall|x: usize, y: usize|
                    x < width && y < height ==> call_ensures(
                        initializer,
                        (x, y),
                        #[trigger] g@.alive(x as int, y as int),
                    )
            },
    {
        if width == 0 || height == 0 {
            return Err(GridError::InvalidDimensions);
        }
        let mut cells: Vec<bool> = Vec::new();
        let mut x: usize = 0;
        while x < width
            invariant
                0 < height,
                x <= width,
                width * height <= usize::MAX,
                cells@.len() == x * height,
                forall|i: usize, j: usize|
                    i < width && j < height ==> call_requires(initializer, (i, j)),
                forall|i: usize, j: usize|
                    i < x && j < height ==> call_ensures(
                        initializer,
                        (i, j),
                        #[trigger] cells@[i * height + j],
                    ),
            decreases width - x,
        {
            let mut y: usize = 0;
            while y < height
                invariant
                    0 < height,
                    x < width,
                    y <= height,
                    width * height <= usize::MAX,
                    cells@.len() == x * height + y,
                    forall|i: usize, j: usize|
                        i < width && j < height ==> call_requires(initializer, (i, j)),
                    forall|i: usize, j: usize|
                        (i < x && j < height) || (i == x && j < y) ==> call_ensures(
                            initializer,
                            (i, j),
                            #[trigger] cells@[i * height + j],
                        ),
                decreases height - y,
            {
                let alive = initializer(x, y);
                let ghost before = cells@;
                cells.push(alive);
                proof {
                    assert forall|i: usize, j: usize|
                        (i < x && j < height) || (i == x && j < y + 1) implies call_ensures(
                        initializer,
                        (i, j),
                        #[trigger] cells@[i * height + j],
                    ) by {
                        if i == x && j == y {
                        } else {
                            if i < x {
                                lemma_offset_in_range(i as int, j as int, x as int, height as int);
                            }
                            assert(cells@[i * height + j] == before[i * height + j]);
                        }
                    }
                }
                y += 1;
            }
            proof {
                lemma_offset_in_range(x as int, 0, width as int, height as int);
            }
            x += 1;
        }
        let grid = Grid { width, height, cells };
        proof {
            assert forall|i: usize, j: usize| i < width && j < height implies call_ensures(
                initializer,
                (i, j),
                #[trigger] grid@.alive(i as int, j as int),
            ) by {
                assert(grid@.alive(i as int, j as int) == grid.cells@[i * height + j]);
            }
        }
        Ok(grid)
    }

    /// The width and the height, both positive; their product is the number
    /// of cells and fits a `usize`.
    pub fn dimensions(&self) -> (dims: (usize, usize))
        ensures
            dims.0 == self@.width,
            dims.1 == self@.height,
            dims.0 > 0,
            dims.1 > 0,
            dims.0 * dims.1 <= usize::MAX,
    {
        proof {
            use_type_invariant(self);
        }
        (self.width, self.height)
    }

    /// Whether the cell at `(x, y)` is live; `false` for every position
    /// outside the grid.
    pub fn get(&self, x: usize, y: usize) -> (alive: bool)
        ensures
            alive == self@.alive(x as int, y as int),
    {
        proof {
            use_type_invariant(self);
        }
        if x < self.width && y < self.height {
            proof {
                lemma_offset_in_range(x as int, y as int, self.width as int, self.height as int);
            }
            self.cells[x * self.height + y]
        } else {
            false
        }
    }

    /// How many of the eight cells around `(x, y)` are live. Positions
    /// outside the grid add nothing, so a corner has at most three
    /// neighbours that count and an edge at most five.
    pub fn live_neighbors(&self, x: usize, y: usize) -> (n: u8)
        ensures
            n == self@.live_neighbors(x as int, y as int),
            n <= self@.neighbors_in_bounds(x as int, y as int),
            n <= 8,
    {
        let left = x > 0;
        let right = x < usize::MAX;
        let above = y > 0;
        let below = y < usize::MAX;
        let a = counted(left && above && self.get(x - 1, y - 1));
        let b = counted(left && self.get(x - 1, y));
        let c = counted(left && below && self.get(x - 1, y + 1));
        let d = counted(above && self.get(x, y - 1));
        let e = counted(below && self.get(x, y + 1));
        let f = counted(right && above && self.get(x + 1, y - 1));
        let g = counted(right && self.get(x + 1, y));
        let h = counted(right && below && self.get(x + 1, y + 1));
        proof {
            self@.lemma_neighbors_lie_in_bounds(x as int, y as int);
        }
        a + b + c + d + e + f + g + h
    }
}

/// 1 for a live cell, 0 for a dead one.
fn counted(alive: bool) -> (n: u8)
    ensures
        n == count_of(alive),
{
    if alive {
        1
    } else {
        0
    }
}

} // verus!
