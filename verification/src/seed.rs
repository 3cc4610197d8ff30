//! Seeding: the first generation, filled from a random generator.
//!
//! One number is drawn for each cell, uniformly from `0` to `DRAW_MAX`, and
//! the cell is live when the number is `LIVE_DRAW`: one cell in nine on
//! average. The draws are made for `x = 0` first, and for each `x` from
//! `y = 0` upwards.

use crate::board::Board;
use crate::grid::lemma_offset_in_range;
use crate::grid::Grid;
use crate::grid::GridError;
use rand::rngs::StdRng;
use rand::Rng;
use vstd::prelude::*;

verus! {

/// The largest number drawn for a cell; the smallest is `0`.
pub const DRAW_MAX: i32 = 8;

/// The one drawn number that makes a cell live.
pub const LIVE_DRAW: i32 = 1;

/// The seedable generator of `rand`. Nothing inside it is visible here.
#[verifier::external_type_specification]
#[verifier::external_body]
pub struct ExStdRng(StdRng);

/// Draws one number with `Rng::gen_range` of `rand`, on the inclusive range
/// from `low` to `high`. That call panics on an empty range, which `requires`
/// leaves out. All that is claimed of the number is that it lies in the
/// range; nothing is claimed of the generator afterwards.
#[verifier::external_body]
fn draw_in_range(rng: &mut StdRng, low: i32, high: i32) -> (value: i32)
    requires
        low <= high,
    ensures
        low <= value <= high,
{
    rng.gen_range(low..=high)
}

/// The board that a sequence of draws gives: the cell at `(x, y)` is live
/// when the draw at `x * height + y` is `LIVE_DRAW`.
pub open spec fn seeded_board(width: nat, height: nat, draws: Seq<i32>) -> Board {
    Board {
        width,
        height,
        live: Set::new(
            |p: (int, int)|
                0 <= p.0 < width && 0 <= p.1 < height && draws[p.0 * height + p.1] == LIVE_DRAW,
        ),
    }
}

/// Whether every draw lies between `0` and `DRAW_MAX`.
pub open spec fn draws_in_range(draws: Seq<i32>) -> bool {
    forall|k: int| 0 <= k < draws.len() ==> 0 <= #[trigger] draws[k] <= DRAW_MAX
}

/// Whether a drawn number makes its cell live.
pub fn is_live_draw(value: i32) -> (alive: bool)
    ensures
        alive == (value == LIVE_DRAW),
{
    value == LIVE_DRAW
}

/// Builds the grid that the given draws stand for, one draw for each cell.
/// Fails when either dimension is zero.
pub fn seed_from_draws(width: usize, height: usize, draws: &Vec<i32>) -> (r: Result<
    Grid,
    GridError,
>)
    requires
        width * height <= usize::MAX,
        draws@.len() == width * height,
    ensures
        width > 0 && height > 0 <==> r is Ok,
        r matches Err(e) ==> e == GridError::InvalidDimensions,
        r matches Ok(g) ==> g@ == seeded_board(width as nat, height as nat, draws@),
{
    let decide = |x: usize, y: usize| -> (alive: bool)
        requires
            x < width && y < height,
        ensures
            alive == (draws@[x * height + y] == LIVE_DRAW),
        {
            proof {
                lemma_offset_in_range(x as int, y as int, width as int, height as int);
            }
            is_live_draw(draws[x * height + y])
        };
    let built = Grid::create(width, height, decide);
    proof {
        if built is Ok {
            let g = built->Ok_0;
            let want = seeded_board(width as nat, height as nat, draws@);
            assert forall|p: (int, int)| g@.live.contains(p) == want.live.contains(p) by {
                if g@.in_bounds(p.0, p.1) {
                    let x = p.0 as usize;
                    let y = p.1 as usize;
                    assert(call_ensures(decide, (x, y), g@.alive(x as int, y as int)));
                }
            }
            assert(g@.live =~= want.live);
        }
    }
    built
}

/// Builds a grid of `width` by `height` cells from `width * height` draws
/// of `rng`. Fails, without drawing, when either dimension is zero.
pub fn random_seed(width: usize, height: usize, rng: &mut StdRng) -> (r: Result<Grid, GridError>)
    requires
        width * height <= usize::MAX,
    ensures
        width > 0 && height > 0 <==> r is Ok,
        r matches Err(e) ==> e == GridError::InvalidDimensions && *final(rng) == *old(rng),
        r matches Ok(g) ==> exists|draws: Seq<i32>|
            {
                &&& draws.len() == width * height
                &&& draws_in_range(draws)
                &&& g@ == #[trigger] seeded_board(width as nat, height as nat, draws)
            },
{
    if width == 0 || height == 0 {
        return Err(GridError::InvalidDimensions);
    }
    let count = width * height;
    let mut draws: Vec<i32> = Vec::new();
    let mut k: usize = 0;
    while k < count
        invariant
            k <= count,
            draws@.len() == k,
            draws_in_range(draws@),
        decreases count - k,
    {
        let value = draw_in_range(rng, 0, DRAW_MAX);
        draws.push(value);
        k += 1;
    }
    seed_from_draws(width, height, &draws)
}

} // verus!
