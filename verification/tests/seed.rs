use life_grid::grid::Grid;
use life_grid::grid::GridError;
use life_grid::seed::is_live_draw;
use life_grid::seed::random_seed;
use life_grid::seed::seed_from_draws;
use life_grid::seed::DRAW_MAX;
use life_grid::seed::LIVE_DRAW;
use life_grid::simulator::live_cells;
use rand::rngs::StdRng;
use rand::Rng;
use rand::SeedableRng;

#[test]
fn draw_constants() {
    assert_eq!(DRAW_MAX, 8);
    assert_eq!(LIVE_DRAW, 1);
}

#[test]
fn only_one_draw_is_live() {
    for value in 0..=8 {
        assert_eq!(is_live_draw(value), value == 1, "draw {}", value);
    }
    assert!(!is_live_draw(-1));
    assert!(!is_live_draw(9));
}

#[test]
fn seed_from_draws_reads_each_draw() {
    let draws = vec![1, 0, 2, 1, 8, 1];
    let grid = seed_from_draws(2, 3, &draws).unwrap();
    assert_eq!(grid.dimensions(), (2, 3));
    assert!(grid.get(0, 0));
    assert!(!grid.get(0, 1));
    assert!(!grid.get(0, 2));
    assert!(grid.get(1, 0));
    assert!(!grid.get(1, 1));
    assert!(grid.get(1, 2));
}

#[test]
fn seed_from_draws_places_draws_by_x_then_y() {
    let draws = vec![0, 0, 0, 0, 1, 0];
    let grid = seed_from_draws(2, 3, &draws).unwrap();
    let expected = Grid::create(2, 3, |x, y| x == 1 && y == 1).unwrap();
    assert_eq!(grid, expected);
    let wide = seed_from_draws(3, 2, &draws).unwrap();
    let expected_wide = Grid::create(3, 2, |x, y| x == 2 && y == 0).unwrap();
    assert_eq!(wide, expected_wide);
}

#[test]
fn seed_from_draws_rejects_zero_dimensions() {
    let none: Vec<i32> = Vec::new();
    assert_eq!(
        seed_from_draws(0, 4, &none),
        Err(GridError::InvalidDimensions)
    );
    assert_eq!(
        seed_from_draws(4, 0, &none),
        Err(GridError::InvalidDimensions)
    );
    assert_eq!(
        seed_from_draws(0, 0, &none),
        Err(GridError::InvalidDimensions)
    );
}

#[test]
fn seed_from_draws_is_deterministic() {
    let draws: Vec<i32> = (0..48).map(|k| (k * 7) % 9).collect();
    assert_eq!(
        seed_from_draws(6, 8, &draws).unwrap(),
        seed_from_draws(6, 8, &draws).unwrap()
    );
}

#[test]
fn random_seed_rejects_zero_dimensions() {
    let mut rng = StdRng::seed_from_u64(1);
    assert_eq!(
        random_seed(0, 3, &mut rng),
        Err(GridError::InvalidDimensions)
    );
    assert_eq!(
        random_seed(3, 0, &mut rng),
        Err(GridError::InvalidDimensions)
    );
}

#[test]
fn random_seed_draws_nothing_on_failure() {
    let mut rng = StdRng::seed_from_u64(5);
    let untouched = rng.clone();
    assert!(random_seed(0, 0, &mut rng).is_err());
    assert_eq!(rng, untouched);
}

#[test]
fn random_seed_has_the_dimensions_asked_for() {
    let mut rng = StdRng::seed_from_u64(3);
    let grid = random_seed(12, 5, &mut rng).unwrap();
    assert_eq!(grid.dimensions(), (12, 5));
}

#[test]
fn random_seed_is_the_same_for_the_same_seed() {
    let mut first = StdRng::seed_from_u64(2024);
    let mut second = StdRng::seed_from_u64(2024);
    let a = random_seed(40, 30, &mut first).unwrap();
    let b = random_seed(40, 30, &mut second).unwrap();
    assert_eq!(a, b);
    assert_eq!(live_cells(&a), live_cells(&b));
}

#[test]
fn random_seed_differs_between_seeds() {
    let mut first = StdRng::seed_from_u64(1);
    let mut second = StdRng::seed_from_u64(2);
    let a = random_seed(40, 30, &mut first).unwrap();
    let b = random_seed(40, 30, &mut second).unwrap();
    assert_ne!(a, b);
}

#[test]
fn random_seed_makes_one_draw_per_cell() {
    let mut rng = StdRng::seed_from_u64(77);
    let mut same = rng.clone();
    let _ = random_seed(6, 4, &mut rng).unwrap();
    for _ in 0..24 {
        let _: i32 = same.gen_range(0..=8);
    }
    assert_eq!(rng, same);
}

#[test]
fn random_seed_follows_the_draws() {
    let mut rng = StdRng::seed_from_u64(99);
    let mut same = rng.clone();
    let grid = random_seed(7, 9, &mut rng).unwrap();
    let draws: Vec<i32> = (0..63).map(|_| same.gen_range(0..=8)).collect();
    assert_eq!(grid, seed_from_draws(7, 9, &draws).unwrap());
    for x in 0..7 {
        for y in 0..9 {
            assert_eq!(grid.get(x, y), draws[x * 9 + y] == 1);
        }
    }
}

#[test]
fn random_seed_makes_some_cells_live_and_leaves_most_dead() {
    let mut rng = StdRng::seed_from_u64(11);
    let grid = random_seed(100, 90, &mut rng).unwrap();
    let live = live_cells(&grid).len();
    assert!(live > 0);
    assert!(live < 9000);
    assert!(live > 9000 / 18, "{} live cells", live);
    assert!(live < 9000 / 5, "{} live cells", live);
}
