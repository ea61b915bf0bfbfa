use dungeon::dungeon::{tile_for_draw, Dungeon, DungeonError, Tile, CHANCE_SCALE};

const W: Tile = Tile::Wall;
const F: Tile = Tile::Floor;

fn grid(rows: &[&[Tile]]) -> Dungeon {
    Dungeon::from_rows(rows.iter().map(|r| r.to_vec()).collect()).unwrap()
}

fn cells(d: &Dungeon) -> Vec<Vec<Tile>> {
    (0..d.height()).map(|y| (0..d.width()).map(|x| d.tile(x, y)).collect()).collect()
}

#[test]
fn new_grid_is_all_walls() {
    let d = Dungeon::new(4, 3).unwrap();
    assert_eq!(d.width(), 4);
    assert_eq!(d.height(), 3);
    assert_eq!(cells(&d), vec![vec![W; 4]; 3]);
}

#[test]
fn new_rejects_zero_dimensions() {
    assert_eq!(Dungeon::new(0, 3).unwrap_err(), DungeonError::InvalidDimensions);
    assert_eq!(Dungeon::new(3, 0).unwrap_err(), DungeonError::InvalidDimensions);
    assert_eq!(Dungeon::new(0, 0).unwrap_err(), DungeonError::InvalidDimensions);
}

#[test]
fn from_rows_rejects_bad_shapes() {
    assert_eq!(Dungeon::from_rows(vec![]).unwrap_err(), DungeonError::InvalidDimensions);
    assert_eq!(Dungeon::from_rows(vec![vec![], vec![]]).unwrap_err(), DungeonError::InvalidDimensions);
    assert_eq!(
        Dungeon::from_rows(vec![vec![W, F], vec![F]]).unwrap_err(),
        DungeonError::InvalidDimensions
    );
}

#[test]
fn from_rows_keeps_cells() {
    let d = grid(&[&[W, F, F], &[F, F, W]]);
    assert_eq!(d.width(), 3);
    assert_eq!(d.height(), 2);
    assert_eq!(cells(&d), vec![vec![W, F, F], vec![F, F, W]]);
}

#[test]
fn single_cell_has_eight_wall_neighbors() {
    let d = Dungeon::new(1, 1).unwrap();
    assert_eq!(d.count_wall_neighbors(0, 0), 8);
    let d = grid(&[&[F]]);
    assert_eq!(d.count_wall_neighbors(0, 0), 8);
}

#[test]
fn corner_counts_five_outside_neighbors() {
    let d = grid(&[&[F, F], &[F, F]]);
    assert_eq!(d.count_wall_neighbors(0, 0), 5);
    let d = grid(&[&[F, W, F], &[F, W, F], &[F, F, F]]);
    assert_eq!(d.count_wall_neighbors(0, 0), 7);
    let d = grid(&[&[F, F, F], &[W, F, F], &[F, F, F]]);
    assert_eq!(d.count_wall_neighbors(0, 0), 6);
}

#[test]
fn inner_and_edge_counts() {
    let d = grid(&[&[W, F, W], &[F, F, F], &[W, W, F]]);
    assert_eq!(d.count_wall_neighbors(1, 1), 4);
    assert_eq!(d.count_wall_neighbors(1, 0), 5);
    assert_eq!(d.count_wall_neighbors(2, 2), 6);
}

#[test]
fn step_is_deterministic() {
    let rows: &[&[Tile]] = &[&[W, F, W, F], &[F, F, W, W], &[W, F, F, F]];
    let mut a = grid(rows);
    let mut b = grid(rows);
    let ca = a.simulate_step();
    let cb = b.simulate_step();
    assert_eq!(ca, cb);
    assert_eq!(cells(&a), cells(&b));
}

#[test]
fn step_reads_a_snapshot_of_the_grid() {
    let mut d = grid(&[&[F, F, F], &[F, F, F], &[F, F, F]]);
    assert!(d.simulate_step());
    assert_eq!(cells(&d), vec![vec![W, F, W], vec![F, F, F], vec![W, F, W]]);
}

#[test]
fn four_walls_keep_the_cell() {
    // (1, 1) sees four walls and keeps its tile in both grids.
    let mut d = grid(&[&[W, F, W], &[F, F, F], &[W, F, W]]);
    d.simulate_step();
    assert_eq!(d.tile(1, 1), F);
    let mut d = grid(&[&[W, F, W], &[F, W, F], &[W, F, W]]);
    d.simulate_step();
    assert_eq!(d.tile(1, 1), W);
}

#[test]
fn all_walls_is_stable() {
    let mut d = Dungeon::new(5, 5).unwrap();
    d.initialize_random(CHANCE_SCALE);
    assert_eq!(cells(&d), vec![vec![W; 5]; 5]);
    assert!(!d.simulate_step());
    assert_eq!(cells(&d), vec![vec![W; 5]; 5]);
}

#[test]
fn zero_chance_gives_floors() {
    let mut d = Dungeon::new(6, 4).unwrap();
    d.initialize_random(0);
    assert_eq!(d.width(), 6);
    assert_eq!(d.height(), 4);
    assert_eq!(cells(&d), vec![vec![F; 6]; 4]);
}

#[test]
fn tile_for_draw_compares_with_chance() {
    assert_eq!(tile_for_draw(0, 1), W);
    assert_eq!(tile_for_draw(449_999, 450_000), W);
    assert_eq!(tile_for_draw(450_000, 450_000), F);
    assert_eq!(tile_for_draw(0, 0), F);
    assert_eq!(tile_for_draw(CHANCE_SCALE - 1, CHANCE_SCALE), W);
}
