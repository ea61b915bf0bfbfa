use rand::Rng;
use vstd::prelude::*;

verus! {

/// The state of one cell of the grid.
#[derive(Clone, Copy, PartialEq, Eq, Debug, Structural)]
pub enum Tile {
    Wall,
    Floor,
}

/// Why a grid could not be built.
#[derive(Clone, Copy, PartialEq, Eq, Debug, Structural)]
pub enum DungeonError {
    /// The width or the height is zero, or the rows are not all of one length.
    InvalidDimensions,
}

/// The resolution of a wall chance: a chance of `CHANCE_SCALE` is certainty.
pub const CHANCE_SCALE: u32 = 1_000_000;

/// Relies on rand::thread_rng and Rng::gen_range: a value drawn uniformly
/// from `0..bound`; gen_range panics only on an empty range.
#[verifier::external_body]
fn uniform_below(bound: u32) -> (r: u32)
    requires
        bound > 0,
    ensures
        r < bound,
{
    rand::thread_rng().gen_range(0..bound)
}

/// The tile that a draw from `0..CHANCE_SCALE` gives for a wall chance of
/// `wall_chance` out of `CHANCE_SCALE`.
pub fn tile_for_draw(draw: u32, wall_chance: u32) -> (r: Tile)
    ensures
        r == (if draw < wall_chance { Tile::Wall } else { Tile::Floor }),
{
    if draw < wall_chance {
        Tile::Wall
    } else {
        Tile::Floor
    }
}

/// Whether the cell at `(x, y)` counts as a wall for its neighbours: every
/// coordinate outside `[0, w) x [0, h)` does.
pub open spec fn is_wall(g: Seq<Seq<Tile>>, w: int, h: int, x: int, y: int) -> bool {
    x < 0 || y < 0 || x >= w || y >= h || g[y][x] == Tile::Wall
}

pub open spec fn wall_bit(g: Seq<Seq<Tile>>, w: int, h: int, x: int, y: int) -> nat {
    if is_wall(g, w, h, x, y) { 1 } else { 0 }
}

/// The number of walls among the eight cells around `(x, y)`.
pub open spec fn wall_count(g: Seq<Seq<Tile>>, w: int, h: int, x: int, y: int) -> nat {
    wall_bit(g, w, h, x - 1, y - 1) + wall_bit(g, w, h, x, y - 1) + wall_bit(g, w, h, x + 1, y - 1)
        + wall_bit(g, w, h, x - 1, y) + wall_bit(g, w, h, x + 1, y)
        + wall_bit(g, w, h, x - 1, y + 1) + wall_bit(g, w, h, x, y + 1)
        + wall_bit(g, w, h, x + 1, y + 1)
}

/// The rule: more than four walls around makes a wall, fewer makes a floor,
/// exactly four keeps the cell as it is.
pub open spec fn next_tile(g: Seq<Seq<Tile>>, w: int, h: int, x: int, y: int) -> Tile {
    let n = wall_count(g, w, h, x, y);
    if n > 4 {
        Tile::Wall
    } else if n < 4 {
        Tile::Floor
    } else {
        g[y][x]
    }
}

/// Row `y` of the next generation.
pub open spec fn next_row(g: Seq<Seq<Tile>>, w: int, h: int, y: int) -> Seq<Tile> {
    Seq::new(w as nat, |x: int| next_tile(g, w, h, x, y))
}

/// The next generation, every cell computed from `g` alone.
pub open spec fn next_grid(g: Seq<Seq<Tile>>, w: int, h: int) -> Seq<Seq<Tile>> {
    Seq::new(h as nat, |y: int| next_row(g, w, h, y))
}

/// Whether the rule changes at least one cell of `g`.
pub open spec fn grid_changed(g: Seq<Seq<Tile>>, w: int, h: int) -> bool {
    exists|x: int, y: int| 0 <= x < w && 0 <= y < h && #[trigger] next_tile(g, w, h, x, y) != g[y][x]
}

/// Whether `g` has `h` rows of `w` cells each.
pub open spec fn is_rectangle(g: Seq<Seq<Tile>>, w: int, h: int) -> bool {
    &&& g.len() == h
    &&& forall|y: int| 0 <= y < h ==> #[trigger] g[y].len() == w
}

/// A rectangular grid of tiles whose shape is fixed when it is built.
#[derive(Debug)]
pub struct Dungeon {
    width: usize,
    height: usize,
    tiles: Vec<Vec<Tile>>,
}

impl View for Dungeon {
    type V = Seq<Seq<Tile>>;

    /// The rows of the grid, top to bottom; cell `(x, y)` is `self@[y][x]`.
    closed spec fn view(&self) -> Seq<Seq<Tile>> {
        self.tiles@.map_values(|row: Vec<Tile>| row@)
    }
}

impl Dungeon {
    pub closed spec fn spec_width(&self) -> int {
        self.width as int
    }

    pub closed spec fn spec_height(&self) -> int {
        self.height as int
    }

    /// Both dimensions are positive and the rows match them.
    pub closed spec fn wf(&self) -> bool {
        &&& self.width > 0
        &&& self.height > 0
        &&& self.tiles@.len() == self.height
        &&& forall|y: int| 0 <= y < self.height ==> (#[trigger] self.tiles@[y])@.len() == self.width
    }

    /// The walls around `(x, y)`, with the outside of the grid counted as wall.
    pub open spec fn wall_neighbors(&self, x: int, y: int) -> nat {
        wall_count(self@, self.spec_width(), self.spec_height(), x, y)
    }

    pub proof fn lemma_shape(&self)
        requires
            self.wf(),
        ensures
            self.spec_width() > 0,
            self.spec_height() > 0,
            is_rectangle(self@, self.spec_width(), self.spec_height()),
    {
    }

    /// A grid of `width` by `height` cells, all walls.
    pub fn new(width: usize, height: usize) -> (r: Result<Dungeon, DungeonError>)
        ensures
            r is Err <==> (width == 0 || height == 0),
            r is Err ==> r == Err::<Dungeon, DungeonError>(DungeonError::InvalidDimensions),
            r matches Ok(d) ==> {
                &&& d.wf()
                &&& d.spec_width() == width
                &&& d.spec_height() == height
                &&& is_rectangle(d@, width as int, height as int)
                &&& forall|x: int, y: int|
                    0 <= x < width && 0 <= y < height ==> #[trigger] d@[y][x] == Tile::Wall
            },
    {
        if width == 0 || height == 0 {
            return Err(DungeonError::InvalidDimensions);
        }
        let mut tiles: Vec<Vec<Tile>> = Vec::new();
        let mut y: usize = 0;
        while y < height
            invariant
                y <= height,
                tiles@.len() == y,
                forall|j: int| 0 <= j < y ==> (#[trigger] tiles@[j])@.len() == width,
                forall|j: int, x: int| 0 <= j < y && 0 <= x < width ==> #[trigger] tiles@[j]@[x] == Tile::Wall,
            decreases height - y,
        {
            let row: Vec<Tile> = vec![Tile::Wall; width];
            tiles.push(row);
            y = y + 1;
        }
        let d = Dungeon { width, height, tiles };
        assert forall|x: int, y: int| 0 <= x < width && 0 <= y < height implies #[trigger] d@[y][x] == Tile::Wall by {
            assert(d@[y] == d.tiles@[y]@);
        }
        Ok(d)
    }

    /// Whether the neighbour at offset `(dx, dy)` of `(x, y)` is a wall.
    fn neighbor_is_wall(&self, x: usize, y: usize, dx: i8, dy: i8) -> (r: bool)
        requires
            self.wf(),
            x < self.spec_width(),
            y < self.spec_height(),
            -1 <= dx <= 1,
            -1 <= dy <= 1,
        ensures
            r == is_wall(self@, self.spec_width(), self.spec_height(), x + dx, y + dy),
    {
        if (dx < 0 && x == 0) || (dy < 0 && y == 0) {
            return true;
        }
        let nx: usize = if dx < 0 { x - 1 } else if dx > 0 { x + 1 } else { x };
        let ny: usize = if dy < 0 { y - 1 } else if dy > 0 { y + 1 } else { y };
        if nx >= self.width || ny >= self.height {
            true
        } else {
            assert(self@[ny as int] == self.tiles@[ny as int]@);
            self.tiles[ny][nx] == Tile::Wall
        }
    }

    /// The number of walls among the eight neighbours of `(x, y)`; a
    /// neighbour outside the grid counts as a wall.
    pub fn count_wall_neighbors(&self, x: usize, y: usize) -> (r: usize)
        requires
            self.wf(),
            x < self.spec_width(),
            y < self.spec_height(),
        ensures
            r == self.wall_neighbors(x as int, y as int),
            r <= 8,
    {
        let mut count: usize = 0;
        if self.neighbor_is_wall(x, y, -1, -1) { count += 1; }
        if self.neighbor_is_wall(x, y, 0, -1) { count += 1; }
        if self.neighbor_is_wall(x, y, 1, -1) { count += 1; }
        if self.neighbor_is_wall(x, y, -1, 0) { count += 1; }
        if self.neighbor_is_wall(x, y, 1, 0) { count += 1; }
        if self.neighbor_is_wall(x, y, -1, 1) { count += 1; }
        if self.neighbor_is_wall(x, y, 0, 1) { count += 1; }
        if self.neighbor_is_wall(x, y, 1, 1) { count += 1; }
        count
    }
    /// Replaces the grid by its next generation, every cell computed from the
    /// grid as it was before the call; returns whether any cell changed.
    pub fn simulate_step(&mut self) -> (changed: bool)
        requires
            old(self).wf(),
        ensures
            final(self).wf(),
            final(self).spec_width() == old(self).spec_width(),
            final(self).spec_height() == old(self).spec_height(),
            final(self)@ == next_grid(old(self)@, old(self).spec_width(), old(self).spec_height()),
            changed == grid_changed(old(self)@, old(self).spec_width(), old(self).spec_height()),
    {
        let ghost g = self@;
        let ghost w = self.spec_width();
        let ghost h = self.spec_height();
        let mut new_tiles: Vec<Vec<Tile>> = Vec::new();
        let mut changed = false;
        let mut y: usize = 0;
        while y < self.height
            invariant
                self.wf(),
                self@ == g,
                w == self.spec_width(),
                h == self.spec_height(),
                y <= h,
                new_tiles@.len() == y,
                forall|j: int| 0 <= j < y ==> (#[trigger] new_tiles@[j])@ == next_row(g, w, h, j),
                changed <==> exists|i: int, j: int|
                    0 <= i < w && 0 <= j < y && #[trigger] next_tile(g, w, h, i, j) != g[j][i],
            decreases h - y,
        {
            let mut row: Vec<Tile> = Vec::new();
            let mut x: usize = 0;
            while x < self.width
                invariant
                    self.wf(),
                    self@ == g,
                    w == self.spec_width(),
                    h == self.spec_height(),
                    y < h,
                    x <= w,
                    row@.len() == x,
                    forall|i: int| 0 <= i < x ==> #[trigger] row@[i] == next_tile(g, w, h, i, y as int),
                    changed <==> (exists|i: int, j: int|
                        0 <= i < w && 0 <= j < y && #[trigger] next_tile(g, w, h, i, j) != g[j][i])
                        || (exists|i: int|
                        0 <= i < x && #[trigger] next_tile(g, w, h, i, y as int) != g[y as int][i]),
                decreases w - x,
            {
                let wall_count = self.count_wall_neighbors(x, y);
                assert(g[y as int] == self.tiles@[y as int]@);
                let current = self.tiles[y][x];
                let new_tile = if wall_count > 4 {
                    Tile::Wall
                } else if wall_count < 4 {
                    Tile::Floor
                } else {
                    current
                };
                assert(new_tile == next_tile(g, w, h, x as int, y as int));
                assert(current == g[y as int][x as int]);
                if new_tile != current {
                    changed = true;
                }
                row.push(new_tile);
                x = x + 1;
            }
            assert(row@ =~= next_row(g, w, h, y as int));
            assert(changed <==> exists|i: int, j: int|
                0 <= i < w && 0 <= j < y + 1 && #[trigger] next_tile(g, w, h, i, j) != g[j][i]) by {
                if changed {
                    if exists|i: int| 0 <= i < w && #[trigger] next_tile(g, w, h, i, y as int) != g[y as int][i] {
                        let i = choose|i: int| 0 <= i < w && #[trigger] next_tile(g, w, h, i, y as int) != g[y as int][i];
                        assert(next_tile(g, w, h, i, y as int) != g[y as int][i]);
                    }
                }
            }
            new_tiles.push(row);
            y = y + 1;
        }
        self.tiles = new_tiles;
        assert(self@ =~~= next_grid(g, w, h));
        changed
    }
    /// A grid with the given rows, top to bottom; they must be non-empty and
    /// all of one non-zero length.
    pub fn from_rows(rows: Vec<Vec<Tile>>) -> (r: Result<Dungeon, DungeonError>)
        ensures
            r is Ok <==> (rows@.len() > 0 && rows@[0]@.len() > 0
                && forall|y: int| 0 <= y < rows@.len() ==> (#[trigger] rows@[y])@.len() == rows@[0]@.len()),
            r is Err ==> r == Err::<Dungeon, DungeonError>(DungeonError::InvalidDimensions),
            r matches Ok(d) ==> {
                &&& d.wf()
                &&& d.spec_height() == rows@.len()
                &&& d.spec_width() == rows@[0]@.len()
                &&& d@ == rows@.map_values(|row: Vec<Tile>| row@)
            },
    {
        let height = rows.len();
        if height == 0 {
            return Err(DungeonError::InvalidDimensions);
        }
        let width = rows[0].len();
        if width == 0 {
            return Err(DungeonError::InvalidDimensions);
        }
        let mut y: usize = 0;
        while y < height
            invariant
                height == rows@.len(),
                width == rows@[0]@.len(),
                y <= height,
                forall|j: int| 0 <= j < y ==> (#[trigger] rows@[j])@.len() == width,
            decreases height - y,
        {
            if rows[y].len() != width {
                return Err(DungeonError::InvalidDimensions);
            }
            y = y + 1;
        }
        Ok(Dungeon { width, height, tiles: rows })
    }

    pub fn width(&self) -> (r: usize)
        ensures
            r == self.spec_width(),
    {
        self.width
    }

    pub fn height(&self) -> (r: usize)
        ensures
            r == self.spec_height(),
    {
        self.height
    }

    /// The tile at column `x` of row `y`.
    pub fn tile(&self, x: usize, y: usize) -> (r: Tile)
        requires
            self.wf(),
            x < self.spec_width(),
            y < self.spec_height(),
        ensures
            r == self@[y as int][x as int],
    {
        assert(self@[y as int] == self.tiles@[y as int]@);
        self.tiles[y][x]
    }

    /// Sets every cell to a wall with a chance of `wall_chance` out of
    /// `CHANCE_SCALE`, each cell drawn on its own, and to a floor otherwise.
    pub fn initialize_random(&mut self, wall_chance: u32)
        requires
            old(self).wf(),
        ensures
            final(self).wf(),
            final(self).spec_width() == old(self).spec_width(),
            final(self).spec_height() == old(self).spec_height(),
            forall|x: int, y: int| 0 <= x < final(self).spec_width() && 0 <= y < final(self).spec_height() ==> {
                &&& #[trigger] final(self)@[y][x] == Tile::Wall ==> wall_chance > 0
                &&& final(self)@[y][x] == Tile::Floor ==> wall_chance < CHANCE_SCALE
            },
    {
        let mut tiles: Vec<Vec<Tile>> = Vec::new();
        let mut y: usize = 0;
        while y < self.height
            invariant
                self.wf(),
                y <= self.height,
                tiles@.len() == y,
                forall|j: int| 0 <= j < y ==> (#[trigger] tiles@[j])@.len() == self.width,
                forall|i: int, j: int| 0 <= i < self.width && 0 <= j < y ==> {
                    &&& #[trigger] tiles@[j]@[i] == Tile::Wall ==> wall_chance > 0
                    &&& tiles@[j]@[i] == Tile::Floor ==> wall_chance < CHANCE_SCALE
                },
            decreases self.height - y,
        {
            let mut row: Vec<Tile> = Vec::new();
            let mut x: usize = 0;
            while x < self.width
                invariant
                    x <= self.width,
                    row@.len() == x,
                    forall|i: int| 0 <= i < x ==> {
                        &&& #[trigger] row@[i] == Tile::Wall ==> wall_chance > 0
                        &&& row@[i] == Tile::Floor ==> wall_chance < CHANCE_SCALE
                    },
                decreases self.width - x,
            {
                let draw = uniform_below(CHANCE_SCALE);
                row.push(tile_for_draw(draw, wall_chance));
                x = x + 1;
            }
            tiles.push(row);
            y = y + 1;
        }
        self.tiles = tiles;
        assert forall|x: int, y: int| 0 <= x < self.width && 0 <= y < self.height implies
            #[trigger] self@[y][x] == self.tiles@[y]@[x] by {}
    }
}

/// On a one-by-one grid all eight neighbours of the only cell lie outside the
/// grid, so its wall count is eight.
pub proof fn lemma_single_cell_neighbors(d: Dungeon)
    requires
        d.wf(),
        d.spec_width() == 1,
        d.spec_height() == 1,
    ensures
        d.wall_neighbors(0, 0) == 8,
{
}

/// On a grid of at least two by two, the corner `(0, 0)` has five neighbours
/// outside the grid, all counted as walls, and three inside it; its count is
/// five plus the walls among those three.
pub proof fn lemma_corner_neighbors(d: Dungeon)
    requires
        d.wf(),
        d.spec_width() >= 2,
        d.spec_height() >= 2,
    ensures
        d.wall_neighbors(0, 0) == 5 + wall_bit(d@, d.spec_width(), d.spec_height(), 1, 0)
            + wall_bit(d@, d.spec_width(), d.spec_height(), 0, 1)
            + wall_bit(d@, d.spec_width(), d.spec_height(), 1, 1),
        wall_bit(d@, d.spec_width(), d.spec_height(), 1, 0) == (if d@[0][1] == Tile::Wall { 1nat } else { 0nat }),
        wall_bit(d@, d.spec_width(), d.spec_height(), 0, 1) == (if d@[1][0] == Tile::Wall { 1nat } else { 0nat }),
        wall_bit(d@, d.spec_width(), d.spec_height(), 1, 1) == (if d@[1][1] == Tile::Wall { 1nat } else { 0nat }),
{
}

/// Stepping depends on the cells and the dimensions alone: two grids that
/// agree on them step to the same grid and report the same change.
pub proof fn lemma_step_deterministic(a: Dungeon, b: Dungeon)
    requires
        a.wf(),
        b.wf(),
        a@ == b@,
        a.spec_width() == b.spec_width(),
        a.spec_height() == b.spec_height(),
    ensures
        next_grid(a@, a.spec_width(), a.spec_height()) == next_grid(b@, b.spec_width(), b.spec_height()),
        grid_changed(a@, a.spec_width(), a.spec_height()) == grid_changed(b@, b.spec_width(), b.spec_height()),
{
}

/// A grid of walls only is a fixed point: every cell sees eight walls and
/// stays a wall, so a step changes nothing.
pub proof fn lemma_all_walls_stable(d: Dungeon)
    requires
        d.wf(),
        forall|x: int, y: int| 0 <= x < d.spec_width() && 0 <= y < d.spec_height() ==> #[trigger] d@[y][x] == Tile::Wall,
    ensures
        next_grid(d@, d.spec_width(), d.spec_height()) == d@,
        !grid_changed(d@, d.spec_width(), d.spec_height()),
{
    let g = d@;
    let w = d.spec_width();
    let h = d.spec_height();
    d.lemma_shape();
    assert forall|x: int, y: int| 0 <= x < w && 0 <= y < h implies #[trigger] next_tile(g, w, h, x, y) == g[y][x] by {
        assert(is_wall(g, w, h, x - 1, y - 1));
        assert(is_wall(g, w, h, x, y - 1));
        assert(is_wall(g, w, h, x + 1, y - 1));
        assert(is_wall(g, w, h, x - 1, y));
        assert(is_wall(g, w, h, x + 1, y));
        assert(is_wall(g, w, h, x - 1, y + 1));
        assert(is_wall(g, w, h, x, y + 1));
        assert(is_wall(g, w, h, x + 1, y + 1));
    }
    assert forall|y: int| 0 <= y < h implies #[trigger] next_row(g, w, h, y) == g[y] by {
        assert(next_row(g, w, h, y) =~= g[y]);
    }
    assert(next_grid(g, w, h) =~= g);
}

} // verus!
