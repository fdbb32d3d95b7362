//! The tile grid: outer walls, scattered obstacles, walkability.

use vstd::prelude::*;
use vstd::arithmetic::div_mod::lemma_fundamental_div_mod_converse;
use crate::draw::{scale, scale_index, lemma_scale_bounds, Draw};

verus! {

/// What occupies one cell of the grid.
#[derive(Clone, Copy, PartialEq, Eq, Structural, Debug)]
pub enum TileType {
    Empty,
    Wall,
    Obstacle,
}

/// One cell in this many is meant to hold an obstacle.
pub const OBSTACLE_SHARE: usize = 10;

/// Candidate cells tried for each obstacle that is wanted.
pub const ATTEMPTS_PER_OBSTACLE: usize = 100;

/// The cell lies in the outermost row or column of a `width` by `height` grid.
pub open spec fn on_border(width: int, height: int, x: int, y: int) -> bool {
    x == 0 || y == 0 || x == width - 1 || y == height - 1
}

/// The cell belongs to the two-by-two block around the spawn point, which
/// stays free of obstacles.
pub open spec fn in_spawn_area(x: int, y: int) -> bool {
    1 <= x <= 2 && 1 <= y <= 2
}

/// The grid before any obstacle is placed, row by row: walls all around,
/// nothing inside.
pub open spec fn walled_grid(width: int, height: int) -> Seq<TileType> {
    Seq::new(
        (width * height) as nat,
        |i: int|
            if on_border(width, height, i % width, i / width) {
                TileType::Wall
            } else {
                TileType::Empty
            },
    )
}

/// How many obstacles a grid of this size aims for.
pub open spec fn obstacle_target(width: int, height: int) -> int {
    (width * height) / (OBSTACLE_SHARE as int)
}

/// How many candidate cells may be tried for a grid of this size.
pub open spec fn attempt_limit(width: int, height: int) -> int {
    obstacle_target(width, height) * (ATTEMPTS_PER_OBSTACLE as int)
}

/// The number of obstacles among `tiles`.
pub open spec fn obstacle_count(tiles: Seq<TileType>) -> nat
    decreases tiles.len(),
{
    if tiles.len() == 0 {
        0
    } else {
        obstacle_count(tiles.drop_last()) + if tiles.last() == TileType::Obstacle {
            1nat
        } else {
            0nat
        }
    }
}

/// The interior cell that a draw picks, as a row-major index.
pub open spec fn drawn_cell(width: int, height: int, draw: Draw) -> (int, int) {
    (1 + scale(draw.0, width - 2), 1 + scale(draw.1, height - 2))
}

/// One attempt: the drawn cell becomes an obstacle if the target is not yet
/// met, the cell is empty and it lies outside the spawn area.
pub open spec fn scatter_step(
    tiles: Seq<TileType>,
    width: int,
    height: int,
    draw: Draw,
) -> Seq<TileType> {
    let (x, y) = drawn_cell(width, height, draw);
    let i = y * width + x;
    if obstacle_count(tiles) < obstacle_target(width, height) && !in_spawn_area(x, y) && tiles[i]
        == TileType::Empty {
        tiles.update(i, TileType::Obstacle)
    } else {
        tiles
    }
}

/// The grid after one attempt for each of `draws`, in order.
pub open spec fn scatter(tiles: Seq<TileType>, width: int, height: int, draws: Seq<Draw>) -> Seq<
    TileType,
>
    decreases draws.len(),
{
    if draws.len() == 0 {
        tiles
    } else {
        scatter_step(scatter(tiles, width, height, draws.drop_last()), width, height, draws.last())
    }
}

/// The draws that generation consumes at most: as many as the attempt limit
/// allows.
pub open spec fn usable_draws(width: int, height: int, draws: Seq<Draw>) -> Seq<Draw> {
    if draws.len() <= attempt_limit(width, height) {
        draws
    } else {
        draws.take(attempt_limit(width, height))
    }
}

/// The generated grid: walls all around, then obstacles scattered over the
/// interior from the draws. A grid without interior keeps its walls only.
pub open spec fn generated_tiles(width: int, height: int, draws: Seq<Draw>) -> Seq<TileType> {
    if width < 3 || height < 3 {
        walled_grid(width, height)
    } else {
        scatter(walled_grid(width, height), width, height, usable_draws(width, height, draws))
    }
}

/// What holds of every generated grid: it has one tile per cell, its walls
/// are exactly its border, the spawn area holds no obstacle, and there are no
/// more obstacles than the target.
pub open spec fn well_shaped(tiles: Seq<TileType>, width: int, height: int) -> bool {
    &&& tiles.len() == width * height
    &&& forall|x: int, y: int|
        0 <= x < width && 0 <= y < height ==> {
            let tile = #[trigger] tiles[y * width + x];
            &&& on_border(width, height, x, y) <==> tile == TileType::Wall
            &&& in_spawn_area(x, y) ==> tile != TileType::Obstacle
        }
    &&& obstacle_count(tiles) <= obstacle_target(width, height)
}

/// A cell of the grid has exactly one row-major index, and the index gives
/// the cell back.
pub proof fn lemma_cell_index(width: int, height: int, x: int, y: int)
    requires
        0 <= x < width,
        0 <= y < height,
    ensures
        0 <= y * width + x < width * height,
        (y * width + x) % width == x,
        (y * width + x) / width == y,
{
    assert(0 <= y * width && y * width + width <= height * width) by (nonlinear_arith)
        requires
            0 <= y < height,
            width > 0,
    ;
    assert(height * width == width * height) by (nonlinear_arith);
    lemma_fundamental_div_mod_converse(y * width + x, width, y, x);
}

/// Distinct cells have distinct indices.
pub proof fn lemma_cell_index_injective(width: int, height: int, x1: int, y1: int, x2: int, y2: int)
    requires
        0 <= x1 < width,
        0 <= y1 < height,
        0 <= x2 < width,
        0 <= y2 < height,
        y1 * width + x1 == y2 * width + x2,
    ensures
        x1 == x2,
        y1 == y2,
{
    lemma_cell_index(width, height, x1, y1);
    lemma_cell_index(width, height, x2, y2);
}

/// A grid without obstacles counts none.
pub proof fn lemma_obstacle_count_none(tiles: Seq<TileType>)
    requires
        forall|i: int| 0 <= i < tiles.len() ==> tiles[i] != TileType::Obstacle,
    ensures
        obstacle_count(tiles) == 0,
    decreases tiles.len(),
{
    if tiles.len() > 0 {
        lemma_obstacle_count_none(tiles.drop_last());
    }
}

/// Turning one tile that is no obstacle into an obstacle adds one to the count.
pub proof fn lemma_obstacle_count_update(tiles: Seq<TileType>, i: int)
    requires
        0 <= i < tiles.len(),
        tiles[i] != TileType::Obstacle,
    ensures
        obstacle_count(tiles.update(i, TileType::Obstacle)) == obstacle_count(tiles) + 1,
    decreases tiles.len(),
{
    let after = tiles.update(i, TileType::Obstacle);
    if i == tiles.len() - 1 {
        assert(after.drop_last() =~= tiles.drop_last());
    } else {
        lemma_obstacle_count_update(tiles.drop_last(), i);
        assert(after.drop_last() =~= tiles.drop_last().update(i, TileType::Obstacle));
    }
}

/// The walled grid is well shaped and holds no obstacle.
pub proof fn lemma_walled_grid_shape(width: int, height: int)
    requires
        width > 0,
        height > 0,
    ensures
        well_shaped(walled_grid(width, height), width, height),
        obstacle_count(walled_grid(width, height)) == 0,
{
    let grid = walled_grid(width, height);
    assert(width * height > 0) by (nonlinear_arith)
        requires
            width > 0,
            height > 0,
    ;
    lemma_obstacle_count_none(grid);
    assert forall|x: int, y: int| 0 <= x < width && 0 <= y < height implies {
        let tile = #[trigger] grid[y * width + x];
        &&& on_border(width, height, x, y) <==> tile == TileType::Wall
        &&& in_spawn_area(x, y) ==> tile != TileType::Obstacle
    } by {
        lemma_cell_index(width, height, x, y);
    }
    assert(obstacle_target(width, height) >= 0);
}

/// A drawn cell lies strictly inside the border.
pub proof fn lemma_drawn_cell_inside(width: int, height: int, draw: Draw)
    requires
        width >= 3,
        height >= 3,
    ensures
        1 <= drawn_cell(width, height, draw).0 <= width - 2,
        1 <= drawn_cell(width, height, draw).1 <= height - 2,
{
    lemma_scale_bounds(draw.0, width - 2);
    lemma_scale_bounds(draw.1, height - 2);
}

/// One attempt keeps a well-shaped grid well shaped.
pub proof fn lemma_scatter_step_shape(tiles: Seq<TileType>, width: int, height: int, draw: Draw)
    requires
        width >= 3,
        height >= 3,
        well_shaped(tiles, width, height),
    ensures
        well_shaped(scatter_step(tiles, width, height, draw), width, height),
{
    let (cx, cy) = drawn_cell(width, height, draw);
    let i = cy * width + cx;
    let after = scatter_step(tiles, width, height, draw);
    lemma_drawn_cell_inside(width, height, draw);
    lemma_cell_index(width, height, cx, cy);
    if after != tiles {
        lemma_obstacle_count_update(tiles, i);
        assert forall|x: int, y: int| 0 <= x < width && 0 <= y < height implies {
            let tile = #[trigger] after[y * width + x];
            &&& on_border(width, height, x, y) <==> tile == TileType::Wall
            &&& in_spawn_area(x, y) ==> tile != TileType::Obstacle
        } by {
            lemma_cell_index(width, height, x, y);
            assert(tiles[y * width + x] == tiles[y * width + x]);
            if y * width + x == i {
                lemma_cell_index_injective(width, height, x, y, cx, cy);
            }
        }
    }
}

/// Scattering keeps a well-shaped grid well shaped, whatever the draws.
pub proof fn lemma_scatter_shape(tiles: Seq<TileType>, width: int, height: int, draws: Seq<Draw>)
    requires
        width >= 3,
        height >= 3,
        well_shaped(tiles, width, height),
    ensures
        well_shaped(scatter(tiles, width, height, draws), width, height),
    decreases draws.len(),
{
    if draws.len() > 0 {
        lemma_scatter_shape(tiles, width, height, draws.drop_last());
        lemma_scatter_step_shape(
            scatter(tiles, width, height, draws.drop_last()),
            width,
            height,
            draws.last(),
        );
    }
}

/// Every generated grid is well shaped: its border is wall, its spawn area
/// holds no obstacle, and its obstacles number at most the target.
pub proof fn lemma_generated_shape(width: int, height: int, draws: Seq<Draw>)
    requires
        width > 0,
        height > 0,
    ensures
        well_shaped(generated_tiles(width, height, draws), width, height),
{
    lemma_walled_grid_shape(width, height);
    if width >= 3 && height >= 3 {
        lemma_scatter_shape(
            walled_grid(width, height),
            width,
            height,
            usable_draws(width, height, draws),
        );
    }
}

/// Once the target is met, further attempts change nothing.
pub proof fn lemma_scatter_saturated(
    tiles: Seq<TileType>,
    width: int,
    height: int,
    draws: Seq<Draw>,
    used: int,
)
    requires
        0 <= used <= draws.len(),
        obstacle_count(scatter(tiles, width, height, draws.take(used))) >= obstacle_target(
            width,
            height,
        ),
    ensures
        scatter(tiles, width, height, draws) == scatter(tiles, width, height, draws.take(used)),
    decreases draws.len() - used,
{
    if used == draws.len() {
        assert(draws.take(used) =~= draws);
    } else {
        let shorter = draws.drop_last();
        assert(shorter.take(used) =~= draws.take(used));
        lemma_scatter_saturated(tiles, width, height, shorter, used);
    }
}

/// The index, along one axis, of the tile that holds a world coordinate: the
/// coordinate divided by the tile size and cut off toward zero.
pub open spec fn tile_index(coordinate: int, tile_size: int) -> int {
    if coordinate >= 0 {
        coordinate / tile_size
    } else {
        -((-coordinate) / tile_size)
    }
}

/// A grid of tiles, with the side length of one tile in world units.
pub struct GameMap {
    width: usize,
    height: usize,
    tile_size: i64,
    tiles: Vec<TileType>,
}

impl GameMap {
    #[verifier::type_invariant]
    spec fn inv(self) -> bool {
        &&& self.width > 0
        &&& self.height > 0
        &&& self.tile_size > 0
        &&& well_shaped(self.tiles@, self.width as int, self.height as int)
    }

    /// The number of columns.
    pub closed spec fn spec_width(&self) -> usize {
        self.width
    }

    /// The number of rows.
    pub closed spec fn spec_height(&self) -> usize {
        self.height
    }

    /// The side length of a tile.
    pub closed spec fn spec_tile_size(&self) -> i64 {
        self.tile_size
    }

    /// The tiles, row by row.
    pub closed spec fn tiles(&self) -> Seq<TileType> {
        self.tiles@
    }

    /// The tile in column `x` of row `y`; outside the grid everything is wall.
    pub open spec fn tile_at(&self, x: int, y: int) -> TileType {
        if 0 <= x < self.spec_width() && 0 <= y < self.spec_height() {
            self.tiles()[y * self.spec_width() + x]
        } else {
            TileType::Wall
        }
    }

    /// The world point lies on an empty tile. A point with a negative
    /// coordinate lies outside the grid.
    pub open spec fn walkable_at(&self, x: int, y: int) -> bool {
        &&& x >= 0
        &&& y >= 0
        &&& self.tile_at(x / (self.spec_tile_size() as int), y / (self.spec_tile_size() as int))
            == TileType::Empty
    }

    /// Builds a map of `width` by `height` tiles: walls all around, then
    /// obstacles scattered over the interior, one attempt per draw.
    pub fn new(width: usize, height: usize, tile_size: i64, draws: &Vec<Draw>) -> (map: GameMap)
        requires
            width > 0,
            height > 0,
            tile_size > 0,
            width * height <= usize::MAX,
        ensures
            map.spec_width() == width,
            map.spec_height() == height,
            map.spec_tile_size() == tile_size,
            map.tiles() == generated_tiles(width as int, height as int, draws@),
            well_shaped(map.tiles(), width as int, height as int),
    {
        let tiles = Self::generate_map(width, height, draws);
        proof {
            lemma_generated_shape(width as int, height as int, draws@);
        }
        GameMap { width, height, tile_size, tiles }
    }

    #[verifier::when_used_as_spec(spec_width)]
    pub fn width(&self) -> (w: usize)
        ensures
            w == self.spec_width(),
            w > 0,
    {
        proof {
            use_type_invariant(self);
        }
        self.width
    }

    #[verifier::when_used_as_spec(spec_height)]
    pub fn height(&self) -> (h: usize)
        ensures
            h == self.spec_height(),
            h > 0,
    {
        proof {
            use_type_invariant(self);
        }
        self.height
    }

    #[verifier::when_used_as_spec(spec_tile_size)]
    pub fn tile_size(&self) -> (s: i64)
        ensures
            s == self.spec_tile_size(),
            s > 0,
    {
        proof {
            use_type_invariant(self);
        }
        self.tile_size
    }

    /// The tile of a cell. Every cell outside the grid counts as wall; inside
    /// it the border, and nothing but the border, is wall, and the spawn area
    /// is never an obstacle.
    pub fn get_tile(&self, x: usize, y: usize) -> (tile: TileType)
        ensures
            tile == self.tile_at(x as int, y as int),
            well_shaped(self.tiles(), self.spec_width() as int, self.spec_height() as int),
            tile == TileType::Wall <==> !(x < self.spec_width() && y < self.spec_height())
                || on_border(
                self.spec_width() as int,
                self.spec_height() as int,
                x as int,
                y as int,
            ),
            in_spawn_area(x as int, y as int) ==> tile != TileType::Obstacle,
    {
        proof {
            use_type_invariant(self);
        }
        if x < self.width && y < self.height {
            let cells: usize = self.tiles.len();
            proof {
                lemma_cell_index(self.width as int, self.height as int, x as int, y as int);
                assert(cells == self.width * self.height);
                assert(0 <= y * self.width) by (nonlinear_arith)
                    requires
                        y >= 0,
                        self.width > 0,
                ;
            }
            self.tiles[y * self.width + x]
        } else {
            TileType::Wall
        }
    }

    /// The tiles of a fresh map.
    fn generate_map(width: usize, height: usize, draws: &Vec<Draw>) -> (tiles: Vec<TileType>)
        requires
            width > 0,
            height > 0,
            width * height <= usize::MAX,
        ensures
            tiles@ == generated_tiles(width as int, height as int, draws@),
    {
        let ghost grid = walled_grid(width as int, height as int);
        let mut tiles: Vec<TileType> = Vec::new();
        let mut y: usize = 0;
        while y < height
            invariant
                width > 0,
                height > 0,
                width * height <= usize::MAX,
                y <= height,
                grid == walled_grid(width as int, height as int),
                tiles@.len() == y * width,
                forall|i: int| 0 <= i < tiles@.len() ==> tiles@[i] == grid[i],
            decreases height - y,
        {
            let mut x: usize = 0;
            while x < width
                invariant
                    width > 0,
                    height > 0,
                    width * height <= usize::MAX,
                    y < height,
                    x <= width,
                    grid == walled_grid(width as int, height as int),
                    tiles@.len() == y * width + x,
                    forall|i: int| 0 <= i < tiles@.len() ==> tiles@[i] == grid[i],
                decreases width - x,
            {
                proof {
                    lemma_cell_index(width as int, height as int, x as int, y as int);
                }
                let tile = if x == 0 || y == 0 || x == width - 1 || y == height - 1 {
                    TileType::Wall
                } else {
                    TileType::Empty
                };
                tiles.push(tile);
                x = x + 1;
            }
            proof {
                assert((y + 1) * width == y * width + width) by (nonlinear_arith);
            }
            y = y + 1;
        }
        proof {
            assert(tiles@.len() == width * height) by (nonlinear_arith)
                requires
                    y == height,
                    tiles@.len() == y * width,
            ;
            assert(tiles@ =~= grid);
            lemma_walled_grid_shape(width as int, height as int);
        }
        if width < 3 || height < 3 {
            return tiles;
        }
        let target: usize = (width * height) / OBSTACLE_SHARE;
        let limit: u128 = (target as u128) * (ATTEMPTS_PER_OBSTACLE as u128);
        let mut placed: usize = 0;
        let mut attempts: usize = 0;
        while placed < target && (attempts as u128) < limit && attempts < draws.len()
            invariant
                width >= 3,
                height >= 3,
                width * height <= usize::MAX,
                grid == walled_grid(width as int, height as int),
                target == obstacle_target(width as int, height as int),
                limit == attempt_limit(width as int, height as int),
                attempts <= draws@.len(),
                attempts <= limit,
                tiles@ == scatter(grid, width as int, height as int, draws@.take(attempts as int)),
                well_shaped(tiles@, width as int, height as int),
                placed == obstacle_count(tiles@),
                placed <= target,
            decreases draws@.len() - attempts,
        {
            let draw: Draw = draws[attempts];
            let x: usize = scale_index(draw.0, width - 2) + 1;
            let y: usize = scale_index(draw.1, height - 2) + 1;
            let ghost before = tiles@;
            proof {
                lemma_drawn_cell_inside(width as int, height as int, draw);
                lemma_cell_index(width as int, height as int, x as int, y as int);
                lemma_scatter_step_shape(before, width as int, height as int, draw);
            }
            let i: usize = y * width + x;
            let in_spawn: bool = x <= 2 && y <= 2;
            if !in_spawn && tiles[i] == TileType::Empty {
                tiles.set(i, TileType::Obstacle);
                placed = placed + 1;
                proof {
                    lemma_obstacle_count_update(before, i as int);
                }
            }
            attempts = attempts + 1;
            proof {
                let taken = draws@.take(attempts as int);
                assert(taken.drop_last() =~= draws@.take(attempts - 1));
                assert(taken.last() == draw);
            }
        }
        proof {
            let w = width as int;
            let h = height as int;
            let usable = usable_draws(w, h, draws@);
            assert(attempts <= usable.len());
            assert(usable.take(attempts as int) =~= draws@.take(attempts as int));
            if placed >= target {
                lemma_scatter_saturated(grid, w, h, usable, attempts as int);
            } else {
                assert(usable.take(attempts as int) =~= usable);
            }
        }
        tiles
    }

    /// Whether the world point lies on an empty tile. The coordinates are
    /// divided by the tile size and cut off toward zero.
    pub fn is_walkable(&self, x: i64, y: i64) -> (walkable: bool)
        ensures
            walkable == self.walkable_at(x as int, y as int),
    {
        proof {
            use_type_invariant(self);
        }
        if x < 0 || y < 0 {
            return false;
        }
        let tile_x: u64 = (x as u64) / (self.tile_size as u64);
        let tile_y: u64 = (y as u64) / (self.tile_size as u64);
        if tile_x >= self.width as u64 || tile_y >= self.height as u64 {
            return false;
        }
        self.get_tile(tile_x as usize, tile_y as usize) == TileType::Empty
    }
}

/// On a well-shaped map a point is walkable exactly if the tile that its
/// coordinates give, each divided by the tile size and cut off toward zero, is
/// empty: a coordinate below zero leads to the border or off the grid, where
/// nothing is empty. A walkable point therefore lies inside the border.
pub proof fn lemma_walkable_by_truncation(map: GameMap, x: int, y: int)
    requires
        map.spec_tile_size() > 0,
        well_shaped(map.tiles(), map.spec_width() as int, map.spec_height() as int),
    ensures
        map.walkable_at(x, y) <==> map.tile_at(
            tile_index(x, map.spec_tile_size() as int),
            tile_index(y, map.spec_tile_size() as int),
        ) == TileType::Empty,
        map.walkable_at(x, y) ==> {
            &&& map.spec_tile_size() <= x < (map.spec_width() - 1) * map.spec_tile_size()
            &&& map.spec_tile_size() <= y < (map.spec_height() - 1) * map.spec_tile_size()
        },
{
    let size = map.spec_tile_size() as int;
    let width = map.spec_width() as int;
    let height = map.spec_height() as int;
    let column = tile_index(x, size);
    let row = tile_index(y, size);
    assert(x < 0 ==> column <= 0) by (nonlinear_arith)
        requires
            size > 0,
            column == tile_index(x, size),
    ;
    assert(y < 0 ==> row <= 0) by (nonlinear_arith)
        requires
            size > 0,
            row == tile_index(y, size),
    ;
    if 0 <= column < width && 0 <= row < height {
        let tile = map.tiles()[row * width + column];
        assert(on_border(width, height, column, row) <==> tile == TileType::Wall);
        if tile == TileType::Empty {
            assert(1 <= column <= width - 2 && 1 <= row <= height - 2);
            assert(size <= x < (width - 1) * size) by (nonlinear_arith)
                requires
                    size > 0,
                    x >= 0,
                    1 <= x / size <= width - 2,
            ;
            assert(size <= y < (height - 1) * size) by (nonlinear_arith)
                requires
                    size > 0,
                    y >= 0,
                    1 <= y / size <= height - 2,
            ;
        }
    }
}

} // verus!
