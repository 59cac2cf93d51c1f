//! The demo puzzle of the public start page, which belongs to no world.
use vstd::prelude::*;

use crate::models::{
    floor_tile, goal_tile, wall_tile, BotState, Direction, Grid, GridView, ObjectiveView,
    Position, PuzzleConfig, PuzzleObjective, PuzzleView, Tile, TileItem, TileType,
};

verus! {

/// A `width` x `height` board of walls.
pub open spec fn wall_grid_view(width: u32, height: u32) -> GridView {
    GridView {
        width,
        height,
        tiles: Seq::new(height as nat, |y: int| Seq::new(width as nat, |x: int| wall_tile())),
    }
}

/// Builds a grid that is all walls, to carve floors into.
pub fn wall_grid(width: u32, height: u32) -> (g: Grid)
    ensures
        g@ == wall_grid_view(width, height),
{
    let mut tiles: Vec<Vec<Tile>> = Vec::new();
    let mut y: u32 = 0;
    while y < height
        invariant
            y <= height,
            tiles@.len() == y,
            forall|j: int|
                0 <= j < y ==> #[trigger] tiles@[j]@ == Seq::new(width as nat, |x: int| wall_tile()),
        decreases height - y,
    {
        let mut row: Vec<Tile> = Vec::new();
        let mut x: u32 = 0;
        while x < width
            invariant
                x <= width,
                row@ == Seq::new(x as nat, |i: int| wall_tile()),
            decreases width - x,
        {
            row.push(Tile::wall());
            x = x + 1;
            assert(row@ =~= Seq::new(x as nat, |i: int| wall_tile()));
        }
        tiles.push(row);
        y = y + 1;
    }
    let g = Grid { width, height, tiles };
    assert(g@.tiles =~= wall_grid_view(width, height).tiles);
    g
}

/// A floor tile with a gem on it.
pub open spec fn gem_tile() -> Tile {
    Tile { tile_type: TileType::Floor, item: Some(TileItem::Gem) }
}

/// The board of the demo: a snake path from `(0, 0)` right along row 0,
/// down to row 2, left along it, down to row 4, right, down to row 6, left,
/// and down to the goal at `(1, 7)`, with gems at turns and midpoints.
pub open spec fn demo_tile(x: int, y: int) -> Tile {
    if (x == 5 && y == 0) || (x == 10 && y == 2) || (x == 3 && y == 2) || (x == 1 && y == 4) || (
    x == 7 && y == 4) || (x == 6 && y == 6) {
        gem_tile()
    } else if x == 1 && y == 7 {
        goal_tile()
    } else if (y == 0 && 0 <= x <= 10) || ((y == 2 || y == 4 || y == 6) && 1 <= x <= 10) || (x
        == 10 && y == 1) || (x == 1 && y == 3) || (x == 10 && y == 5) {
        floor_tile()
    } else {
        wall_tile()
    }
}

pub open spec fn demo_grid_view() -> GridView {
    GridView {
        width: 12,
        height: 8,
        tiles: Seq::new(8, |y: int| Seq::new(12, |x: int| demo_tile(x, y))),
    }
}

pub open spec fn demo_starter_code() -> Seq<char> {
    r#"// Navigate the winding path!
        fn grab_if_gem() {
    if gem_here() {
        grab()
    }
}

let turns = ["right", "right", "left", "left"]

for t in turns {
    while path_ahead() {
        move("forward") // or "right", "up", etc.
        grab_if_gem()
    }
    turn(t)
}
"#@
}

/// The demo puzzle.
pub open spec fn demo_view() -> PuzzleView {
    PuzzleView {
        puzzle_id: "demo"@,
        title: "Snake Run"@,
        description: "Navigate the winding path and collect gems along the way!"@,
        grid: demo_grid_view(),
        bot_start: BotState { position: Position { x: 0, y: 0 }, direction: Direction::Right },
        completion: ObjectiveView::ReachPosition { x: 1, y: 7 },
        star_objectives: seq![
            ObjectiveView::CollectAllGems,
            ObjectiveView::MaxSteps { steps: 55 },
        ],
        starter_code: demo_starter_code(),
        hint: None,
        tutorial: None,
    }
}

/// A grid whose tile rows all have `width` tiles and whose row count is `height`.
pub open spec fn is_rect(g: GridView, width: int, height: int) -> bool {
    &&& g.tiles.len() == height
    &&& forall|y: int| 0 <= y < height ==> #[trigger] g.tiles[y].len() == width
}

/// Lays floor on the cells `from..to` of row `y`.
fn carve_row(grid: &mut Grid, y: i32, from: i32, to: i32)
    requires
        0 <= y < old(grid)@.tiles.len(),
        0 <= from <= to <= old(grid)@.tiles[y as int].len(),
    ensures
        final(grid)@.width == old(grid)@.width,
        final(grid)@.height == old(grid)@.height,
        final(grid)@.tiles.len() == old(grid)@.tiles.len(),
        forall|r: int|
            0 <= r < old(grid)@.tiles.len() ==> (#[trigger] final(grid)@.tiles[r]).len() == old(
                grid,
            )@.tiles[r].len(),
        forall|r: int, c: int|
            0 <= r < old(grid)@.tiles.len() && 0 <= c < old(grid)@.tiles[r].len() ==> (
            #[trigger] final(grid)@.tiles[r][c]) == if r == y && from <= c < to {
                floor_tile()
            } else {
                old(grid)@.tiles[r][c]
            },
{
    let ghost start = grid@;
    let mut x = from;
    while x < to
        invariant
            from <= x <= to,
            0 <= y < start.tiles.len(),
            to <= start.tiles[y as int].len(),
            grid@.width == start.width,
            grid@.height == start.height,
            grid@.tiles.len() == start.tiles.len(),
            forall|r: int|
                0 <= r < start.tiles.len() ==> (#[trigger] grid@.tiles[r]).len()
                    == start.tiles[r].len(),
            forall|r: int, c: int|
                0 <= r < start.tiles.len() && 0 <= c < start.tiles[r].len() ==> (
                #[trigger] grid@.tiles[r][c]) == if r == y && from <= c < x {
                    floor_tile()
                } else {
                    start.tiles[r][c]
                },
        decreases to - x,
    {
        grid.set_tile(Position::new(x, y), Tile::floor());
        x = x + 1;
    }
}

/// Places `tile` at `(x, y)`.
fn put(grid: &mut Grid, x: i32, y: i32, tile: Tile)
    requires
        0 <= y < old(grid)@.tiles.len(),
        0 <= x < old(grid)@.tiles[y as int].len(),
    ensures
        final(grid)@.width == old(grid)@.width,
        final(grid)@.height == old(grid)@.height,
        final(grid)@.tiles.len() == old(grid)@.tiles.len(),
        forall|r: int|
            0 <= r < old(grid)@.tiles.len() ==> (#[trigger] final(grid)@.tiles[r]).len() == old(
                grid,
            )@.tiles[r].len(),
        forall|r: int, c: int|
            0 <= r < old(grid)@.tiles.len() && 0 <= c < old(grid)@.tiles[r].len() ==> (
            #[trigger] final(grid)@.tiles[r][c]) == if r == y && c == x {
                tile
            } else {
                old(grid)@.tiles[r][c]
            },
{
    grid.set_tile(Position::new(x, y), tile);
}

/// A 12x8 snake-path puzzle used on the public start page.
/// Bot zigzags: right across row 0, down to row 2, left across row 2,
/// down to row 4, right across row 4, down to row 6, left across row 6,
/// down to goal at (1, 7).
/// Gems placed at turns and midpoints to encourage grab()/if gem_here().
pub fn demo_puzzle() -> (p: PuzzleConfig)
    ensures
        p@ == demo_view(),
{
    let mut grid = wall_grid(12, 8);
    let ghost g0 = grid@;
    assert(is_rect(g0, 12, 8));

    // Row 0: x=0..10  (right)
    carve_row(&mut grid, 0, 0, 11);
    put(&mut grid, 5, 0, Tile::floor().with_gem());
    // Connector: x=10, y=1
    put(&mut grid, 10, 1, Tile::floor());
    // Row 2: x=1..10  (left)
    carve_row(&mut grid, 2, 1, 11);
    put(&mut grid, 10, 2, Tile::floor().with_gem());
    put(&mut grid, 3, 2, Tile::floor().with_gem());
    // Connector: x=1, y=3
    put(&mut grid, 1, 3, Tile::floor());
    // Row 4: x=1..10  (right)
    carve_row(&mut grid, 4, 1, 11);
    put(&mut grid, 1, 4, Tile::floor().with_gem());
    put(&mut grid, 7, 4, Tile::floor().with_gem());
    // Connector: x=10, y=5
    put(&mut grid, 10, 5, Tile::floor());
    // Row 6: x=1..10  (left)
    carve_row(&mut grid, 6, 1, 11);
    put(&mut grid, 6, 6, Tile::floor().with_gem());
    // Connector: x=1, y=7  (goal)
    put(&mut grid, 1, 7, Tile::goal());

    proof {
        assert forall|r: int| 0 <= r < 8 implies #[trigger] grid@.tiles[r] =~= demo_grid_view().tiles[r] by {
            assert forall|c: int| 0 <= c < 12 implies #[trigger] grid@.tiles[r][c] == demo_tile(c, r) by {
            }
        }
        assert(grid@.tiles =~= demo_grid_view().tiles);
    }

    let mut star_objectives: Vec<PuzzleObjective> = Vec::new();
    star_objectives.push(PuzzleObjective::CollectAllGems);
    star_objectives.push(PuzzleObjective::MaxSteps { steps: 55 });

    let p = PuzzleConfig {
        puzzle_id: "demo".to_owned(),
        title: "Snake Run".to_owned(),
        description: "Navigate the winding path and collect gems along the way!".to_owned(),
        grid,
        bot_start: BotState::new(Position::new(0, 0), Direction::Right),
        completion: PuzzleObjective::ReachPosition { x: 1, y: 7 },
        star_objectives,
        starter_code: r#"// Navigate the winding path!
        fn grab_if_gem() {
    if gem_here() {
        grab()
    }
}

let turns = ["right", "right", "left", "left"]

for t in turns {
    while path_ahead() {
        move("forward") // or "right", "up", etc.
        grab_if_gem()
    }
    turn(t)
}
"#.to_owned(),
        hint: None,
        tutorial: None,
    };
    assert(crate::models::objectives_view(p.star_objectives@) =~= demo_view().star_objectives);
    p
}

/// The demo is a 12x8 board whose bot starts on floor at `(0, 0)` and whose
/// completion asks to reach its goal tile at `(1, 7)`.
pub proof fn lemma_demo_goal_reachable_target()
    ensures
        demo_view().grid.width == 12 && demo_view().grid.height == 8,
        demo_view().grid.tiles.len() == 8,
        forall|y: int| 0 <= y < 8 ==> (#[trigger] demo_view().grid.tiles[y]).len() == 12,
        demo_view().completion == (ObjectiveView::ReachPosition { x: 1, y: 7 }),
        demo_view().grid.tiles[7][1] == goal_tile(),
        demo_view().grid.tiles[0][0] == floor_tile(),
        demo_view().bot_start.position == (Position { x: 0, y: 0 }),
{
}

/// `a` and `b` are cells next to each other: one step up, down, left or right.
pub open spec fn adjacent(a: Position, b: Position) -> bool {
    ||| a.x == b.x && (a.y - b.y == 1 || b.y - a.y == 1)
    ||| a.y == b.y && (a.x - b.x == 1 || b.x - a.x == 1)
}

/// `path` walks over the board `g` one step at a time, never onto a wall.
pub open spec fn is_walk(g: GridView, path: Seq<Position>) -> bool {
    &&& path.len() > 0
    &&& forall|i: int|
        0 <= i < path.len() ==> g.holds(#[trigger] path[i]) && g.tiles[path[i].y as int][path[i].x as int].tile_type
            != TileType::Wall
    &&& forall|i: int| 0 <= i < path.len() - 1 ==> adjacent(#[trigger] path[i], path[i + 1])
}

/// The snake path through the demo, cell by cell.
spec fn snake_cell(i: int) -> Position {
    if i <= 10 {
        Position { x: i as i32, y: 0 }
    } else if i == 11 {
        Position { x: 10, y: 1 }
    } else if i <= 21 {
        Position { x: (22 - i) as i32, y: 2 }
    } else if i == 22 {
        Position { x: 1, y: 3 }
    } else if i <= 32 {
        Position { x: (i - 22) as i32, y: 4 }
    } else if i == 33 {
        Position { x: 10, y: 5 }
    } else if i <= 43 {
        Position { x: (44 - i) as i32, y: 6 }
    } else {
        Position { x: 1, y: 7 }
    }
}

/// The demo can be solved: a walk over its board leads from the bot's start
/// to the position its completion asks to reach.
pub proof fn lemma_demo_goal_reachable()
    ensures
        demo_view().completion is ReachPosition,
        exists|path: Seq<Position>|
            is_walk(demo_view().grid, path) && path[0] == demo_view().bot_start.position
                && path.last() == (Position {
                x: demo_view().completion->ReachPosition_x,
                y: demo_view().completion->ReachPosition_y,
            }),
{
    let g = demo_view().grid;
    let path = Seq::new(45, |i: int| snake_cell(i));
    assert forall|i: int| 0 <= i < path.len() implies g.holds(#[trigger] path[i])
        && g.tiles[path[i].y as int][path[i].x as int].tile_type != TileType::Wall by {
        let c = snake_cell(i);
        assert(0 <= c.y < 8 && 0 <= c.x < 12);
        assert(g.tiles[c.y as int][c.x as int] == demo_tile(c.x as int, c.y as int));
    }
    assert forall|i: int| 0 <= i < path.len() - 1 implies adjacent(#[trigger] path[i], path[i + 1]) by {
        assert(path[i] == snake_cell(i));
        assert(path[i + 1] == snake_cell(i + 1));
    }
    assert(path[44] == snake_cell(44));
    assert(path.last() == path[44]);
    assert(is_walk(g, path));
}

} // verus!
