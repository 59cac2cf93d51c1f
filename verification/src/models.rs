//! The data model of puzzles: positions, tiles, grids, objectives and the
//! records handed to the frontend.
use vstd::prelude::*;

verus! {

/// A cell coordinate on a grid; `x` grows to the right, `y` grows downwards.
#[derive(Clone, Copy, Debug, PartialEq, Eq, Structural)]
pub struct Position {
    pub x: i32,
    pub y: i32,
}

impl Position {
    pub fn new(x: i32, y: i32) -> (p: Position)
        ensures
            p == (Position { x, y }),
    {
        Position { x, y }
    }
}

/// The direction the bot faces.
#[derive(Clone, Copy, Debug, PartialEq, Eq, Structural)]
pub enum Direction {
    Up,
    Down,
    Left,
    Right,
}

/// Where the bot stands and where it looks.
#[derive(Clone, Copy, Debug, PartialEq, Eq, Structural)]
pub struct BotState {
    pub position: Position,
    pub direction: Direction,
}

impl BotState {
    pub fn new(position: Position, direction: Direction) -> (b: BotState)
        ensures
            b == (BotState { position, direction }),
    {
        BotState { position, direction }
    }
}

/// The ground of a tile.
#[derive(Clone, Copy, Debug, PartialEq, Eq, Structural)]
pub enum TileType {
    Floor,
    Wall,
    Goal,
    Pit,
    LockedDoor,
    GemVault,
    DiamondVault,
}

/// Something lying on a tile that the bot may pick up.
#[derive(Clone, Copy, Debug, PartialEq, Eq, Structural)]
pub enum TileItem {
    Gem,
    Key,
    Diamond,
}

/// One cell of a grid.
#[derive(Clone, Copy, Debug, PartialEq, Eq, Structural)]
pub struct Tile {
    pub tile_type: TileType,
    pub item: Option<TileItem>,
}

pub open spec fn floor_tile() -> Tile {
    Tile { tile_type: TileType::Floor, item: None }
}

pub open spec fn wall_tile() -> Tile {
    Tile { tile_type: TileType::Wall, item: None }
}

pub open spec fn goal_tile() -> Tile {
    Tile { tile_type: TileType::Goal, item: None }
}

impl Tile {
    /// An empty floor tile.
    pub fn floor() -> (t: Tile)
        ensures
            t == floor_tile(),
    {
        Tile { tile_type: TileType::Floor, item: None }
    }

    /// An empty wall tile.
    pub fn wall() -> (t: Tile)
        ensures
            t == wall_tile(),
    {
        Tile { tile_type: TileType::Wall, item: None }
    }

    /// An empty goal tile.
    pub fn goal() -> (t: Tile)
        ensures
            t == goal_tile(),
    {
        Tile { tile_type: TileType::Goal, item: None }
    }

    /// The same ground with a gem lying on it.
    pub fn with_gem(self) -> (t: Tile)
        ensures
            t == (Tile { tile_type: self.tile_type, item: Some(TileItem::Gem) }),
    {
        Tile { tile_type: self.tile_type, item: Some(TileItem::Gem) }
    }
}

/// A rectangular board; `tiles[y][x]` is the tile at column `x` of row `y`.
#[derive(Clone, Debug, PartialEq, Eq)]
pub struct Grid {
    pub width: u32,
    pub height: u32,
    pub tiles: Vec<Vec<Tile>>,
}

/// The mathematical content of a grid.
pub struct GridView {
    pub width: u32,
    pub height: u32,
    pub tiles: Seq<Seq<Tile>>,
}

impl View for Grid {
    type V = GridView;

    open spec fn view(&self) -> GridView {
        GridView {
            width: self.width,
            height: self.height,
            tiles: Seq::new(self.tiles@.len(), |y: int| self.tiles@[y]@),
        }
    }
}

impl GridView {
    /// `p` names a cell that the tile rows hold.
    pub open spec fn holds(self, p: Position) -> bool {
        0 <= p.y < self.tiles.len() && 0 <= p.x < self.tiles[p.y as int].len()
    }

    /// The grid with the tile at `p` replaced, where `p` names a held cell.
    pub open spec fn with_tile(self, p: Position, t: Tile) -> GridView {
        if self.holds(p) {
            GridView {
                width: self.width,
                height: self.height,
                tiles: self.tiles.update(p.y as int, self.tiles[p.y as int].update(p.x as int, t)),
            }
        } else {
            self
        }
    }
}

impl Grid {
    /// Places `tile` at `pos`; a position outside the board leaves the grid as it is.
    pub fn set_tile(&mut self, pos: Position, tile: Tile)
        ensures
            final(self)@ == old(self)@.with_tile(pos, tile),
    {
        if 0 <= pos.y && (pos.y as usize) < self.tiles.len() {
            let y = pos.y as usize;
            if 0 <= pos.x && (pos.x as usize) < self.tiles[y].len() {
                let x = pos.x as usize;
                let ghost before = self@;
                self.tiles[y][x] = tile;
                assert(self@.tiles =~= before.with_tile(pos, tile).tiles);
            }
        }
    }

    /// A copy of the grid with the same content.
    pub fn duplicate(&self) -> (g: Grid)
        ensures
            g@ == self@,
    {
        let mut tiles: Vec<Vec<Tile>> = Vec::new();
        for y in 0..self.tiles.len()
            invariant
                tiles@.len() == y,
                y <= self.tiles@.len(),
                forall|j: int| 0 <= j < y ==> #[trigger] tiles@[j]@ == self.tiles@[j]@,
        {
            let row = &self.tiles[y];
            let mut copy: Vec<Tile> = Vec::new();
            for x in 0..row.len()
                invariant
                    copy@ == row@.take(x as int),
            {
                copy.push(row[x]);
            }
            assert(copy@ =~= row@);
            tiles.push(copy);
        }
        let g = Grid { width: self.width, height: self.height, tiles };
        assert(g@.tiles =~= self@.tiles);
        g
    }
}

/// What a puzzle asks of the player, either to complete it or to earn a star.
#[derive(Debug, PartialEq, Eq)]
pub enum PuzzleObjective {
    ReachPosition { x: i32, y: i32 },
    CollectAllGems,
    DepositAllGems,
    DepositAllDiamonds,
    All { conditions: Vec<PuzzleObjective> },
    MaxInstructions { instructions: u32 },
    MaxSteps { steps: u32 },
}

/// The mathematical content of an objective.
pub enum ObjectiveView {
    ReachPosition { x: i32, y: i32 },
    CollectAllGems,
    DepositAllGems,
    DepositAllDiamonds,
    All { conditions: Seq<ObjectiveView> },
    MaxInstructions { instructions: u32 },
    MaxSteps { steps: u32 },
}

pub open spec fn objective_view(o: PuzzleObjective) -> ObjectiveView
    decreases o,
{
    match o {
        PuzzleObjective::ReachPosition { x, y } => ObjectiveView::ReachPosition { x, y },
        PuzzleObjective::CollectAllGems => ObjectiveView::CollectAllGems,
        PuzzleObjective::DepositAllGems => ObjectiveView::DepositAllGems,
        PuzzleObjective::DepositAllDiamonds => ObjectiveView::DepositAllDiamonds,
        PuzzleObjective::All { conditions } => ObjectiveView::All {
            conditions: Seq::new(
                conditions@.len(),
                |i: int|
                    if 0 <= i < conditions@.len() {
                        objective_view(conditions@[i])
                    } else {
                        ObjectiveView::CollectAllGems
                    },
            ),
        },
        PuzzleObjective::MaxInstructions { instructions } => ObjectiveView::MaxInstructions {
            instructions,
        },
        PuzzleObjective::MaxSteps { steps } => ObjectiveView::MaxSteps { steps },
    }
}

impl View for PuzzleObjective {
    type V = ObjectiveView;

    open spec fn view(&self) -> ObjectiveView {
        objective_view(*self)
    }
}

/// The views of a sequence of objectives.
pub open spec fn objectives_view(s: Seq<PuzzleObjective>) -> Seq<ObjectiveView> {
    Seq::new(s.len(), |i: int| s[i]@)
}

impl PuzzleObjective {
    /// A copy of the objective with the same content.
    pub fn duplicate(&self) -> (o: PuzzleObjective)
        ensures
            o@ == self@,
        decreases self,
    {
        match self {
            PuzzleObjective::ReachPosition { x, y } => PuzzleObjective::ReachPosition { x: *x, y: *y },
            PuzzleObjective::CollectAllGems => PuzzleObjective::CollectAllGems,
            PuzzleObjective::DepositAllGems => PuzzleObjective::DepositAllGems,
            PuzzleObjective::DepositAllDiamonds => PuzzleObjective::DepositAllDiamonds,
            PuzzleObjective::All { conditions } => {
                let copy = duplicate_objectives(conditions, Ghost(self));
                let o = PuzzleObjective::All { conditions: copy };
                assert(objective_view(o)->conditions =~= objective_view(*self)->conditions);
                o
            },
            PuzzleObjective::MaxInstructions { instructions } => PuzzleObjective::MaxInstructions {
                instructions: *instructions,
            },
            PuzzleObjective::MaxSteps { steps } => PuzzleObjective::MaxSteps { steps: *steps },
        }
    }
}

/// Copies each objective of `v`, which are the conditions of `owner`.
fn duplicate_objectives(v: &Vec<PuzzleObjective>, Ghost(owner): Ghost<&PuzzleObjective>) -> (r: Vec<
    PuzzleObjective,
>)
    requires
        *owner == (PuzzleObjective::All { conditions: *v }),
    ensures
        r@.len() == v@.len(),
        forall|i: int| 0 <= i < v@.len() ==> objective_view(#[trigger] r@[i]) == objective_view(v@[i]),
    decreases owner, 0int,
{
    let mut r: Vec<PuzzleObjective> = Vec::new();
    for i in 0..v.len()
        invariant
            *owner == (PuzzleObjective::All { conditions: *v }),
            r@.len() == i,
            i <= v@.len(),
            forall|j: int| 0 <= j < i ==> objective_view(#[trigger] r@[j]) == objective_view(v@[j]),
    {
        proof {
            assert(decreases_to!(*owner => (*owner)->conditions));
            assert(decreases_to!(*v => v[i as int]));
        }
        r.push(v[i].duplicate());
    }
    r
}

/// Everything that defines one puzzle.
#[derive(Debug, PartialEq, Eq)]
pub struct PuzzleConfig {
    pub puzzle_id: String,
    pub title: String,
    pub description: String,
    pub grid: Grid,
    pub bot_start: BotState,
    pub completion: PuzzleObjective,
    pub star_objectives: Vec<PuzzleObjective>,
    pub starter_code: String,
    pub hint: Option<String>,
    pub tutorial: Option<String>,
}

/// The mathematical content of a puzzle.
pub struct PuzzleView {
    pub puzzle_id: Seq<char>,
    pub title: Seq<char>,
    pub description: Seq<char>,
    pub grid: GridView,
    pub bot_start: BotState,
    pub completion: ObjectiveView,
    pub star_objectives: Seq<ObjectiveView>,
    pub starter_code: Seq<char>,
    pub hint: Option<Seq<char>>,
    pub tutorial: Option<Seq<char>>,
}

pub open spec fn opt_string_view(s: Option<String>) -> Option<Seq<char>> {
    match s {
        Some(t) => Some(t@),
        None => None,
    }
}

impl View for PuzzleConfig {
    type V = PuzzleView;

    open spec fn view(&self) -> PuzzleView {
        PuzzleView {
            puzzle_id: self.puzzle_id@,
            title: self.title@,
            description: self.description@,
            grid: self.grid@,
            bot_start: self.bot_start,
            completion: self.completion@,
            star_objectives: objectives_view(self.star_objectives@),
            starter_code: self.starter_code@,
            hint: opt_string_view(self.hint),
            tutorial: opt_string_view(self.tutorial),
        }
    }
}

pub fn duplicate_opt_string(s: &Option<String>) -> (r: Option<String>)
    ensures
        r == *s,
{
    match s {
        Some(t) => Some(t.clone()),
        None => None,
    }
}

impl PuzzleConfig {
    /// A copy of the puzzle with the same content.
    pub fn duplicate(&self) -> (p: PuzzleConfig)
        ensures
            p@ == self@,
    {
        let mut stars: Vec<PuzzleObjective> = Vec::new();
        for i in 0..self.star_objectives.len()
            invariant
                stars@.len() == i,
                i <= self.star_objectives@.len(),
                forall|j: int| 0 <= j < i ==> #[trigger] stars@[j]@ == self.star_objectives@[j]@,
        {
            stars.push(self.star_objectives[i].duplicate());
        }
        let p = PuzzleConfig {
            puzzle_id: self.puzzle_id.clone(),
            title: self.title.clone(),
            description: self.description.clone(),
            grid: self.grid.duplicate(),
            bot_start: self.bot_start,
            completion: self.completion.duplicate(),
            star_objectives: stars,
            starter_code: self.starter_code.clone(),
            hint: duplicate_opt_string(&self.hint),
            tutorial: duplicate_opt_string(&self.tutorial),
        };
        assert(objectives_view(p.star_objectives@) =~= objectives_view(self.star_objectives@));
        p
    }
}

/// The look of a world, named as the course data names it.
#[derive(Clone, Debug, PartialEq, Eq)]
pub struct WorldTheme {
    pub name: String,
}

impl WorldTheme {
    pub fn duplicate(&self) -> (t: WorldTheme)
        ensures
            t == *self,
    {
        WorldTheme { name: self.name.clone() }
    }
}

/// When a world becomes playable.
#[derive(Clone, Copy, Debug, PartialEq, Eq, Structural)]
pub enum WorldUnlock {
    Open,
}

/// A world as the frontend lists it.
#[derive(Clone, Debug, PartialEq, Eq)]
pub struct WorldInfo {
    pub world_id: String,
    pub title: String,
    pub description: String,
    pub story_intro: String,
    pub theme: WorldTheme,
    pub sort_order: u32,
    pub unlock: WorldUnlock,
    pub level_count: u32,
}

/// A level as the frontend lists it inside a world.
#[derive(Clone, Debug, PartialEq, Eq)]
pub struct LevelSummary {
    pub puzzle_id: String,
    pub title: String,
    pub description: String,
}

} // verus!
