//! Reading a level's board from its ASCII drawing.
//!
//! Each row of the drawing is one row of the board; each character one tile.
//! `.` floor, `#` wall, `P` pit, `D` locked door, `V` gem vault, `W` diamond
//! vault, `G` goal, `*` floor with a gem, `+` goal with a gem, `K` floor with a
//! key, `R` floor with a diamond, and one of `S > < ^ v` marks the start tile
//! (a floor tile) and the direction the bot faces there.
use vstd::prelude::*;

use crate::models::{
    floor_tile, goal_tile, BotState, Direction, Grid, GridView, Position, Tile, TileItem,
    TileType,
};

verus! {

/// Why a drawing is not a board.
#[derive(Clone, Copy, Debug, PartialEq, Eq, Structural)]
pub enum MapError {
    /// The drawing has no row.
    NoRows,
    /// The first row is empty.
    EmptyFirstRow,
    /// Row `row` is not as wide as the first row.
    UnequalWidth { row: usize },
    /// A character that names no tile.
    UnsupportedTile { tile: char },
    /// A second start tile.
    DuplicateStart,
    /// No start tile at all.
    MissingStart,
}

pub open spec fn is_start_char(c: char) -> bool {
    c == 'S' || c == '>' || c == '<' || c == '^' || c == 'v'
}

pub open spec fn is_goal_char(c: char) -> bool {
    c == 'G' || c == '+'
}

/// The direction given by a start character.
pub open spec fn start_direction(c: char) -> Direction {
    if c == '^' {
        Direction::Up
    } else if c == 'v' {
        Direction::Down
    } else if c == '<' {
        Direction::Left
    } else {
        Direction::Right
    }
}

/// The tile that a character draws, if it draws one.
pub open spec fn char_tile(c: char) -> Option<Tile> {
    if c == '.' || is_start_char(c) {
        Some(floor_tile())
    } else if c == '#' {
        Some(Tile { tile_type: TileType::Wall, item: None })
    } else if c == 'P' {
        Some(Tile { tile_type: TileType::Pit, item: None })
    } else if c == 'D' {
        Some(Tile { tile_type: TileType::LockedDoor, item: None })
    } else if c == 'V' {
        Some(Tile { tile_type: TileType::GemVault, item: None })
    } else if c == 'W' {
        Some(Tile { tile_type: TileType::DiamondVault, item: None })
    } else if c == 'G' {
        Some(goal_tile())
    } else if c == '*' {
        Some(Tile { tile_type: TileType::Floor, item: Some(TileItem::Gem) })
    } else if c == '+' {
        Some(Tile { tile_type: TileType::Goal, item: Some(TileItem::Gem) })
    } else if c == 'K' {
        Some(Tile { tile_type: TileType::Floor, item: Some(TileItem::Key) })
    } else if c == 'R' {
        Some(Tile { tile_type: TileType::Floor, item: Some(TileItem::Diamond) })
    } else {
        None
    }
}

/// The rows of a drawing as character sequences.
pub open spec fn map_chars(rows: Seq<String>) -> Seq<Seq<char>> {
    Seq::new(rows.len(), |i: int| rows[i]@)
}

/// Reads `row` from column `x` on, where `seen` tells whether a start tile
/// came before: the first fault met, or whether a start tile has been seen.
pub open spec fn row_scan(row: Seq<char>, x: int, seen: bool) -> Result<bool, MapError>
    decreases row.len() - x,
{
    if x < 0 || x >= row.len() {
        Ok(seen)
    } else {
        let c = row[x];
        if char_tile(c) is None {
            Err(MapError::UnsupportedTile { tile: c })
        } else if is_start_char(c) && seen {
            Err(MapError::DuplicateStart)
        } else {
            row_scan(row, x + 1, seen || is_start_char(c))
        }
    }
}

/// Reads the rows of `m` from row `y` on, each of which must be `width` wide.
pub open spec fn rows_scan(m: Seq<Seq<char>>, width: int, y: int, seen: bool) -> Result<
    bool,
    MapError,
>
    decreases m.len() - y,
{
    if y < 0 || y >= m.len() {
        Ok(seen)
    } else if m[y].len() != width {
        Err(MapError::UnequalWidth { row: y as usize })
    } else {
        match row_scan(m[y], 0, seen) {
            Err(e) => Err(e),
            Ok(s) => rows_scan(m, width, y + 1, s),
        }
    }
}

/// The fault that reading the drawing `m` row by row, left to right, meets
/// first; `None` when `m` draws a board.
pub open spec fn map_error(m: Seq<Seq<char>>) -> Option<MapError> {
    if m.len() == 0 {
        Some(MapError::NoRows)
    } else if m[0].len() == 0 {
        Some(MapError::EmptyFirstRow)
    } else {
        match rows_scan(m, m[0].len() as int, 0, false) {
            Err(e) => Some(e),
            Ok(true) => None,
            Ok(false) => Some(MapError::MissingStart),
        }
    }
}

/// `(y, x)` is a cell of `m`.
pub open spec fn is_cell(m: Seq<Seq<char>>, y: int, x: int) -> bool {
    0 <= y < m.len() && 0 <= x < m[y].len()
}

/// Cell `(y1, x1)` is read before cell `(y2, x2)`.
pub open spec fn read_before(y1: int, x1: int, y2: int, x2: int) -> bool {
    y1 < y2 || (y1 == y2 && x1 < x2)
}

pub open spec fn is_start_cell(m: Seq<Seq<char>>, y: int, x: int) -> bool {
    is_cell(m, y, x) && is_start_char(m[y][x])
}

pub open spec fn is_goal_cell(m: Seq<Seq<char>>, y: int, x: int) -> bool {
    is_cell(m, y, x) && is_goal_char(m[y][x])
}

/// The direct reading of a well-formed drawing: rows of one nonzero width,
/// every character a tile, and exactly one start tile.
pub open spec fn well_formed_map(m: Seq<Seq<char>>) -> bool {
    &&& m.len() > 0
    &&& m[0].len() > 0
    &&& forall|y: int| 0 <= y < m.len() ==> #[trigger] m[y].len() == m[0].len()
    &&& forall|y: int, x: int| is_cell(m, y, x) ==> (#[trigger] char_tile(m[y][x])) is Some
    &&& exists|y: int, x: int| is_start_cell(m, y, x)
    &&& forall|y1: int, x1: int, y2: int, x2: int|
        is_start_cell(m, y1, x1) && is_start_cell(m, y2, x2) ==> y1 == y2 && x1 == x2
}

/// `p` is the goal cell of `m` read first.
pub open spec fn is_first_goal(m: Seq<Seq<char>>, p: Position) -> bool {
    &&& is_goal_cell(m, p.y as int, p.x as int)
    &&& forall|y: int, x: int|
        read_before(y, x, p.y as int, p.x as int) ==> !is_goal_cell(m, y, x)
}

pub open spec fn has_goal(m: Seq<Seq<char>>) -> bool {
    exists|y: int, x: int| is_goal_cell(m, y, x)
}

/// The position of the first goal cell, if `m` has one.
pub open spec fn map_goal(m: Seq<Seq<char>>) -> Option<Position> {
    if has_goal(m) {
        Some(choose|p: Position| is_first_goal(m, p))
    } else {
        None
    }
}

/// The bot on the start cell of `m`, facing as its character says.
pub open spec fn map_start(m: Seq<Seq<char>>) -> BotState {
    let p = choose|p: Position| is_start_cell(m, p.y as int, p.x as int);
    BotState { position: p, direction: start_direction(m[p.y as int][p.x as int]) }
}

/// The board that `m` draws.
pub open spec fn map_grid(m: Seq<Seq<char>>) -> GridView {
    GridView {
        width: m[0].len() as u32,
        height: m.len() as u32,
        tiles: Seq::new(
            m.len(),
            |y: int| Seq::new(m[y].len(), |x: int| char_tile(m[y][x])->0),
        ),
    }
}

/// A drawing whose size keeps every coordinate within `i32`.
pub open spec fn map_fits(m: Seq<Seq<char>>) -> bool {
    &&& m.len() <= i32::MAX
    &&& forall|y: int| 0 <= y < m.len() ==> #[trigger] m[y].len() <= i32::MAX
}

// ---------------------------------------------------------------------------
// Lemmas on the reading of a drawing
pub open spec fn row_has_start_from(row: Seq<char>, x: int) -> bool {
    exists|i: int| x <= i < row.len() && 0 <= i && is_start_char(#[trigger] row[i])
}

pub open spec fn row_starts_le1_from(row: Seq<char>, x: int) -> bool {
    forall|i: int, j: int|
        x <= i < row.len() && x <= j < row.len() && 0 <= i && 0 <= j && is_start_char(
            #[trigger] row[i],
        ) && is_start_char(#[trigger] row[j]) ==> i == j
}

pub open spec fn row_supported_from(row: Seq<char>, x: int) -> bool {
    forall|i: int| x <= i < row.len() && 0 <= i ==> (#[trigger] char_tile(row[i])) is Some
}

/// What reading a row from column `x` decides, said directly.
proof fn lemma_row_scan(row: Seq<char>, x: int, seen: bool)
    requires
        0 <= x <= row.len(),
    ensures
        row_scan(row, x, seen) is Ok <==> (row_supported_from(row, x) && row_starts_le1_from(row, x)
            && !(seen && row_has_start_from(row, x))),
        row_scan(row, x, seen) is Ok ==> row_scan(row, x, seen)->Ok_0 == (seen
            || row_has_start_from(row, x)),
    decreases row.len() - x,
{
    if x < row.len() {
        lemma_row_scan(row, x + 1, seen || is_start_char(row[x]));
        let c = row[x];
        if char_tile(c) is None {
            assert(!row_supported_from(row, x));
        } else if is_start_char(c) && seen {
            assert(row_has_start_from(row, x));
        } else {
            if is_start_char(c) {
                if row_has_start_from(row, x + 1) {
                    let i = choose|i: int| x + 1 <= i < row.len() && 0 <= i && is_start_char(
                        #[trigger] row[i],
                    );
                    assert(!row_starts_le1_from(row, x));
                }
            }
            if row_has_start_from(row, x) {
                let i = choose|i: int| x <= i < row.len() && 0 <= i && is_start_char(
                    #[trigger] row[i],
                );
                if i > x {
                    assert(row_has_start_from(row, x + 1));
                }
            }
            if row_supported_from(row, x + 1) && row_starts_le1_from(row, x + 1) && char_tile(
                c,
            ) is Some && !(is_start_char(c) && row_has_start_from(row, x + 1)) {
                assert(row_supported_from(row, x));
                assert(row_starts_le1_from(row, x));
            }
            if !row_supported_from(row, x + 1) {
                let i = choose|i: int| x + 1 <= i < row.len() && 0 <= i && !(#[trigger] char_tile(row[i]) is Some);
                assert(!row_supported_from(row, x));
            }
            if !row_starts_le1_from(row, x + 1) {
                let (i, j) = choose|i: int, j: int|
                    !(x + 1 <= i < row.len() && x + 1 <= j < row.len() && 0 <= i && 0 <= j
                        && is_start_char(#[trigger] row[i]) && is_start_char(#[trigger] row[j])
                        ==> i == j);
                assert(!row_starts_le1_from(row, x));
            }
        }
    } else {
        assert(!row_has_start_from(row, x));
    }
}

pub open spec fn widths_from(m: Seq<Seq<char>>, width: int, y: int) -> bool {
    forall|r: int| y <= r < m.len() && 0 <= r ==> #[trigger] m[r].len() == width
}

pub open spec fn supported_from(m: Seq<Seq<char>>, y: int) -> bool {
    forall|r: int, x: int| y <= r && is_cell(m, r, x) ==> (#[trigger] char_tile(m[r][x])) is Some
}

pub open spec fn has_start_from(m: Seq<Seq<char>>, y: int) -> bool {
    exists|r: int, x: int| y <= r && is_start_cell(m, r, x)
}

pub open spec fn starts_le1_from(m: Seq<Seq<char>>, y: int) -> bool {
    forall|r1: int, x1: int, r2: int, x2: int|
        y <= r1 && y <= r2 && is_start_cell(m, r1, x1) && is_start_cell(m, r2, x2) ==> r1 == r2
            && x1 == x2
}

/// What reading the rows from `y` on decides, said directly.
proof fn lemma_rows_scan(m: Seq<Seq<char>>, width: int, y: int, seen: bool)
    requires
        0 <= y <= m.len(),
    ensures
        rows_scan(m, width, y, seen) is Ok <==> (widths_from(m, width, y) && supported_from(m, y)
            && starts_le1_from(m, y) && !(seen && has_start_from(m, y))),
        rows_scan(m, width, y, seen) is Ok ==> rows_scan(m, width, y, seen)->Ok_0 == (seen
            || has_start_from(m, y)),
    decreases m.len() - y,
{
    if y < m.len() {
        let row = m[y];
        lemma_row_scan(row, 0, seen);
        if m[y].len() != width {
            assert(!widths_from(m, width, y));
        } else {
            // facts linking row y with the rows from y
            if !row_supported_from(row, 0) {
                let i = choose|i: int| 0 <= i < row.len() && 0 <= i && !(#[trigger] char_tile(row[i]) is Some);
                assert(is_cell(m, y, i));
                assert(!supported_from(m, y));
            }
            if !row_starts_le1_from(row, 0) {
                let (i, j) = choose|i: int, j: int|
                    !(0 <= i < row.len() && 0 <= j < row.len() && 0 <= i && 0 <= j
                        && is_start_char(#[trigger] row[i]) && is_start_char(#[trigger] row[j])
                        ==> i == j);
                assert(is_start_cell(m, y, i) && is_start_cell(m, y, j));
                assert(!starts_le1_from(m, y));
            }
            if row_has_start_from(row, 0) {
                let i = choose|i: int| 0 <= i < row.len() && 0 <= i && is_start_char(
                    #[trigger] row[i],
                );
                assert(is_start_cell(m, y, i));
                assert(has_start_from(m, y));
            }
            match row_scan(row, 0, seen) {
                Err(e) => {},
                Ok(s) => {
                    lemma_rows_scan(m, width, y + 1, s);
                    if has_start_from(m, y) {
                        let (r, x) = choose|r: int, x: int| y <= r && is_start_cell(m, r, x);
                        if r > y {
                            assert(has_start_from(m, y + 1));
                        } else {
                            assert(row_has_start_from(row, 0));
                        }
                    }
                    if !widths_from(m, width, y + 1) {
                        assert(!widths_from(m, width, y));
                    }
                    if widths_from(m, width, y + 1) {
                        assert(widths_from(m, width, y));
                    }
                    if !supported_from(m, y + 1) {
                        let (r, x) = choose|r: int, x: int|
                            !(y + 1 <= r && is_cell(m, r, x) ==> (#[trigger] char_tile(m[r][x])) is Some);
                        assert(!supported_from(m, y));
                    }
                    if supported_from(m, y + 1) {
                        assert forall|r: int, x: int| y <= r && is_cell(m, r, x) implies (
                        #[trigger] char_tile(m[r][x])) is Some by {
                            if r == y {
                                assert(char_tile(row[x]) is Some);
                            }
                        }
                    }
                    if !starts_le1_from(m, y + 1) {
                        let (r1, x1, r2, x2) = choose|r1: int, x1: int, r2: int, x2: int|
                            !(y + 1 <= r1 && y + 1 <= r2 && is_start_cell(m, r1, x1)
                                && is_start_cell(m, r2, x2) ==> r1 == r2 && x1 == x2);
                        assert(!starts_le1_from(m, y));
                    }
                    if starts_le1_from(m, y + 1) && row_starts_le1_from(row, 0) && !(s
                        && has_start_from(m, y + 1)) {
                        assert forall|r1: int, x1: int, r2: int, x2: int|
                            y <= r1 && y <= r2 && is_start_cell(m, r1, x1) && is_start_cell(
                                m,
                                r2,
                                x2,
                            ) implies r1 == r2 && x1 == x2 by {
                            if r1 == y && r2 == y {
                                assert(is_start_char(row[x1]) && is_start_char(row[x2]));
                            } else if r1 == y {
                                assert(is_start_char(row[x1]));
                                assert(row_has_start_from(row, 0));
                                assert(has_start_from(m, y + 1));
                            } else if r2 == y {
                                assert(is_start_char(row[x2]));
                                assert(row_has_start_from(row, 0));
                                assert(has_start_from(m, y + 1));
                            }
                        }
                    }
                    if starts_le1_from(m, y) && row_has_start_from(row, 0) && has_start_from(
                        m,
                        y + 1,
                    ) {
                        let i = choose|i: int| 0 <= i < row.len() && 0 <= i && is_start_char(
                            #[trigger] row[i],
                        );
                        let (r, x) = choose|r: int, x: int| y + 1 <= r && is_start_cell(m, r, x);
                        assert(is_start_cell(m, y, i));
                    }
                    if seen && has_start_from(m, y + 1) {
                        assert(has_start_from(m, y));
                    }
                    if starts_le1_from(m, y) {
                        assert(row_starts_le1_from(row, 0)) by {
                            assert forall|i: int, j: int|
                                0 <= i < row.len() && 0 <= j < row.len() && 0 <= i && 0 <= j
                                    && is_start_char(#[trigger] row[i]) && is_start_char(
                                    #[trigger] row[j],
                                ) implies i == j by {
                                assert(is_start_cell(m, y, i) && is_start_cell(m, y, j));
                            }
                        }
                    }
                },
            }
        }
    } else {
        assert(!has_start_from(m, y));
    }
}

/// A drawing is read without fault exactly when it is well formed.
pub proof fn lemma_map_error_iff_well_formed(m: Seq<Seq<char>>)
    ensures
        map_error(m) is None <==> well_formed_map(m),
{
    if m.len() > 0 && m[0].len() > 0 {
        let w = m[0].len() as int;
        lemma_rows_scan(m, w, 0, false);
        if well_formed_map(m) {
            assert(widths_from(m, w, 0));
            assert(supported_from(m, 0));
            assert(starts_le1_from(m, 0));
            let (y, x) = choose|y: int, x: int| is_start_cell(m, y, x);
            assert(has_start_from(m, 0));
        }
        if map_error(m) is None {
            assert forall|y: int| 0 <= y < m.len() implies #[trigger] m[y].len() == m[0].len() by {
                assert(widths_from(m, w, 0));
            }
            assert forall|y: int, x: int| is_cell(m, y, x) implies (#[trigger] char_tile(
                m[y][x],
            )) is Some by {
                assert(supported_from(m, 0));
            }
            assert(has_start_from(m, 0));
            let (r, x) = choose|r: int, x: int| 0 <= r && is_start_cell(m, r, x);
            assert(is_start_cell(m, r, x));
        }
    }
}

/// Two first goal cells are the same cell.
proof fn lemma_first_goal_unique(m: Seq<Seq<char>>, p: Position, q: Position)
    requires
        is_first_goal(m, p),
        is_first_goal(m, q),
    ensures
        p == q,
{
    if read_before(p.y as int, p.x as int, q.y as int, q.x as int) {
        assert(!is_goal_cell(m, p.y as int, p.x as int));
    } else if read_before(q.y as int, q.x as int, p.y as int, p.x as int) {
        assert(!is_goal_cell(m, q.y as int, q.x as int));
    }
}

// ---------------------------------------------------------------------------
// Executable reading

/// The tile that `c` draws, if it draws one.
pub fn tile_for_char(c: char) -> (t: Option<Tile>)
    ensures
        t == char_tile(c),
{
    if c == '.' || c == 'S' || c == '>' || c == '<' || c == '^' || c == 'v' {
        Some(Tile::floor())
    } else if c == '#' {
        Some(Tile::wall())
    } else if c == 'P' {
        Some(Tile { tile_type: TileType::Pit, item: None })
    } else if c == 'D' {
        Some(Tile { tile_type: TileType::LockedDoor, item: None })
    } else if c == 'V' {
        Some(Tile { tile_type: TileType::GemVault, item: None })
    } else if c == 'W' {
        Some(Tile { tile_type: TileType::DiamondVault, item: None })
    } else if c == 'G' {
        Some(Tile::goal())
    } else if c == '*' {
        Some(Tile::floor().with_gem())
    } else if c == '+' {
        Some(Tile::goal().with_gem())
    } else if c == 'K' {
        let mut tile = Tile::floor();
        tile.item = Some(TileItem::Key);
        Some(tile)
    } else if c == 'R' {
        let mut tile = Tile::floor();
        tile.item = Some(TileItem::Diamond);
        Some(tile)
    } else {
        None
    }
}

/// The direction a start character gives, or `None` for any other character.
pub fn start_for_char(c: char) -> (d: Option<Direction>)
    ensures
        d is Some <==> is_start_char(c),
        d is Some ==> d->0 == start_direction(c),
{
    if c == 'S' || c == '>' {
        Some(Direction::Right)
    } else if c == '^' {
        Some(Direction::Up)
    } else if c == 'v' {
        Some(Direction::Down)
    } else if c == '<' {
        Some(Direction::Left)
    } else {
        None
    }
}

/// Whether every coordinate of the drawing stays within `i32`.
pub fn check_map_fits(rows: &[String]) -> (r: bool)
    ensures
        r == map_fits(map_chars(rows@)),
{
    let ghost m = map_chars(rows@);
    if rows.len() > 2147483647 {
        return false;
    }
    let mut y: usize = 0;
    while y < rows.len()
        invariant
            m == map_chars(rows@),
            m.len() == rows@.len(),
            m.len() <= i32::MAX,
            y <= rows@.len(),
            forall|r: int| 0 <= r < y ==> #[trigger] m[r].len() <= i32::MAX,
        decreases rows@.len() - y,
    {
        if rows[y].as_str().unicode_len() > 2147483647 {
            assert(m[y as int].len() > i32::MAX);
            return false;
        }
        y = y + 1;
    }
    true
}

/// The fault that reading the drawing meets first, or `None` when the
/// drawing is a board that `parse_ascii_map` reads.
pub fn check_ascii_map(rows: &[String]) -> (r: Option<MapError>)
    ensures
        r == map_error(map_chars(rows@)),
{
    let ghost m = map_chars(rows@);
    if rows.len() == 0 {
        return Some(MapError::NoRows);
    }
    let width = rows[0].as_str().unicode_len();
    if width == 0 {
        return Some(MapError::EmptyFirstRow);
    }
    let mut seen = false;
    let mut y: usize = 0;
    while y < rows.len()
        invariant
            m == map_chars(rows@),
            m.len() == rows@.len(),
            m.len() > 0,
            width == m[0].len(),
            width > 0,
            y <= rows@.len(),
            rows_scan(m, width as int, 0, false) == rows_scan(m, width as int, y as int, seen),
        decreases rows@.len() - y,
    {
        let row = &rows[y];
        let row_width = row.as_str().unicode_len();
        if row_width != width {
            assert(m[y as int].len() != width);
            assert(rows_scan(m, width as int, y as int, seen) == Err::<bool, MapError>(
                MapError::UnequalWidth { row: y },
            ));
            return Some(MapError::UnequalWidth { row: y });
        }
        let ghost seen0 = seen;
        let mut x: usize = 0;
        for c in it: row.chars()
            invariant
                m == map_chars(rows@),
                m.len() == rows@.len(),
                y < rows@.len(),
                width == m[0].len(),
                m[y as int].len() == width,
                it.seq() == m[y as int],
                x == it.index(),
                rows_scan(m, width as int, 0, false) == rows_scan(m, width as int, y as int, seen0),
                row_scan(m[y as int], 0, seen0) == row_scan(m[y as int], x as int, seen),
        {
            let ghost row_chars = m[y as int];
            assert(c == row_chars[x as int]);
            if tile_for_char(c).is_none() {
                return Some(MapError::UnsupportedTile { tile: c });
            }
            if start_for_char(c).is_some() {
                if seen {
                    return Some(MapError::DuplicateStart);
                }
                seen = true;
            }
            x = x + 1;
        }
        assert(row_scan(m[y as int], x as int, seen) == Ok::<bool, MapError>(seen));
        y = y + 1;
    }
    if seen {
        None
    } else {
        Some(MapError::MissingStart)
    }
}

/// The tiles of row `y` of the board that `m` draws.
pub open spec fn row_tiles(m: Seq<Seq<char>>, y: int) -> Seq<Tile> {
    Seq::new(m[y].len(), |x: int| char_tile(m[y][x])->0)
}

/// No start cell is read before `(y, x)`, or `start` is the bot on the one that is.
pub open spec fn start_so_far(m: Seq<Seq<char>>, y: int, x: int, start: Option<BotState>) -> bool {
    match start {
        None => forall|r: int, c: int| read_before(r, c, y, x) ==> !is_start_cell(m, r, c),
        Some(b) => {
            &&& is_start_cell(m, b.position.y as int, b.position.x as int)
            &&& read_before(b.position.y as int, b.position.x as int, y, x)
            &&& b.direction == start_direction(m[b.position.y as int][b.position.x as int])
        },
    }
}

/// `goal` is the first goal cell read before `(y, x)`, if there is one.
pub open spec fn goal_so_far(m: Seq<Seq<char>>, y: int, x: int, goal: Option<Position>) -> bool {
    match goal {
        None => forall|r: int, c: int| read_before(r, c, y, x) ==> !is_goal_cell(m, r, c),
        Some(p) => is_first_goal(m, p) && read_before(p.y as int, p.x as int, y, x),
    }
}

/// Reads the board that a well-formed drawing draws: the grid, the bot on
/// its start tile, and the first goal tile (row by row, left to right).
pub fn parse_ascii_map(level_id: &str, rows: &[String]) -> (r: (Grid, BotState, Option<Position>))
    requires
        map_error(map_chars(rows@)) is None,
        map_fits(map_chars(rows@)),
    ensures
        r.0@ == map_grid(map_chars(rows@)),
        r.1 == map_start(map_chars(rows@)),
        r.2 == map_goal(map_chars(rows@)),
{
    let ghost m = map_chars(rows@);
    proof {
        lemma_map_error_iff_well_formed(m);
    }
    let height = rows.len() as u32;
    let width = rows[0].as_str().unicode_len() as u32;
    let mut start: Option<BotState> = None;
    let mut goal_position: Option<Position> = None;
    let mut tiles: Vec<Vec<Tile>> = Vec::new();
    let mut y: usize = 0;
    while y < rows.len()
        invariant
            m == map_chars(rows@),
            m.len() == rows@.len(),
            well_formed_map(m),
            map_fits(m),
            y <= rows@.len(),
            tiles@.len() == y,
            forall|j: int| 0 <= j < y ==> #[trigger] tiles@[j]@ == row_tiles(m, j),
            start_so_far(m, y as int, 0, start),
            goal_so_far(m, y as int, 0, goal_position),
        decreases rows@.len() - y,
    {
        let row = &rows[y];
        let ghost row_chars = m[y as int];
        let mut parsed_row: Vec<Tile> = Vec::new();
        let mut x: usize = 0;
        for c in it: row.chars()
            invariant
                m == map_chars(rows@),
                m.len() == rows@.len(),
                well_formed_map(m),
                map_fits(m),
                y < rows@.len(),
                row_chars == m[y as int],
                it.seq() == row_chars,
                x == it.index(),
                parsed_row@ == row_tiles(m, y as int).take(x as int),
                start_so_far(m, y as int, x as int, start),
                goal_so_far(m, y as int, x as int, goal_position),
        {
            assert(c == row_chars[x as int]);
            assert(is_cell(m, y as int, x as int));
            let pos = Position::new(x as i32, y as i32);
            if c == 'G' || c == '+' {
                if goal_position.is_none() {
                    goal_position = Some(pos);
                }
            }
            match start_for_char(c) {
                Some(direction) => {
                    start = Some(BotState::new(pos, direction));
                },
                None => {},
            }
            let tile = match tile_for_char(c) {
                Some(t) => t,
                None => {
                    assert(false);
                    Tile::floor()
                },
            };
            parsed_row.push(tile);
            proof {
                assert(parsed_row@ =~= row_tiles(m, y as int).take(x + 1));
            }
            x = x + 1;
        }
        assert(parsed_row@ =~= row_tiles(m, y as int));
        tiles.push(parsed_row);
        y = y + 1;
    }
    let bot_start = match start {
        Some(b) => b,
        None => {
            proof {
                let (r, c) = choose|r: int, c: int| is_start_cell(m, r, c);
                assert(read_before(r, c, y as int, 0));
            }
            BotState::new(Position::new(0, 0), Direction::Right)
        },
    };
    let grid = Grid { width, height, tiles };
    proof {
        assert(grid@.tiles =~= map_grid(m).tiles);
        let p = choose|p: Position| is_start_cell(m, p.y as int, p.x as int);
        assert(is_start_cell(m, bot_start.position.y as int, bot_start.position.x as int));
        assert(p == bot_start.position);
        match goal_position {
            Some(g) => {
                assert(has_goal(m));
                let q = choose|q: Position| is_first_goal(m, q);
                lemma_first_goal_unique(m, g, q);
            },
            None => {
                if has_goal(m) {
                    let (r, c) = choose|r: int, c: int| is_goal_cell(m, r, c);
                    assert(read_before(r, c, y as int, 0));
                }
            },
        }
    }
    (grid, bot_start, goal_position)
}

/// On the board that a well-formed drawing draws, the bot starts on a floor
/// tile, the first goal tile is a goal, and the board has the drawing's size.
pub proof fn lemma_parsed_board(m: Seq<Seq<char>>)
    requires
        well_formed_map(m),
        map_fits(m),
    ensures
        map_grid(m).tiles.len() == m.len(),
        map_grid(m).height == m.len(),
        map_grid(m).width == m[0].len(),
        forall|y: int| 0 <= y < m.len() ==> (#[trigger] map_grid(m).tiles[y]).len() == m[0].len(),
        is_start_cell(m, map_start(m).position.y as int, map_start(m).position.x as int),
        map_grid(m).tiles[map_start(m).position.y as int][map_start(m).position.x as int]
            == floor_tile(),
        map_goal(m) matches Some(p) ==> is_goal_cell(m, p.y as int, p.x as int) && map_grid(
            m,
        ).tiles[p.y as int][p.x as int].tile_type == TileType::Goal,
        map_goal(m) is None <==> forall|y: int, x: int| !is_goal_cell(m, y, x),
{
    let (y, x) = choose|y: int, x: int| is_start_cell(m, y, x);
    let p = Position { x: x as i32, y: y as i32 };
    assert(is_start_cell(m, p.y as int, p.x as int));
    if has_goal(m) {
        let (gy, gx) = choose|gy: int, gx: int| is_goal_cell(m, gy, gx);
        lemma_first_goal_exists(m, gy, gx);
    }
}

/// A drawing with a goal cell has a first one.
proof fn lemma_first_goal_exists(m: Seq<Seq<char>>, y: int, x: int)
    requires
        is_goal_cell(m, y, x),
        map_fits(m),
    ensures
        exists|p: Position| is_first_goal(m, p),
    decreases y, x,
{
    if exists|r: int, c: int| read_before(r, c, y, x) && is_goal_cell(m, r, c) {
        let (r, c) = choose|r: int, c: int| read_before(r, c, y, x) && is_goal_cell(m, r, c);
        lemma_first_goal_exists(m, r, c);
    } else {
        let p = Position { x: x as i32, y: y as i32 };
        assert(is_first_goal(m, p));
    }
}

/// Every drawing with fewer than 2^31 rows, each of fewer than 2^31
/// characters, keeps its coordinates within `i32`.
pub proof fn lemma_small_maps_fit(m: Seq<Seq<char>>)
    requires
        m.len() < 0x8000_0000,
        forall|y: int| 0 <= y < m.len() ==> #[trigger] m[y].len() < 0x8000_0000,
    ensures
        map_fits(m),
{
}

} // verus!
