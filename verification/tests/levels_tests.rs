use bopcode_wasm::course::{
    check_course_level, completion_requires_collect_all_gems, parse_course_completion,
    parse_course_level, CourseCompletion, CourseCompletionPreset, CourseLevelData,
    CourseObjectiveSpec, CoursePackData, CourseStars, CourseWorldData, LevelError,
};
use bopcode_wasm::demo::{demo_puzzle, wall_grid};
use bopcode_wasm::levels::{
    check_course_pack, get_all_puzzles, get_all_world_ids, get_hardcoded_worlds, get_puzzle,
    get_world_levels, get_world_puzzle_ids, get_worlds, parse_course_pack, Catalog,
};
use bopcode_wasm::map::{check_ascii_map, parse_ascii_map, MapError};
use bopcode_wasm::models::{
    BotState, Direction, Position, PuzzleObjective, Tile, TileItem, TileType, WorldTheme,
    WorldUnlock,
};

fn s(x: &str) -> String {
    x.to_string()
}

fn rows(lines: &[&str]) -> Vec<String> {
    lines.iter().map(|l| l.to_string()).collect()
}

fn no_stars() -> CourseStars {
    CourseStars { collect_all_gems: false, max_instructions: None, max_steps: None }
}

fn level(id: &str, map: &[&str], completion: CourseCompletion, stars: CourseStars) -> CourseLevelData {
    CourseLevelData {
        level_id: s(id),
        title: format!("Title {id}"),
        description: format!("Description {id}"),
        map: rows(map),
        completion,
        stars,
        starter_code: String::new(),
        hint: None,
        tutorial: None,
    }
}

fn reach_goal() -> CourseCompletion {
    CourseCompletion::Preset(CourseCompletionPreset::ReachGoal)
}

fn world(id: &str, sort_order: u32) -> CourseWorldData {
    CourseWorldData {
        world_id: s(id),
        title: format!("World {id}"),
        description: String::new(),
        story_intro: String::new(),
        theme: WorldTheme { name: s("meadow") },
        sort_order,
    }
}

fn pack_data(world_id: &str, sort_order: u32, ids: &[String]) -> CoursePackData {
    CoursePackData {
        world: world(world_id, sort_order),
        levels: ids
            .iter()
            .map(|id| level(id, &["S..G"], reach_goal(), no_stars()))
            .collect(),
    }
}

/// The shipped course files are not part of this crate, so the tests over
/// course packs use this catalog of the same shape: three packs, first-steps,
/// bop-foundations and bop-operations, of fourteen levels each. They check the
/// queries over such a catalog, not the shipped content.
fn course_catalog() -> Catalog {
    let first: Vec<String> = (1..=14).map(|i| format!("puzzle-{i}")).collect();
    let beg: Vec<String> = (1..=14).map(|i| format!("bop-beg-{i:02}")).collect();
    let int: Vec<String> = (1..=14).map(|i| format!("bop-int-{i:02}")).collect();
    Catalog::new(vec![
        parse_course_pack(pack_data("first-steps", 1, &first)),
        parse_course_pack(pack_data("bop-foundations", 2, &beg)),
        parse_course_pack(pack_data("bop-operations", 3, &int)),
    ])
}

// ─── Tests over course packs ──────────────────────────────────────────

#[test]
fn test_get_worlds() {
    let catalog = course_catalog();
    let worlds = get_worlds(&catalog);
    assert!(worlds.len() >= 3);
}

#[test]
fn test_get_puzzle_exists() {
    let catalog = course_catalog();
    assert!(get_puzzle(&catalog, "puzzle-1").is_some());
    assert!(get_puzzle(&catalog, "puzzle-14").is_some());
    assert!(get_puzzle(&catalog, "bop-beg-01").is_some());
    assert!(get_puzzle(&catalog, "bop-int-01").is_some());
}

#[test]
fn test_get_puzzle_not_found() {
    let catalog = course_catalog();
    assert!(get_puzzle(&catalog, "nonexistent").is_none());
}

#[test]
fn test_get_world_levels() {
    let catalog = course_catalog();
    let levels = get_world_levels(&catalog, "first-steps");
    assert_eq!(levels.len(), 14);
}

#[test]
fn test_all_puzzles_load() {
    let catalog = course_catalog();
    let all = get_all_puzzles(&catalog);
    assert!(all.len() >= 42);
}

// ─── Drawings ─────────────────────────────────────────────────────────

#[test]
fn ascii_map_reads_every_tile() {
    let map = rows(&["S.#PD", "VWG*+", "KR..."]);
    assert_eq!(check_ascii_map(&map), None);
    let (grid, bot, goal) = parse_ascii_map("t", &map);
    assert_eq!(grid.width, 5);
    assert_eq!(grid.height, 3);
    assert_eq!(bot, BotState::new(Position::new(0, 0), Direction::Right));
    assert_eq!(goal, Some(Position::new(2, 1)));
    let floor = Tile::floor();
    let t = &grid.tiles;
    assert_eq!(t[0][0], floor);
    assert_eq!(t[0][1], floor);
    assert_eq!(t[0][2], Tile::wall());
    assert_eq!(t[0][3].tile_type, TileType::Pit);
    assert_eq!(t[0][4].tile_type, TileType::LockedDoor);
    assert_eq!(t[1][0].tile_type, TileType::GemVault);
    assert_eq!(t[1][1].tile_type, TileType::DiamondVault);
    assert_eq!(t[1][2], Tile::goal());
    assert_eq!(t[1][3], Tile { tile_type: TileType::Floor, item: Some(TileItem::Gem) });
    assert_eq!(t[1][4], Tile { tile_type: TileType::Goal, item: Some(TileItem::Gem) });
    assert_eq!(t[2][0], Tile { tile_type: TileType::Floor, item: Some(TileItem::Key) });
    assert_eq!(t[2][1], Tile { tile_type: TileType::Floor, item: Some(TileItem::Diamond) });
}

#[test]
fn ascii_map_start_directions() {
    for (c, d) in [
        ('S', Direction::Right),
        ('>', Direction::Right),
        ('<', Direction::Left),
        ('^', Direction::Up),
        ('v', Direction::Down),
    ] {
        let map = vec![format!("..{c}")];
        let (grid, bot, goal) = parse_ascii_map("t", &map);
        assert_eq!(bot, BotState::new(Position::new(2, 0), d));
        assert_eq!(grid.tiles[0][2], Tile::floor());
        assert_eq!(goal, None);
    }
}

#[test]
fn ascii_map_first_goal_wins() {
    let map = rows(&["S..+", "G..."]);
    let (_, _, goal) = parse_ascii_map("t", &map);
    assert_eq!(goal, Some(Position::new(3, 0)));
}

#[test]
fn ascii_map_errors() {
    assert_eq!(check_ascii_map(&[]), Some(MapError::NoRows));
    assert_eq!(check_ascii_map(&rows(&["", "S"])), Some(MapError::EmptyFirstRow));
    assert_eq!(check_ascii_map(&rows(&["S..", ".."])), Some(MapError::UnequalWidth { row: 1 }));
    assert_eq!(check_ascii_map(&rows(&["S.x"])), Some(MapError::UnsupportedTile { tile: 'x' }));
    assert_eq!(check_ascii_map(&rows(&["S.>"])), Some(MapError::DuplicateStart));
    assert_eq!(check_ascii_map(&rows(&["..."])), Some(MapError::MissingStart));
    // the first fault read wins: the bad tile comes before the short row
    assert_eq!(
        check_ascii_map(&rows(&["S?.", ".."])),
        Some(MapError::UnsupportedTile { tile: '?' })
    );
    // a short row is met before the tiles of that row are read
    assert_eq!(check_ascii_map(&rows(&["S..", "?."])), Some(MapError::UnequalWidth { row: 1 }));
}

// ─── Levels ───────────────────────────────────────────────────────────

#[test]
fn completion_presets() {
    let goal = Some(Position::new(3, 4));
    let reach = PuzzleObjective::ReachPosition { x: 3, y: 4 };
    let p = |preset| parse_course_completion("t", CourseCompletion::Preset(preset), goal);
    assert_eq!(p(CourseCompletionPreset::ReachGoal), reach);
    assert_eq!(p(CourseCompletionPreset::CollectAllGems), PuzzleObjective::CollectAllGems);
    assert_eq!(p(CourseCompletionPreset::DepositAllGems), PuzzleObjective::DepositAllGems);
    assert_eq!(p(CourseCompletionPreset::DepositAllDiamonds), PuzzleObjective::DepositAllDiamonds);
    assert_eq!(
        p(CourseCompletionPreset::CollectAllGemsAndReachGoal),
        PuzzleObjective::All {
            conditions: vec![
                PuzzleObjective::CollectAllGems,
                PuzzleObjective::ReachPosition { x: 3, y: 4 }
            ]
        }
    );
    assert_eq!(
        p(CourseCompletionPreset::DepositAllGemsAndReachGoal),
        PuzzleObjective::All {
            conditions: vec![
                PuzzleObjective::DepositAllGems,
                PuzzleObjective::ReachPosition { x: 3, y: 4 }
            ]
        }
    );
    assert_eq!(
        p(CourseCompletionPreset::DepositAllDiamondsAndReachGoal),
        PuzzleObjective::All {
            conditions: vec![
                PuzzleObjective::DepositAllDiamonds,
                PuzzleObjective::ReachPosition { x: 3, y: 4 }
            ]
        }
    );
}

#[test]
fn completion_objective_nested() {
    let spec = CourseObjectiveSpec::All {
        conditions: vec![
            CourseObjectiveSpec::ReachPosition { x: 7, y: 8 },
            CourseObjectiveSpec::All {
                conditions: vec![CourseObjectiveSpec::ReachGoal, CourseObjectiveSpec::DepositAllGems],
            },
        ],
    };
    let o = parse_course_completion("t", CourseCompletion::Objective(spec), Some(Position::new(1, 2)));
    assert_eq!(
        o,
        PuzzleObjective::All {
            conditions: vec![
                PuzzleObjective::ReachPosition { x: 7, y: 8 },
                PuzzleObjective::All {
                    conditions: vec![
                        PuzzleObjective::ReachPosition { x: 1, y: 2 },
                        PuzzleObjective::DepositAllGems
                    ]
                },
            ]
        }
    );
    // an objective that never names the goal needs no goal tile
    let o = parse_course_completion(
        "t",
        CourseCompletion::Objective(CourseObjectiveSpec::CollectAllGems),
        None,
    );
    assert_eq!(o, PuzzleObjective::CollectAllGems);
}

#[test]
fn requires_collect_all_gems_looks_inside() {
    assert!(completion_requires_collect_all_gems(&PuzzleObjective::CollectAllGems));
    assert!(!completion_requires_collect_all_gems(&PuzzleObjective::DepositAllGems));
    let nested = PuzzleObjective::All {
        conditions: vec![
            PuzzleObjective::ReachPosition { x: 0, y: 0 },
            PuzzleObjective::All { conditions: vec![PuzzleObjective::CollectAllGems] },
        ],
    };
    assert!(completion_requires_collect_all_gems(&nested));
    let none = PuzzleObjective::All {
        conditions: vec![PuzzleObjective::ReachPosition { x: 0, y: 0 }, PuzzleObjective::MaxSteps { steps: 3 }],
    };
    assert!(!completion_requires_collect_all_gems(&none));
}

#[test]
fn level_folds_collect_all_gems_into_completion() {
    let stars = CourseStars { collect_all_gems: true, max_instructions: Some(5), max_steps: Some(9) };
    let p = parse_course_level(level("l1", &["S*G"], reach_goal(), stars));
    assert_eq!(
        p.completion,
        PuzzleObjective::All {
            conditions: vec![
                PuzzleObjective::ReachPosition { x: 2, y: 0 },
                PuzzleObjective::CollectAllGems
            ]
        }
    );
    assert_eq!(
        p.star_objectives,
        vec![
            PuzzleObjective::MaxInstructions { instructions: 5 },
            PuzzleObjective::MaxSteps { steps: 9 }
        ]
    );
    assert_eq!(p.puzzle_id, "l1");
    assert_eq!(p.title, "Title l1");
    assert_eq!(p.bot_start, BotState::new(Position::new(0, 0), Direction::Right));

    // a completion that already asks for every gem is kept as it is
    let stars = CourseStars { collect_all_gems: true, max_instructions: None, max_steps: Some(4) };
    let p = parse_course_level(level(
        "l2",
        &["S*G"],
        CourseCompletion::Preset(CourseCompletionPreset::CollectAllGemsAndReachGoal),
        stars,
    ));
    assert_eq!(
        p.completion,
        PuzzleObjective::All {
            conditions: vec![
                PuzzleObjective::CollectAllGems,
                PuzzleObjective::ReachPosition { x: 2, y: 0 }
            ]
        }
    );
    assert_eq!(p.star_objectives, vec![PuzzleObjective::MaxSteps { steps: 4 }]);

    // without the star rule nothing is folded in
    let p = parse_course_level(level("l3", &["S*G"], reach_goal(), no_stars()));
    assert_eq!(p.completion, PuzzleObjective::ReachPosition { x: 2, y: 0 });
    assert!(p.star_objectives.is_empty());
}

#[test]
fn level_errors() {
    let l = level("l", &["S.."], reach_goal(), no_stars());
    assert_eq!(check_course_level(&l), Some(LevelError::MissingGoal));
    let l = level("l", &["S..", "."], reach_goal(), no_stars());
    assert_eq!(check_course_level(&l), Some(LevelError::InvalidMap(MapError::UnequalWidth { row: 1 })));
    let l = level("l", &["S.."], CourseCompletion::Preset(CourseCompletionPreset::DepositAllGems), no_stars());
    assert_eq!(check_course_level(&l), None);
    let l = level(
        "l",
        &["S.."],
        CourseCompletion::Objective(CourseObjectiveSpec::All { conditions: vec![CourseObjectiveSpec::ReachGoal] }),
        no_stars(),
    );
    assert_eq!(check_course_level(&l), Some(LevelError::MissingGoal));

    let good = pack_data("w", 1, &[s("a"), s("b")]);
    assert_eq!(check_course_pack(&good), None);
    let mut bad = pack_data("w", 1, &[s("a"), s("b"), s("c")]);
    bad.levels[1].map = rows(&["..."]);
    bad.levels[2].map = rows(&["S.."]);
    assert_eq!(check_course_pack(&bad), Some((1, LevelError::InvalidMap(MapError::MissingStart))));
}

// ─── Catalog queries ──────────────────────────────────────────────────

#[test]
fn pack_keeps_levels_in_order() {
    let p = parse_course_pack(pack_data("w", 1, &[s("a"), s("b")]));
    let catalog = Catalog::new(vec![p]);
    let puzzles = get_all_puzzles(&catalog);
    let ids: Vec<&str> = puzzles.iter().map(|p| p.puzzle_id.as_str()).collect();
    assert_eq!(ids, vec!["a", "b"]);
    assert_eq!(get_world_puzzle_ids(&catalog, "w"), vec![s("a"), s("b")]);
    assert!(get_world_puzzle_ids(&catalog, "nope").is_empty());
    let worlds = get_hardcoded_worlds(&catalog);
    assert_eq!(worlds.len(), 1);
    assert_eq!(worlds[0].world_id, "w");
    assert_eq!(worlds[0].unlock, WorldUnlock::Open);
}

#[test]
fn lookup_takes_last_in_pack_and_first_pack() {
    let mut d1 = pack_data("w1", 1, &[s("x"), s("y"), s("x")]);
    d1.levels[2].title = s("second x");
    let mut d2 = pack_data("w2", 2, &[s("y")]);
    d2.levels[0].title = s("other y");
    let catalog = Catalog::new(vec![parse_course_pack(d1), parse_course_pack(d2)]);
    assert_eq!(get_puzzle(&catalog, "x").unwrap().title, "second x");
    assert_eq!(get_puzzle(&catalog, "y").unwrap().title, "Title y");
    // world levels go through the same lookup
    let levels = get_world_levels(&catalog, "w2");
    assert_eq!(levels.len(), 1);
    assert_eq!(levels[0].title, "Title y");
}

#[test]
fn worlds_sorted_stably_with_counts() {
    let catalog = Catalog::new(vec![
        parse_course_pack(pack_data("c", 5, &[s("c1")])),
        parse_course_pack(pack_data("a", 2, &[s("a1"), s("a2")])),
        parse_course_pack(pack_data("b", 5, &[])),
        parse_course_pack(pack_data("d", 1, &[s("d1"), s("d2"), s("d3")])),
    ]);
    let worlds = get_worlds(&catalog);
    let order: Vec<(&str, u32, u32)> =
        worlds.iter().map(|w| (w.world_id.as_str(), w.sort_order, w.level_count)).collect();
    assert_eq!(order, vec![("d", 1, 3), ("a", 2, 2), ("c", 5, 1), ("b", 5, 0)]);
    assert_eq!(get_all_world_ids(&catalog), vec![s("c"), s("a"), s("b"), s("d")]);
}

#[test]
fn world_levels_one_per_id() {
    let catalog = course_catalog();
    for w in get_all_world_ids(&catalog) {
        assert_eq!(get_world_levels(&catalog, &w).len(), get_world_puzzle_ids(&catalog, &w).len());
    }
    assert!(get_world_levels(&catalog, "nope").is_empty());
}

#[test]
fn found_puzzle_has_requested_id() {
    let catalog = course_catalog();
    for p in get_all_puzzles(&catalog) {
        let found = get_puzzle(&catalog, &p.puzzle_id).unwrap();
        assert_eq!(found.puzzle_id, p.puzzle_id);
    }
}

// ─── Demo ─────────────────────────────────────────────────────────────

#[test]
fn demo_is_found_by_id() {
    let catalog = Catalog::new(vec![]);
    let p = get_puzzle(&catalog, "demo").unwrap();
    assert_eq!(p.title, "Snake Run");
    assert_eq!(p, demo_puzzle());
}

#[test]
fn demo_layout() {
    let p = demo_puzzle();
    assert_eq!(p.puzzle_id, "demo");
    assert_eq!(p.description, "Navigate the winding path and collect gems along the way!");
    assert_eq!((p.grid.width, p.grid.height), (12, 8));
    assert_eq!(p.grid.tiles.len(), 8);
    assert!(p.grid.tiles.iter().all(|r| r.len() == 12));
    assert_eq!(p.bot_start, BotState::new(Position::new(0, 0), Direction::Right));
    assert_eq!(p.completion, PuzzleObjective::ReachPosition { x: 1, y: 7 });
    assert_eq!(
        p.star_objectives,
        vec![PuzzleObjective::CollectAllGems, PuzzleObjective::MaxSteps { steps: 55 }]
    );
    assert!(p.starter_code.starts_with("// Navigate the winding path!"));
    assert_eq!(p.hint, None);
    assert_eq!(p.tutorial, None);
    let t = &p.grid.tiles;
    assert_eq!(t[7][1], Tile::goal());
    assert_eq!(t[0][5], Tile::floor().with_gem());
    assert_eq!(t[0][11], Tile::wall());
    assert_eq!(t[1][10], Tile::floor());
    assert_eq!(t[2][0], Tile::wall());
    assert_eq!(t[6][6], Tile::floor().with_gem());
    let gems = t.iter().flatten().filter(|x| x.item == Some(TileItem::Gem)).count();
    assert_eq!(gems, 6);
}

#[test]
fn wall_grid_is_all_walls() {
    let g = wall_grid(3, 2);
    assert_eq!((g.width, g.height), (3, 2));
    assert_eq!(g.tiles, vec![vec![Tile::wall(); 3]; 2]);
}

#[test]
fn set_tile_ignores_outside_positions() {
    let mut g = wall_grid(2, 2);
    g.set_tile(Position::new(1, 0), Tile::floor());
    g.set_tile(Position::new(2, 0), Tile::goal());
    g.set_tile(Position::new(0, -1), Tile::goal());
    assert_eq!(g.tiles, vec![vec![Tile::wall(), Tile::floor()], vec![Tile::wall(), Tile::wall()]]);
}

#[test]
fn all_puzzles_are_world_ids_flattened() {
    let catalog = course_catalog();
    let ids: Vec<String> = get_all_puzzles(&catalog).into_iter().map(|p| p.puzzle_id).collect();
    let by_world: Vec<String> = get_all_world_ids(&catalog)
        .iter()
        .flat_map(|w| get_world_puzzle_ids(&catalog, w))
        .collect();
    assert_eq!(ids, by_world);
    assert_eq!(ids.len(), 42);
}

#[test]
fn lookup_is_first_of_all_puzzles() {
    let mut d1 = pack_data("w1", 1, &[s("a"), s("b")]);
    d1.levels[1].title = s("b in w1");
    let mut d2 = pack_data("w2", 2, &[s("b"), s("c")]);
    d2.levels[0].title = s("b in w2");
    let catalog = Catalog::new(vec![parse_course_pack(d1), parse_course_pack(d2)]);
    let all = get_all_puzzles(&catalog);
    for id in ["a", "b", "c"] {
        let first = all.iter().find(|p| p.puzzle_id == id).unwrap();
        assert_eq!(&get_puzzle(&catalog, id).unwrap(), first);
    }
    assert_eq!(get_puzzle(&catalog, "b").unwrap().title, "b in w1");
}

#[test]
fn sort_keeps_ties_in_order() {
    let catalog = Catalog::new(vec![
        parse_course_pack(pack_data("x", 3, &[])),
        parse_course_pack(pack_data("y", 1, &[])),
        parse_course_pack(pack_data("z", 3, &[])),
        parse_course_pack(pack_data("u", 1, &[])),
    ]);
    let ids: Vec<String> = get_worlds(&catalog).into_iter().map(|w| w.world_id).collect();
    assert_eq!(ids, vec![s("y"), s("u"), s("x"), s("z")]);
}
