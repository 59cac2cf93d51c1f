//! Course data as the course files write it, and how one level of a course
//! becomes a puzzle.
use vstd::prelude::*;

use crate::map::{
    check_ascii_map, check_map_fits, has_goal, map_chars, map_error, map_fits, map_goal, map_grid,
    map_start, parse_ascii_map, MapError,
};
use crate::models::{
    duplicate_opt_string, objective_view, objectives_view, opt_string_view, ObjectiveView,
    Position, PuzzleConfig, PuzzleObjective, PuzzleView, WorldTheme,
};

verus! {

/// The world that a course file describes.
#[derive(Clone, Debug, PartialEq, Eq)]
pub struct CourseWorldData {
    pub world_id: String,
    pub title: String,
    pub description: String,
    pub story_intro: String,
    pub theme: WorldTheme,
    pub sort_order: u32,
}

/// One level of a course file.
#[derive(Debug, PartialEq, Eq)]
pub struct CourseLevelData {
    pub level_id: String,
    pub title: String,
    pub description: String,
    pub map: Vec<String>,
    pub completion: CourseCompletion,
    pub stars: CourseStars,
    pub starter_code: String,
    pub hint: Option<String>,
    pub tutorial: Option<String>,
}

/// How a level is completed: by a named preset or by an objective.
#[derive(Debug, PartialEq, Eq)]
pub enum CourseCompletion {
    Preset(CourseCompletionPreset),
    Objective(CourseObjectiveSpec),
}

#[derive(Clone, Copy, Debug, PartialEq, Eq, Structural)]
pub enum CourseCompletionPreset {
    ReachGoal,
    CollectAllGems,
    CollectAllGemsAndReachGoal,
    DepositAllGems,
    DepositAllDiamonds,
    DepositAllGemsAndReachGoal,
    DepositAllDiamondsAndReachGoal,
}

/// An objective as a course file writes it; `ReachGoal` means the level's goal tile.
#[derive(Debug, PartialEq, Eq)]
pub enum CourseObjectiveSpec {
    ReachGoal,
    ReachPosition { x: i32, y: i32 },
    CollectAllGems,
    DepositAllGems,
    DepositAllDiamonds,
    All { conditions: Vec<CourseObjectiveSpec> },
}

/// The star rules of a level.
#[derive(Clone, Copy, Debug, PartialEq, Eq, Structural)]
pub struct CourseStars {
    pub collect_all_gems: bool,
    pub max_instructions: Option<u32>,
    pub max_steps: Option<u32>,
}

/// A whole course file: its world and its levels in order.
#[derive(Debug, PartialEq, Eq)]
pub struct CoursePackData {
    pub world: CourseWorldData,
    pub levels: Vec<CourseLevelData>,
}

/// Why a level of a course file does not make a puzzle.
#[derive(Clone, Copy, Debug, PartialEq, Eq, Structural)]
pub enum LevelError {
    /// Its drawing is not a board.
    InvalidMap(MapError),
    /// Its drawing is a board too large for `i32` coordinates.
    MapTooLarge,
    /// Its completion names the goal tile but the board has none.
    MissingGoal,
}

// ---------------------------------------------------------------------------
// Meaning of course objectives
/// Reaching the goal tile `goal`.
pub open spec fn reach_goal_view(goal: Option<Position>) -> ObjectiveView {
    ObjectiveView::ReachPosition { x: goal->0.x, y: goal->0.y }
}

/// The objective that `s` writes, on a board whose goal tile is `goal`.
pub open spec fn spec_objective(s: CourseObjectiveSpec, goal: Option<Position>) -> ObjectiveView
    decreases s,
{
    match s {
        CourseObjectiveSpec::ReachGoal => reach_goal_view(goal),
        CourseObjectiveSpec::ReachPosition { x, y } => ObjectiveView::ReachPosition { x, y },
        CourseObjectiveSpec::CollectAllGems => ObjectiveView::CollectAllGems,
        CourseObjectiveSpec::DepositAllGems => ObjectiveView::DepositAllGems,
        CourseObjectiveSpec::DepositAllDiamonds => ObjectiveView::DepositAllDiamonds,
        CourseObjectiveSpec::All { conditions } => ObjectiveView::All {
            conditions: Seq::new(
                conditions@.len(),
                |i: int|
                    if 0 <= i < conditions@.len() {
                        spec_objective(conditions@[i], goal)
                    } else {
                        ObjectiveView::CollectAllGems
                    },
            ),
        },
    }
}

/// `s` mentions the goal tile somewhere.
pub open spec fn spec_needs_goal(s: CourseObjectiveSpec) -> bool
    decreases s,
{
    match s {
        CourseObjectiveSpec::ReachGoal => true,
        CourseObjectiveSpec::All { conditions } => exists|i: int|
            0 <= i < conditions@.len() && spec_needs_goal(#[trigger] conditions@[i]),
        _ => false,
    }
}

/// The objective that a completion writes, on a board whose goal tile is `goal`.
pub open spec fn completion_objective(c: CourseCompletion, goal: Option<Position>) -> ObjectiveView {
    match c {
        CourseCompletion::Preset(p) => match p {
            CourseCompletionPreset::ReachGoal => reach_goal_view(goal),
            CourseCompletionPreset::CollectAllGems => ObjectiveView::CollectAllGems,
            CourseCompletionPreset::CollectAllGemsAndReachGoal => ObjectiveView::All {
                conditions: seq![ObjectiveView::CollectAllGems, reach_goal_view(goal)],
            },
            CourseCompletionPreset::DepositAllGems => ObjectiveView::DepositAllGems,
            CourseCompletionPreset::DepositAllDiamonds => ObjectiveView::DepositAllDiamonds,
            CourseCompletionPreset::DepositAllGemsAndReachGoal => ObjectiveView::All {
                conditions: seq![ObjectiveView::DepositAllGems, reach_goal_view(goal)],
            },
            CourseCompletionPreset::DepositAllDiamondsAndReachGoal => ObjectiveView::All {
                conditions: seq![ObjectiveView::DepositAllDiamonds, reach_goal_view(goal)],
            },
        },
        CourseCompletion::Objective(s) => spec_objective(s, goal),
    }
}

/// A completion mentions the goal tile.
pub open spec fn completion_needs_goal(c: CourseCompletion) -> bool {
    match c {
        CourseCompletion::Preset(p) => p == CourseCompletionPreset::ReachGoal || p
            == CourseCompletionPreset::CollectAllGemsAndReachGoal || p
            == CourseCompletionPreset::DepositAllGemsAndReachGoal || p
            == CourseCompletionPreset::DepositAllDiamondsAndReachGoal,
        CourseCompletion::Objective(s) => spec_needs_goal(s),
    }
}

/// Meeting `o` asks, somewhere, to collect all gems.
pub open spec fn objective_requires_gems(o: ObjectiveView) -> bool
    decreases o,
{
    match o {
        ObjectiveView::CollectAllGems => true,
        ObjectiveView::All { conditions } => exists|i: int|
            0 <= i < conditions.len() && objective_requires_gems(#[trigger] conditions[i]),
        _ => false,
    }
}

/// A level's completion objective, with "collect all gems" folded in when the
/// stars ask for it and the completion does not ask for it already.
pub open spec fn level_completion(
    c: CourseCompletion,
    collect_all_gems: bool,
    goal: Option<Position>,
) -> ObjectiveView {
    let base = completion_objective(c, goal);
    if collect_all_gems && !objective_requires_gems(base) {
        ObjectiveView::All { conditions: seq![base, ObjectiveView::CollectAllGems] }
    } else {
        base
    }
}

/// The star objectives of a level: an instruction limit, then a step limit,
/// each where the level sets one.
pub open spec fn stars_view(stars: CourseStars) -> Seq<ObjectiveView> {
    let a = match stars.max_instructions {
        Some(i) => seq![ObjectiveView::MaxInstructions { instructions: i }],
        None => Seq::empty(),
    };
    let b = match stars.max_steps {
        Some(s) => seq![ObjectiveView::MaxSteps { steps: s }],
        None => Seq::empty(),
    };
    a + b
}

/// The puzzle that a level makes.
pub open spec fn level_view(level: CourseLevelData) -> PuzzleView {
    let m = map_chars(level.map@);
    PuzzleView {
        puzzle_id: level.level_id@,
        title: level.title@,
        description: level.description@,
        grid: map_grid(m),
        bot_start: map_start(m),
        completion: level_completion(level.completion, level.stars.collect_all_gems, map_goal(m)),
        star_objectives: stars_view(level.stars),
        starter_code: level.starter_code@,
        hint: opt_string_view(level.hint),
        tutorial: opt_string_view(level.tutorial),
    }
}

/// The fault that turning a level into a puzzle meets first: its drawing
/// first, then a board whose coordinates leave `i32`, then a completion that
/// names a goal the board lacks.
pub open spec fn level_error(level: CourseLevelData) -> Option<LevelError> {
    let m = map_chars(level.map@);
    match map_error(m) {
        Some(e) => Some(LevelError::InvalidMap(e)),
        None => if !map_fits(m) {
            Some(LevelError::MapTooLarge)
        } else if completion_needs_goal(level.completion) && map_goal(m) is None {
            Some(LevelError::MissingGoal)
        } else {
            None
        },
    }
}

// ---------------------------------------------------------------------------
// Executable conversions
/// Whether meeting `objective` asks, somewhere, to collect all gems.
pub fn completion_requires_collect_all_gems(objective: &PuzzleObjective) -> (r: bool)
    ensures
        r == objective_requires_gems(objective@),
    decreases objective,
{
    match objective {
        PuzzleObjective::CollectAllGems => true,
        PuzzleObjective::All { conditions } => {
            let mut i: usize = 0;
            while i < conditions.len()
                invariant
                    *objective == (PuzzleObjective::All { conditions: *conditions }),
                    i <= conditions@.len(),
                    forall|j: int|
                        0 <= j < i ==> !objective_requires_gems(objective_view(
                            #[trigger] conditions@[j],
                        )),
                decreases conditions@.len() - i,
            {
                proof {
                    assert(decreases_to!(*objective => (*objective)->conditions));
                    assert(decreases_to!(*conditions => conditions[i as int]));
                }
                if completion_requires_collect_all_gems(&conditions[i]) {
                    proof {
                        let cs = objective@->conditions;
                        assert(cs[i as int] == objective_view(conditions@[i as int]));
                    }
                    return true;
                }
                i += 1;
            }
            proof {
                let cs = objective@->conditions;
                assert forall|j: int| 0 <= j < cs.len() implies !objective_requires_gems(
                    #[trigger] cs[j],
                ) by {
                    assert(cs[j] == objective_view(conditions@[j]));
                }
            }
            false
        },
        _ => false,
    }
}

/// Reaching the goal tile of the board.
fn reach_goal(level_id: &str, goal_position: Option<Position>) -> (o: PuzzleObjective)
    requires
        goal_position is Some,
    ensures
        o@ == reach_goal_view(goal_position),
{
    let goal = match goal_position {
        Some(g) => g,
        None => Position::new(0, 0),
    };
    PuzzleObjective::ReachPosition { x: goal.x, y: goal.y }
}

/// Whether `spec` mentions the goal tile somewhere.
pub fn objective_needs_goal(spec: &CourseObjectiveSpec) -> (r: bool)
    ensures
        r == spec_needs_goal(*spec),
    decreases spec,
{
    match spec {
        CourseObjectiveSpec::ReachGoal => true,
        CourseObjectiveSpec::All { conditions } => {
            let mut i: usize = 0;
            while i < conditions.len()
                invariant
                    *spec == (CourseObjectiveSpec::All { conditions: *conditions }),
                    i <= conditions@.len(),
                    forall|j: int| 0 <= j < i ==> !spec_needs_goal(#[trigger] conditions@[j]),
                decreases conditions@.len() - i,
            {
                proof {
                    assert(decreases_to!(*spec => (*spec)->conditions));
                    assert(decreases_to!(*conditions => conditions[i as int]));
                }
                if objective_needs_goal(&conditions[i]) {
                    return true;
                }
                i += 1;
            }
            false
        },
        _ => false,
    }
}

/// The objective that `spec` writes, on a board whose goal tile is `goal_position`.
fn parse_spec(level_id: &str, spec: &CourseObjectiveSpec, goal_position: Option<Position>) -> (o:
    PuzzleObjective)
    requires
        spec_needs_goal(*spec) ==> goal_position is Some,
    ensures
        o@ == spec_objective(*spec, goal_position),
    decreases spec,
{
    match spec {
        CourseObjectiveSpec::ReachGoal => reach_goal(level_id, goal_position),
        CourseObjectiveSpec::ReachPosition { x, y } => PuzzleObjective::ReachPosition { x: *x, y: *y },
        CourseObjectiveSpec::CollectAllGems => PuzzleObjective::CollectAllGems,
        CourseObjectiveSpec::DepositAllGems => PuzzleObjective::DepositAllGems,
        CourseObjectiveSpec::DepositAllDiamonds => PuzzleObjective::DepositAllDiamonds,
        CourseObjectiveSpec::All { conditions } => {
            let mut parsed: Vec<PuzzleObjective> = Vec::new();
            let mut i: usize = 0;
            while i < conditions.len()
                invariant
                    *spec == (CourseObjectiveSpec::All { conditions: *conditions }),
                    spec_needs_goal(*spec) ==> goal_position is Some,
                    i <= conditions@.len(),
                    parsed@.len() == i,
                    forall|j: int|
                        0 <= j < i ==> objective_view(#[trigger] parsed@[j]) == spec_objective(
                            conditions@[j],
                            goal_position,
                        ),
                decreases conditions@.len() - i,
            {
                proof {
                    assert(decreases_to!(*spec => (*spec)->conditions));
                    assert(decreases_to!(*conditions => conditions[i as int]));
                    if spec_needs_goal(conditions@[i as int]) {
                        assert(spec_needs_goal(*spec));
                    }
                }
                let o = parse_spec(level_id, &conditions[i], goal_position);
                parsed.push(o);
                i += 1;
            }
            let o = PuzzleObjective::All { conditions: parsed };
            proof {
                assert(objective_view(o)->conditions =~= spec_objective(*spec, goal_position)->conditions);
            }
            o
        },
    }
}

/// Meeting both `first` and `second`.
fn both(first: PuzzleObjective, second: PuzzleObjective) -> (o: PuzzleObjective)
    ensures
        o@ == (ObjectiveView::All { conditions: seq![first@, second@] }),
{
    let mut conditions: Vec<PuzzleObjective> = Vec::new();
    conditions.push(first);
    conditions.push(second);
    let o = PuzzleObjective::All { conditions };
    assert(o@->conditions =~= seq![first@, second@]);
    o
}

/// The objective that a completion writes, on a board whose goal tile is `goal_position`.
pub fn parse_course_completion(
    level_id: &str,
    completion: CourseCompletion,
    goal_position: Option<Position>,
) -> (o: PuzzleObjective)
    requires
        completion_needs_goal(completion) ==> goal_position is Some,
    ensures
        o@ == completion_objective(completion, goal_position),
{
    match completion {
        CourseCompletion::Preset(preset) => match preset {
            CourseCompletionPreset::ReachGoal => reach_goal(level_id, goal_position),
            CourseCompletionPreset::CollectAllGems => PuzzleObjective::CollectAllGems,
            CourseCompletionPreset::CollectAllGemsAndReachGoal => {
                both(PuzzleObjective::CollectAllGems, reach_goal(level_id, goal_position))
            },
            CourseCompletionPreset::DepositAllGems => PuzzleObjective::DepositAllGems,
            CourseCompletionPreset::DepositAllDiamonds => PuzzleObjective::DepositAllDiamonds,
            CourseCompletionPreset::DepositAllGemsAndReachGoal => {
                both(PuzzleObjective::DepositAllGems, reach_goal(level_id, goal_position))
            },
            CourseCompletionPreset::DepositAllDiamondsAndReachGoal => {
                both(PuzzleObjective::DepositAllDiamonds, reach_goal(level_id, goal_position))
            },
        },
        CourseCompletion::Objective(spec) => parse_spec(level_id, &spec, goal_position),
    }
}

/// Whether a completion mentions the goal tile.
pub fn completion_mentions_goal(completion: &CourseCompletion) -> (r: bool)
    ensures
        r == completion_needs_goal(*completion),
{
    match completion {
        CourseCompletion::Preset(p) => match p {
            CourseCompletionPreset::ReachGoal => true,
            CourseCompletionPreset::CollectAllGemsAndReachGoal => true,
            CourseCompletionPreset::DepositAllGemsAndReachGoal => true,
            CourseCompletionPreset::DepositAllDiamondsAndReachGoal => true,
            _ => false,
        },
        CourseCompletion::Objective(s) => objective_needs_goal(s),
    }
}

/// The fault that turning `level` into a puzzle meets first, or `None` when
/// `parse_course_level` turns it into one.
pub fn check_course_level(level: &CourseLevelData) -> (r: Option<LevelError>)
    ensures
        r == level_error(*level),
{
    match check_ascii_map(level.map.as_slice()) {
        Some(e) => Some(LevelError::InvalidMap(e)),
        None => {
            if !check_map_fits(level.map.as_slice()) {
                return Some(LevelError::MapTooLarge);
            }
            let (_grid, _start, goal_position) = parse_ascii_map(
                level.level_id.as_str(),
                level.map.as_slice(),
            );
            if completion_mentions_goal(&level.completion) && goal_position.is_none() {
                Some(LevelError::MissingGoal)
            } else {
                None
            }
        },
    }
}

/// The puzzle that a level makes: its board read from the drawing, its
/// completion (with "collect all gems" folded in when the stars ask for it),
/// and its star objectives.
pub fn parse_course_level(level: CourseLevelData) -> (p: PuzzleConfig)
    requires
        level_error(level) is None,
    ensures
        p@ == level_view(level),
        p.puzzle_id@ == level.level_id@,
        p.title@ == level.title@,
        p.description@ == level.description@,
        p.starter_code@ == level.starter_code@,
        p.hint == level.hint,
        p.tutorial == level.tutorial,
        p.bot_start == map_start(map_chars(level.map@)),
        p.grid@ == map_grid(map_chars(level.map@)),
        level.stars.collect_all_gems ==> objective_requires_gems(p.completion@),
        !level.stars.collect_all_gems ==> p.completion@ == completion_objective(
            level.completion,
            map_goal(map_chars(level.map@)),
        ),
        p.star_objectives@.len() == (if level.stars.max_instructions is Some { 1int } else { 0 }) + (
        if level.stars.max_steps is Some { 1int } else { 0 }),
        level.stars.max_instructions matches Some(i) ==> p.star_objectives@[0]@
            == (ObjectiveView::MaxInstructions { instructions: i }),
        level.stars.max_steps matches Some(n) ==> p.star_objectives@.last()@
            == (ObjectiveView::MaxSteps { steps: n }),
{
    let ghost m = map_chars(level.map@);
    let (grid, bot_start, goal_position) = parse_ascii_map(
        level.level_id.as_str(),
        level.map.as_slice(),
    );
    let stars = level.stars;
    let mut completion = parse_course_completion(
        level.level_id.as_str(),
        level.completion,
        goal_position,
    );
    // With collect_all_gems set, the completion also asks for every gem.
    if stars.collect_all_gems {
        let already_requires_gems = completion_requires_collect_all_gems(&completion);
        if !already_requires_gems {
            completion = both(completion, PuzzleObjective::CollectAllGems);
        }
    }
    let mut star_objectives: Vec<PuzzleObjective> = Vec::new();
    match stars.max_instructions {
        Some(instructions) => star_objectives.push(PuzzleObjective::MaxInstructions { instructions }),
        None => {},
    }
    match stars.max_steps {
        Some(steps) => star_objectives.push(PuzzleObjective::MaxSteps { steps }),
        None => {},
    }
    let p = PuzzleConfig {
        puzzle_id: level.level_id,
        title: level.title,
        description: level.description,
        grid,
        bot_start,
        completion,
        star_objectives,
        starter_code: level.starter_code,
        hint: level.hint,
        tutorial: level.tutorial,
    };
    assert(objectives_view(p.star_objectives@) =~= stars_view(stars));
    proof {
        lemma_level_view_fields(level);
        lemma_stars(stars);
        if p.star_objectives@.len() > 0 {
            assert(objectives_view(p.star_objectives@)[0] == p.star_objectives@[0]@);
            let k = p.star_objectives@.len() - 1;
            assert(objectives_view(p.star_objectives@)[k] == p.star_objectives@[k]@);
        }
    }
    p
}

proof fn lemma_with_all_gems(b: ObjectiveView)
    ensures
        objective_requires_gems(
            ObjectiveView::All { conditions: seq![b, ObjectiveView::CollectAllGems] },
        ),
{
    let o = ObjectiveView::All { conditions: seq![b, ObjectiveView::CollectAllGems] };
    assert(objective_requires_gems(ObjectiveView::CollectAllGems));
    assert(o->conditions[1] == ObjectiveView::CollectAllGems);
}

/// A level whose stars ask to collect all gems gets a completion that asks
/// for all gems; without that star rule the completion is the one written.
pub proof fn lemma_collect_all_gems_folded(c: CourseCompletion, goal: Option<Position>)
    ensures
        objective_requires_gems(level_completion(c, true, goal)),
        level_completion(c, false, goal) == completion_objective(c, goal),
{
    lemma_with_all_gems(completion_objective(c, goal));
}

// ---------------------------------------------------------------------------
// Laws of course objectives

/// An objective written in a course file keeps its kind: deposits and gem
/// collection stay what they are, a position stays that position, only
/// `reach_goal` takes its position from the board's goal tile, and `all`
/// keeps its conditions in order; no course objective becomes a star limit.
pub proof fn lemma_objective_kinds(s: CourseObjectiveSpec, goal: Option<Position>)
    ensures
        (s is DepositAllDiamonds) <==> (spec_objective(s, goal) is DepositAllDiamonds),
        (s is DepositAllGems) <==> (spec_objective(s, goal) is DepositAllGems),
        (s is CollectAllGems) <==> (spec_objective(s, goal) is CollectAllGems),
        (s is ReachGoal || s is ReachPosition) <==> (spec_objective(s, goal) is ReachPosition),
        (s is All) <==> (spec_objective(s, goal) is All),
        !(spec_objective(s, goal) is MaxInstructions),
        !(spec_objective(s, goal) is MaxSteps),
        s matches CourseObjectiveSpec::ReachPosition { x, y } ==> spec_objective(s, goal)
            == (ObjectiveView::ReachPosition { x, y }),
        s is ReachGoal ==> spec_objective(s, goal) == (ObjectiveView::ReachPosition {
            x: goal->0.x,
            y: goal->0.y,
        }),
        s matches CourseObjectiveSpec::All { conditions } ==> {
            &&& spec_objective(s, goal)->conditions.len() == conditions@.len()
            &&& forall|i: int|
                0 <= i < conditions@.len() ==> spec_objective(s, goal)->conditions[i]
                    == spec_objective(#[trigger] conditions@[i], goal)
        },
{
}

/// A completion written as a preset becomes the objective that the preset names.
pub proof fn lemma_preset_objectives(p: CourseCompletionPreset, goal: Option<Position>)
    ensures
        ({
            let o = completion_objective(CourseCompletion::Preset(p), goal);
            let reach = ObjectiveView::ReachPosition { x: goal->0.x, y: goal->0.y };
            &&& p == CourseCompletionPreset::ReachGoal ==> o == reach
            &&& p == CourseCompletionPreset::CollectAllGems ==> o == ObjectiveView::CollectAllGems
            &&& p == CourseCompletionPreset::DepositAllGems ==> o == ObjectiveView::DepositAllGems
            &&& p == CourseCompletionPreset::DepositAllDiamonds ==> o
                == ObjectiveView::DepositAllDiamonds
            &&& p == CourseCompletionPreset::CollectAllGemsAndReachGoal ==> o == (ObjectiveView::All {
                conditions: seq![ObjectiveView::CollectAllGems, reach],
            })
            &&& p == CourseCompletionPreset::DepositAllGemsAndReachGoal ==> o == (ObjectiveView::All {
                conditions: seq![ObjectiveView::DepositAllGems, reach],
            })
            &&& p == CourseCompletionPreset::DepositAllDiamondsAndReachGoal ==> o == (
            ObjectiveView::All { conditions: seq![ObjectiveView::DepositAllDiamonds, reach] })
        }),
{
}

pub open spec fn origin() -> Position {
    Position { x: 0, y: 0 }
}

pub open spec fn next_to_origin() -> Position {
    Position { x: 1, y: 0 }
}

/// An objective spec needs the goal tile exactly when the objective it writes
/// depends on where the goal tile is.
pub proof fn lemma_needs_goal_iff_uses_goal(s: CourseObjectiveSpec)
    ensures
        spec_needs_goal(s) <==> spec_objective(s, Some(origin())) != spec_objective(
            s,
            Some(next_to_origin()),
        ),
        !spec_needs_goal(s) ==> forall|g1: Option<Position>, g2: Option<Position>|
            spec_objective(s, g1) == spec_objective(s, g2),
    decreases s,
{
    match s {
        CourseObjectiveSpec::All { conditions } => {
            let a = spec_objective(s, Some(origin()));
            let b = spec_objective(s, Some(next_to_origin()));
            assert forall|i: int| 0 <= i < conditions@.len() implies (spec_needs_goal(
                #[trigger] conditions@[i],
            ) <==> spec_objective(conditions@[i], Some(origin())) != spec_objective(
                conditions@[i],
                Some(next_to_origin()),
            )) && (!spec_needs_goal(conditions@[i]) ==> forall|
                g1: Option<Position>,
                g2: Option<Position>,
            | spec_objective(conditions@[i], g1) == spec_objective(conditions@[i], g2)) by {
                assert(decreases_to!(s => s->conditions));
                assert(decreases_to!(s->conditions => s->conditions[i]));
                lemma_needs_goal_iff_uses_goal(conditions@[i]);
            }
            if spec_needs_goal(s) {
                let i = choose|i: int|
                    0 <= i < conditions@.len() && spec_needs_goal(#[trigger] conditions@[i]);
                assert(a->conditions[i] != b->conditions[i]);
            } else {
                assert forall|g1: Option<Position>, g2: Option<Position>| spec_objective(s, g1)
                    == spec_objective(s, g2) by {
                    assert forall|i: int| 0 <= i < conditions@.len() implies spec_objective(
                        s,
                        g1,
                    )->conditions[i] == spec_objective(s, g2)->conditions[i] by {
                        assert(!spec_needs_goal(conditions@[i]));
                        assert(spec_objective(conditions@[i], g1) == spec_objective(
                            conditions@[i],
                            g2,
                        ));
                    }
                    assert(spec_objective(s, g1)->conditions =~= spec_objective(s, g2)->conditions);
                }
            }
        },
        _ => {},
    }
}

/// A completion needs the goal tile exactly when the objective it writes
/// depends on where the goal tile is.
pub proof fn lemma_completion_needs_goal_iff_uses_goal(c: CourseCompletion)
    ensures
        completion_needs_goal(c) <==> completion_objective(c, Some(origin()))
            != completion_objective(c, Some(next_to_origin())),
        !completion_needs_goal(c) ==> forall|g1: Option<Position>, g2: Option<Position>|
            completion_objective(c, g1) == completion_objective(c, g2),
{
    match c {
        CourseCompletion::Objective(s) => lemma_needs_goal_iff_uses_goal(s),
        CourseCompletion::Preset(p) => {
            let a = completion_objective(c, Some(origin()));
            let b = completion_objective(c, Some(next_to_origin()));
            if p == CourseCompletionPreset::CollectAllGemsAndReachGoal || p
                == CourseCompletionPreset::DepositAllGemsAndReachGoal || p
                == CourseCompletionPreset::DepositAllDiamondsAndReachGoal {
                assert(a->conditions[1] != b->conditions[1]);
            }
        },
    }
}

/// A level is refused for a missing goal exactly when its drawing is a board
/// that fits, has no goal tile, and its completion depends on the goal tile.
pub proof fn lemma_missing_goal_iff(level: CourseLevelData)
    ensures
        level_error(level) == Some(LevelError::MissingGoal) <==> ({
            let m = map_chars(level.map@);
            &&& map_error(m) is None
            &&& map_fits(m)
            &&& !has_goal(m)
            &&& completion_objective(level.completion, Some(origin())) != completion_objective(
                level.completion,
                Some(next_to_origin()),
            )
        }),
{
    lemma_completion_needs_goal_iff_uses_goal(level.completion);
}

/// A level whose drawing is a board that fits and whose completion does not
/// depend on the goal tile makes a puzzle, with or without a goal tile.
pub proof fn lemma_level_without_goal_ok(level: CourseLevelData)
    requires
        map_error(map_chars(level.map@)) is None,
        map_fits(map_chars(level.map@)),
        completion_objective(level.completion, Some(origin())) == completion_objective(
            level.completion,
            Some(next_to_origin()),
        ),
    ensures
        level_error(level) is None,
{
    lemma_completion_needs_goal_iff_uses_goal(level.completion);
}

/// The star objectives of a level: one per limit the level sets, the
/// instruction limit first and the step limit last.
pub proof fn lemma_stars(stars: CourseStars)
    ensures
        stars_view(stars).len() == (if stars.max_instructions is Some { 1int } else { 0 }) + (
        if stars.max_steps is Some { 1int } else { 0 }),
        stars.max_instructions matches Some(i) ==> stars_view(stars)[0]
            == (ObjectiveView::MaxInstructions { instructions: i }),
        stars.max_steps matches Some(n) ==> stars_view(stars).last() == (ObjectiveView::MaxSteps {
            steps: n,
        }),
{
}

/// The puzzle that a level makes carries the level's texts unchanged, the
/// board that its drawing draws, and its star limits.
pub proof fn lemma_level_view_fields(level: CourseLevelData)
    ensures
        level_view(level).puzzle_id == level.level_id@,
        level_view(level).title == level.title@,
        level_view(level).description == level.description@,
        level_view(level).starter_code == level.starter_code@,
        level_view(level).hint == opt_string_view(level.hint),
        level_view(level).tutorial == opt_string_view(level.tutorial),
        level_view(level).grid == map_grid(map_chars(level.map@)),
        level_view(level).bot_start == map_start(map_chars(level.map@)),
        level_view(level).star_objectives == stars_view(level.stars),
        level.stars.collect_all_gems ==> objective_requires_gems(level_view(level).completion),
        !level.stars.collect_all_gems ==> level_view(level).completion == completion_objective(
            level.completion,
            map_goal(map_chars(level.map@)),
        ),
{
    lemma_collect_all_gems_folded(level.completion, map_goal(map_chars(level.map@)));
}

} // verus!
