//! The worlds and puzzles of the course packs, and the queries the frontend
//! makes on them.
use vstd::prelude::*;

use crate::course::{
    check_course_level, level_error, level_view, parse_course_level,
    CourseLevelData, CoursePackData, CourseWorldData, LevelError,
};
use crate::demo::{demo_puzzle, demo_view};
use crate::models::{LevelSummary, PuzzleConfig, PuzzleView, WorldInfo, WorldTheme, WorldUnlock};

verus! {

/// A world as the course packs define it.
#[derive(Clone, Debug, PartialEq, Eq)]
pub struct HardcodedWorldDefinition {
    pub world_id: String,
    pub title: String,
    pub description: String,
    pub story_intro: String,
    pub theme: WorldTheme,
    pub sort_order: u32,
    pub unlock: WorldUnlock,
}

impl HardcodedWorldDefinition {
    /// A copy of the world with the same content.
    pub fn duplicate(&self) -> (w: HardcodedWorldDefinition)
        ensures
            w == *self,
    {
        HardcodedWorldDefinition {
            world_id: self.world_id.clone(),
            title: self.title.clone(),
            description: self.description.clone(),
            story_intro: self.story_intro.clone(),
            theme: self.theme.duplicate(),
            sort_order: self.sort_order,
            unlock: self.unlock,
        }
    }
}

/// The world of a course file; every such world is open.
pub open spec fn world_of(w: CourseWorldData) -> HardcodedWorldDefinition {
    HardcodedWorldDefinition {
        world_id: w.world_id,
        title: w.title,
        description: w.description,
        story_intro: w.story_intro,
        theme: w.theme,
        sort_order: w.sort_order,
        unlock: WorldUnlock::Open,
    }
}

/// A course pack read from its file: the world, its puzzles in file order,
/// and their ids in the same order.
pub struct ParsedCoursePack {
    world: HardcodedWorldDefinition,
    puzzles: Vec<PuzzleConfig>,
    puzzle_ids: Vec<String>,
}

/// The mathematical content of a course pack.
pub struct PackView {
    pub world: HardcodedWorldDefinition,
    pub puzzles: Seq<PuzzleView>,
}

pub open spec fn puzzles_view(s: Seq<PuzzleConfig>) -> Seq<PuzzleView> {
    Seq::new(s.len(), |i: int| s[i]@)
}

pub open spec fn strings_view(s: Seq<String>) -> Seq<Seq<char>> {
    Seq::new(s.len(), |i: int| s[i]@)
}

proof fn lemma_puzzles_view_push(s: Seq<PuzzleConfig>, x: PuzzleConfig)
    ensures
        puzzles_view(s.push(x)) == puzzles_view(s).push(x@),
{
    assert(puzzles_view(s.push(x)) =~= puzzles_view(s).push(x@));
}

proof fn lemma_strings_view_push(s: Seq<String>, x: String)
    ensures
        strings_view(s.push(x)) == strings_view(s).push(x@),
{
    assert(strings_view(s.push(x)) =~= strings_view(s).push(x@));
}

impl ParsedCoursePack {
    /// The ids list the puzzles' ids in order.
    #[verifier::type_invariant]
    closed spec fn ids_match(self) -> bool {
        &&& self.puzzle_ids@.len() == self.puzzles@.len()
        &&& forall|i: int|
            0 <= i < self.puzzles@.len() ==> (#[trigger] self.puzzle_ids@[i])@
                == self.puzzles@[i].puzzle_id@
    }

    pub closed spec fn spec_view(self) -> PackView {
        PackView { world: self.world, puzzles: puzzles_view(self.puzzles@) }
    }
}

impl View for ParsedCoursePack {
    type V = PackView;

    open spec fn view(&self) -> PackView {
        self.spec_view()
    }
}

/// The world that a course file describes.
fn parse_world(world: CourseWorldData) -> (w: HardcodedWorldDefinition)
    ensures
        w == world_of(world),
{
    HardcodedWorldDefinition {
        world_id: world.world_id,
        title: world.title,
        description: world.description,
        story_intro: world.story_intro,
        theme: world.theme,
        sort_order: world.sort_order,
        unlock: WorldUnlock::Open,
    }
}

/// Every level of the file makes a puzzle.
pub open spec fn pack_data_ok(data: CoursePackData) -> bool {
    forall|i: int|
        0 <= i < data.levels@.len() ==> level_error(#[trigger] data.levels@[i]) is None
}

/// Reads a course pack from the data of its file: its world, and one puzzle
/// per level in file order.
pub fn parse_course_pack(data: CoursePackData) -> (p: ParsedCoursePack)
    requires
        pack_data_ok(data),
    ensures
        p@.world == world_of(data.world),
        p@.puzzles == Seq::new(data.levels@.len(), |i: int| level_view(data.levels@[i])),
        p@.world.world_id == data.world.world_id,
        p@.world.title == data.world.title,
        p@.world.description == data.world.description,
        p@.world.story_intro == data.world.story_intro,
        p@.world.theme == data.world.theme,
        p@.world.sort_order == data.world.sort_order,
        p@.world.unlock == WorldUnlock::Open,
        p@.puzzles.len() == data.levels@.len(),
        forall|i: int|
            0 <= i < data.levels@.len() ==> {
                &&& (#[trigger] p@.puzzles[i]).puzzle_id == data.levels@[i].level_id@
                &&& p@.puzzles[i].title == data.levels@[i].title@
                &&& p@.puzzles[i].description == data.levels@[i].description@
                &&& p@.puzzles[i].starter_code == data.levels@[i].starter_code@
            },
{
    let ghost levels = data.levels@;
    let world = parse_world(data.world);
    let mut puzzles: Vec<PuzzleConfig> = Vec::new();
    let mut puzzle_ids: Vec<String> = Vec::new();
    let n = data.levels.len();
    let mut i: usize = 0;
    for level in it: data.levels.into_iter()
        invariant
            it.seq() == levels,
            i == it.index(),
            pack_data_ok(data),
            levels == data.levels@,
            levels.len() == n,
            puzzles@.len() == i,
            puzzle_ids@.len() == i,
            forall|j: int| 0 <= j < i ==> (#[trigger] puzzles@[j])@ == level_view(levels[j]),
            forall|j: int| 0 <= j < i ==> (#[trigger] puzzle_ids@[j])@ == puzzles@[j].puzzle_id@,
    {
        assert(level == levels[i as int]);
        let puzzle = parse_course_level(level);
        puzzle_ids.push(puzzle.puzzle_id.clone());
        puzzles.push(puzzle);
        i = i + 1;
    }
    let p = ParsedCoursePack { world, puzzles, puzzle_ids };
    assert(p@.puzzles =~= Seq::new(levels.len(), |i: int| level_view(levels[i])));
    proof {
        assert forall|i: int| 0 <= i < levels.len() implies {
            &&& (#[trigger] p@.puzzles[i]).puzzle_id == levels[i].level_id@
            &&& p@.puzzles[i].title == levels[i].title@
            &&& p@.puzzles[i].description == levels[i].description@
            &&& p@.puzzles[i].starter_code == levels[i].starter_code@
        } by {
            crate::course::lemma_level_view_fields(levels[i]);
        }
    }
    p
}

/// The first level of the file that does not make a puzzle, with its fault.
pub fn check_course_pack(data: &CoursePackData) -> (r: Option<(usize, LevelError)>)
    ensures
        r is None <==> pack_data_ok(*data),
        r matches Some((i, e)) ==> i < data.levels@.len() && level_error(data.levels@[i as int])
            == Some(e) && forall|j: int| 0 <= j < i ==> level_error(#[trigger] data.levels@[j]) is None,
{
    let mut i: usize = 0;
    while i < data.levels.len()
        invariant
            i <= data.levels@.len(),
            forall|j: int| 0 <= j < i ==> level_error(#[trigger] data.levels@[j]) is None,
        decreases data.levels@.len() - i,
    {
        match check_course_level(&data.levels[i]) {
            Some(e) => {
                return Some((i, e));
            },
            None => {},
        }
        i = i + 1;
    }
    None
}

// ---------------------------------------------------------------------------
// The catalog of course packs
/// The course packs, in the order in which they are searched.
pub struct Catalog {
    packs: Vec<ParsedCoursePack>,
}

impl Catalog {
    pub closed spec fn spec_view(self) -> Seq<PackView> {
        Seq::new(self.packs@.len(), |i: int| self.packs@[i]@)
    }

    pub fn new(packs: Vec<ParsedCoursePack>) -> (c: Catalog)
        ensures
            c@ == Seq::new(packs@.len(), |i: int| packs@[i]@),
    {
        Catalog { packs }
    }
}

impl View for Catalog {
    type V = Seq<PackView>;

    open spec fn view(&self) -> Seq<PackView> {
        self.spec_view()
    }
}

/// The worlds of the packs, in pack order.
pub open spec fn catalog_worlds(packs: Seq<PackView>) -> Seq<HardcodedWorldDefinition> {
    Seq::new(packs.len(), |i: int| packs[i].world)
}

/// The puzzles of all packs, pack after pack, each in file order.
pub open spec fn catalog_puzzles(packs: Seq<PackView>) -> Seq<PuzzleView>
    decreases packs.len(),
{
    if packs.len() == 0 {
        Seq::empty()
    } else {
        catalog_puzzles(packs.drop_last()) + packs.last().puzzles
    }
}

/// The last of `puzzles` with id `id`, as a map keyed by id keeps it.
pub open spec fn pack_find(puzzles: Seq<PuzzleView>, id: Seq<char>) -> Option<PuzzleView>
    decreases puzzles.len(),
{
    if puzzles.len() == 0 {
        None
    } else if puzzles.last().puzzle_id == id {
        Some(puzzles.last())
    } else {
        pack_find(puzzles.drop_last(), id)
    }
}

/// The puzzle with id `id` in the first pack from `k` on that has one.
pub open spec fn catalog_find(packs: Seq<PackView>, k: int, id: Seq<char>) -> Option<PuzzleView>
    decreases packs.len() - k,
{
    if k < 0 || k >= packs.len() {
        None
    } else {
        match pack_find(packs[k].puzzles, id) {
            Some(p) => Some(p),
            None => catalog_find(packs, k + 1, id),
        }
    }
}

/// The puzzle that `get_puzzle` finds for `id`: the demo for `"demo"`, else
/// the one that the packs hold under that id.
pub open spec fn find_puzzle(packs: Seq<PackView>, id: Seq<char>) -> Option<PuzzleView> {
    if id == "demo"@ {
        Some(demo_view())
    } else {
        catalog_find(packs, 0, id)
    }
}

/// The puzzle ids of a pack, in file order.
pub open spec fn pack_ids(p: PackView) -> Seq<Seq<char>> {
    Seq::new(p.puzzles.len(), |i: int| p.puzzles[i].puzzle_id)
}

/// The puzzle ids of the first pack from `k` on whose world has id `world_id`.
pub open spec fn world_puzzle_ids(packs: Seq<PackView>, k: int, world_id: Seq<char>) -> Seq<Seq<char>>
    decreases packs.len() - k,
{
    if k < 0 || k >= packs.len() {
        Seq::empty()
    } else if packs[k].world.world_id@ == world_id {
        pack_ids(packs[k])
    } else {
        world_puzzle_ids(packs, k + 1, world_id)
    }
}

pub open spec fn opt_puzzle_view(p: Option<PuzzleConfig>) -> Option<PuzzleView> {
    match p {
        Some(q) => Some(q@),
        None => None,
    }
}

/// Every world of the packs.
pub fn get_hardcoded_worlds(catalog: &Catalog) -> (r: Vec<HardcodedWorldDefinition>)
    ensures
        r@ == catalog_worlds(catalog@),
{
    let mut r: Vec<HardcodedWorldDefinition> = Vec::new();
    for k in 0..catalog.packs.len()
        invariant
            r@ == catalog_worlds(catalog@).take(k as int),
    {
        r.push(catalog.packs[k].world.duplicate());
        assert(r@ =~= catalog_worlds(catalog@).take(k + 1));
    }
    assert(r@ =~= catalog_worlds(catalog@));
    r
}

/// The ids of every world, in pack order.
pub fn get_all_world_ids(catalog: &Catalog) -> (r: Vec<String>)
    ensures
        strings_view(r@) == Seq::new(catalog@.len(), |i: int| catalog@[i].world.world_id@),
{
    let worlds = get_hardcoded_worlds(catalog);
    let ghost ws = worlds@;
    let mut r: Vec<String> = Vec::new();
    let mut i: usize = 0;
    let n = worlds.len();
    for w in it: worlds.into_iter()
        invariant
            it.seq() == ws,
            ws.len() == n,
            i == it.index(),
            ws == catalog_worlds(catalog@),
            strings_view(r@) == Seq::new(i as nat, |j: int| ws[j].world_id@),
    {
        assert(w == ws[i as int]);
        let ghost old_r = r@;
        r.push(w.world_id);
        proof {
            lemma_strings_view_push(old_r, ws[i as int].world_id);
        }
        i = i + 1;
        assert(strings_view(r@) =~= Seq::new(i as nat, |j: int| ws[j].world_id@));
    }
    assert(strings_view(r@) =~= Seq::new(catalog@.len(), |i: int| catalog@[i].world.world_id@));
    r
}

/// Every puzzle of every pack, pack after pack.
pub fn get_all_puzzles(catalog: &Catalog) -> (r: Vec<PuzzleConfig>)
    ensures
        puzzles_view(r@) == catalog_puzzles(catalog@),
{
    let ghost packs = catalog@;
    let mut r: Vec<PuzzleConfig> = Vec::new();
    for k in 0..catalog.packs.len()
        invariant
            packs == catalog@,
            packs.len() == catalog.packs@.len(),
            puzzles_view(r@) == catalog_puzzles(packs.take(k as int)),
    {
        let pack = &catalog.packs[k];
        assert(pack@ == packs[k as int]);
        let ghost before = puzzles_view(r@);
        for j in 0..pack.puzzles.len()
            invariant
                k < packs.len(),
                pack@ == packs[k as int],
                puzzles_view(r@) == before + pack@.puzzles.take(j as int),
        {
            let q = pack.puzzles[j].duplicate();
            let ghost old_r = r@;
            r.push(q);
            proof {
                lemma_puzzles_view_push(old_r, q);
            }
            assert(puzzles_view(r@) =~= before + pack@.puzzles.take(j + 1));
        }
        assert(packs.take(k + 1).drop_last() =~= packs.take(k as int));
        assert(pack@.puzzles.take(pack.puzzles@.len() as int) =~= pack@.puzzles);
        assert(puzzles_view(r@) =~= catalog_puzzles(packs.take(k + 1)));
    }
    assert(packs.take(packs.len() as int) =~= packs);
    r
}

/// The last puzzle of `pack` with id `id`, copied.
fn pack_get(pack: &ParsedCoursePack, id: &String) -> (r: Option<PuzzleConfig>)
    ensures
        opt_puzzle_view(r) == pack_find(pack@.puzzles, id@),
{
    let ghost s = pack@.puzzles;
    let mut i = pack.puzzles.len();
    assert(s.take(i as int) =~= s);
    while i > 0
        invariant
            i <= pack.puzzles@.len(),
            s == pack@.puzzles,
            pack_find(s, id@) == pack_find(s.take(i as int), id@),
        decreases i,
    {
        assert(s.take(i as int).last() == s[i - 1]);
        if pack.puzzles[i - 1].puzzle_id == *id {
            return Some(pack.puzzles[i - 1].duplicate());
        }
        assert(s.take(i as int).drop_last() =~= s.take(i - 1));
        i = i - 1;
    }
    None
}

/// The puzzle with id `puzzle_id`: the demo for `"demo"`, else the one the
/// packs hold under that id, searched pack by pack.
pub fn get_puzzle(catalog: &Catalog, puzzle_id: &str) -> (r: Option<PuzzleConfig>)
    ensures
        opt_puzzle_view(r) == find_puzzle(catalog@, puzzle_id@),
{
    let wanted = puzzle_id.to_owned();
    let demo_id = "demo".to_owned();
    if wanted == demo_id {
        return Some(demo_puzzle());
    }
    let ghost packs = catalog@;
    let mut k: usize = 0;
    while k < catalog.packs.len()
        invariant
            packs == catalog@,
            packs.len() == catalog.packs@.len(),
            k <= packs.len(),
            wanted@ == puzzle_id@,
            puzzle_id@ != "demo"@,
            find_puzzle(packs, puzzle_id@) == catalog_find(packs, k as int, puzzle_id@),
        decreases packs.len() - k,
    {
        match pack_get(&catalog.packs[k], &wanted) {
            Some(p) => {
                return Some(p);
            },
            None => {},
        }
        k = k + 1;
    }
    None
}

/// The puzzle ids of the first pack whose world has id `world_id`; none when
/// no world has it.
pub fn get_world_puzzle_ids(catalog: &Catalog, world_id: &str) -> (r: Vec<String>)
    ensures
        strings_view(r@) == world_puzzle_ids(catalog@, 0, world_id@),
{
    let wanted = world_id.to_owned();
    let ghost packs = catalog@;
    let mut k: usize = 0;
    while k < catalog.packs.len()
        invariant
            packs == catalog@,
            packs.len() == catalog.packs@.len(),
            k <= packs.len(),
            wanted@ == world_id@,
            world_puzzle_ids(packs, 0, world_id@) == world_puzzle_ids(packs, k as int, world_id@),
        decreases packs.len() - k,
    {
        let pack = &catalog.packs[k];
        if pack.world.world_id == wanted {
            proof {
                use_type_invariant(pack);
            }
            let mut ids: Vec<String> = Vec::new();
            for j in 0..pack.puzzle_ids.len()
                invariant
                    k < packs.len(),
                    pack@ == packs[k as int],
                    pack.puzzle_ids@.len() == pack.puzzles@.len(),
                    forall|i: int|
                        0 <= i < pack.puzzles@.len() ==> (#[trigger] pack.puzzle_ids@[i])@
                            == pack.puzzles@[i].puzzle_id@,
                    strings_view(ids@) == pack_ids(packs[k as int]).take(j as int),
            {
                let id = pack.puzzle_ids[j].clone();
                let ghost old_ids = ids@;
                ids.push(id);
                proof {
                    lemma_strings_view_push(old_ids, id);
                }
                assert(strings_view(ids@) =~= pack_ids(packs[k as int]).take(j + 1));
            }
            assert(pack_ids(packs[k as int]).take(pack.puzzle_ids@.len() as int) =~= pack_ids(
                packs[k as int],
            ));
            return ids;
        }
        k = k + 1;
    }
    let r: Vec<String> = Vec::new();
    assert(strings_view(r@) =~= Seq::empty());
    r
}

// ---------------------------------------------------------------------------
// Worlds in display order
/// `w` inserted into `s` after every world whose sort order is not larger.
pub open spec fn insert_by_order(s: Seq<HardcodedWorldDefinition>, w: HardcodedWorldDefinition) -> Seq<
    HardcodedWorldDefinition,
>
    decreases s.len(),
{
    if s.len() == 0 || s.last().sort_order <= w.sort_order {
        s.push(w)
    } else {
        insert_by_order(s.drop_last(), w).push(s.last())
    }
}

/// `s` stably sorted by sort order.
pub open spec fn sort_by_order(s: Seq<HardcodedWorldDefinition>) -> Seq<HardcodedWorldDefinition>
    decreases s.len(),
{
    if s.len() == 0 {
        s
    } else {
        insert_by_order(sort_by_order(s.drop_last()), s.last())
    }
}

/// Inserting at `pos`, the place after the last world not ordered after `w`,
/// is `insert_by_order`.
proof fn lemma_insert_at(s: Seq<HardcodedWorldDefinition>, w: HardcodedWorldDefinition, pos: int)
    requires
        0 <= pos <= s.len(),
        forall|t: int| pos <= t < s.len() ==> (#[trigger] s[t]).sort_order > w.sort_order,
        pos == 0 || s[pos - 1].sort_order <= w.sort_order,
    ensures
        insert_by_order(s, w) == s.insert(pos, w),
    decreases s.len(),
{
    if s.len() == 0 {
        assert(s.push(w) =~= s.insert(pos, w));
    } else if s.last().sort_order <= w.sort_order {
        assert(pos == s.len());
        assert(s.push(w) =~= s.insert(pos, w));
    } else {
        let d = s.drop_last();
        assert(pos < s.len());
        lemma_insert_at(d, w, pos);
        assert(d.insert(pos, w).push(s.last()) =~= s.insert(pos, w));
    }
}

/// Sorts the worlds stably by sort order.
fn sort_worlds(worlds: Vec<HardcodedWorldDefinition>) -> (r: Vec<HardcodedWorldDefinition>)
    ensures
        r@ == sort_by_order(worlds@),
{
    let ghost ws = worlds@;
    let n = worlds.len();
    let mut r: Vec<HardcodedWorldDefinition> = Vec::new();
    let mut i: usize = 0;
    for w in it: worlds.into_iter()
        invariant
            it.seq() == ws,
            ws.len() == n,
            i == it.index(),
            r@ == sort_by_order(ws.take(i as int)),
    {
        assert(w == ws[i as int]);
        let mut pos = r.len();
        while pos > 0 && r[pos - 1].sort_order > w.sort_order
            invariant
                pos <= r@.len(),
                forall|t: int| pos <= t < r@.len() ==> (#[trigger] r@[t]).sort_order > w.sort_order,
            decreases pos,
        {
            pos = pos - 1;
        }
        proof {
            lemma_insert_at(r@, w, pos as int);
            assert(ws.take(i + 1).drop_last() =~= ws.take(i as int));
        }
        r.insert(pos, w);
        i = i + 1;
    }
    assert(ws.take(n as int) =~= ws);
    r
}

/// The record of world `w` as the frontend lists it, with its level count.
pub open spec fn world_info_of(w: HardcodedWorldDefinition, packs: Seq<PackView>) -> WorldInfo {
    WorldInfo {
        world_id: w.world_id,
        title: w.title,
        description: w.description,
        story_intro: w.story_intro,
        theme: w.theme,
        sort_order: w.sort_order,
        unlock: w.unlock,
        level_count: world_puzzle_ids(packs, 0, w.world_id@).len() as u32,
    }
}

/// Every world, stably sorted by sort order, each with the number of puzzle
/// ids its id is listed with.
pub fn get_worlds(catalog: &Catalog) -> (r: Vec<WorldInfo>)
    ensures
        r@.len() == catalog@.len(),
        forall|i: int|
            0 <= i < r@.len() ==> #[trigger] r@[i] == world_info_of(
                sort_by_order(catalog_worlds(catalog@))[i],
                catalog@,
            ),
        forall|i: int|
            #![trigger r@[i]]
            0 <= i < r@.len() ==> exists|j: int|
                0 <= j < catalog@.len() && {
                    let w = #[trigger] catalog@[j].world;
                    &&& r@[i].world_id == w.world_id
                    &&& r@[i].title == w.title
                    &&& r@[i].description == w.description
                    &&& r@[i].story_intro == w.story_intro
                    &&& r@[i].theme == w.theme
                    &&& r@[i].sort_order == w.sort_order
                    &&& r@[i].unlock == w.unlock
                },
        forall|i: int|
            0 <= i < r@.len() ==> (#[trigger] r@[i]).level_count == world_puzzle_ids(
                catalog@,
                0,
                r@[i].world_id@,
            ).len() as u32,
        forall|i: int, j: int| 0 <= i < j < r@.len() ==> r@[i].sort_order <= r@[j].sort_order,
{
    let worlds = sort_worlds(get_hardcoded_worlds(catalog));
    let ghost ws = worlds@;
    proof {
        lemma_sort_by_order(catalog_worlds(catalog@));
    }
    let n = worlds.len();
    let mut r: Vec<WorldInfo> = Vec::new();
    let mut i: usize = 0;
    for w in it: worlds.into_iter()
        invariant
            it.seq() == ws,
            ws.len() == n,
            i == it.index(),
            ws == sort_by_order(catalog_worlds(catalog@)),
            r@.len() == i,
            forall|j: int| 0 <= j < i ==> #[trigger] r@[j] == world_info_of(ws[j], catalog@),
    {
        assert(w == ws[i as int]);
        let level_count = get_world_puzzle_ids(catalog, w.world_id.as_str()).len() as u32;
        r.push(
            WorldInfo {
                world_id: w.world_id,
                title: w.title,
                description: w.description,
                story_intro: w.story_intro,
                theme: w.theme,
                sort_order: w.sort_order,
                unlock: w.unlock,
                level_count,
            },
        );
        i = i + 1;
    }
    proof {
        broadcast use vstd::seq_lib::group_to_multiset_ensures;

        let cw = catalog_worlds(catalog@);
        assert forall|t: int| #![trigger r@[t]] 0 <= t < r@.len() implies exists|j: int|
            0 <= j < catalog@.len() && {
                let w = #[trigger] catalog@[j].world;
                &&& r@[t].world_id == w.world_id
                &&& r@[t].title == w.title
                &&& r@[t].description == w.description
                &&& r@[t].story_intro == w.story_intro
                &&& r@[t].theme == w.theme
                &&& r@[t].sort_order == w.sort_order
                &&& r@[t].unlock == w.unlock
            } by {
            assert(r@[t] == world_info_of(ws[t], catalog@));
            assert(ws.contains(ws[t]));
            assert(ws.to_multiset().count(ws[t]) > 0);
            assert(cw.contains(ws[t]));
            let j = choose|j: int| 0 <= j < cw.len() && cw[j] == ws[t];
            assert(catalog@[j].world == cw[j]);
        }
        assert forall|a: int, b: int| 0 <= a < b < r@.len() implies r@[a].sort_order
            <= r@[b].sort_order by {
            assert(r@[a] == world_info_of(ws[a], catalog@));
            assert(r@[b] == world_info_of(ws[b], catalog@));
        }
    }
    r
}

// ---------------------------------------------------------------------------
// Levels of a world
pub open spec fn summary_view(s: LevelSummary) -> (Seq<char>, Seq<char>, Seq<char>) {
    (s.puzzle_id@, s.title@, s.description@)
}

pub open spec fn summaries_view(s: Seq<LevelSummary>) -> Seq<(Seq<char>, Seq<char>, Seq<char>)> {
    Seq::new(s.len(), |i: int| summary_view(s[i]))
}

/// The summaries of the puzzles that `get_puzzle` finds for `ids`, in order,
/// skipping ids it finds none for.
pub open spec fn world_summaries(packs: Seq<PackView>, ids: Seq<Seq<char>>) -> Seq<
    (Seq<char>, Seq<char>, Seq<char>),
>
    decreases ids.len(),
{
    if ids.len() == 0 {
        Seq::empty()
    } else {
        let rest = world_summaries(packs, ids.drop_last());
        match find_puzzle(packs, ids.last()) {
            Some(p) => rest.push((p.puzzle_id, p.title, p.description)),
            None => rest,
        }
    }
}

/// The levels of world `world_id`, as the frontend lists them.
pub fn get_world_levels(catalog: &Catalog, world_id: &str) -> (r: Vec<LevelSummary>)
    ensures
        summaries_view(r@) == world_summaries(catalog@, world_puzzle_ids(catalog@, 0, world_id@)),
        r@.len() <= world_puzzle_ids(catalog@, 0, world_id@).len(),
        forall|t: int|
            0 <= t < r@.len() ==> {
                &&& find_puzzle(catalog@, (#[trigger] r@[t]).puzzle_id@) is Some
                &&& r@[t].title@ == find_puzzle(catalog@, r@[t].puzzle_id@)->0.title
                &&& r@[t].description@ == find_puzzle(catalog@, r@[t].puzzle_id@)->0.description
                &&& world_puzzle_ids(catalog@, 0, world_id@).contains(r@[t].puzzle_id@)
            },
{
    let puzzle_ids = get_world_puzzle_ids(catalog, world_id);
    let ghost ids = strings_view(puzzle_ids@);
    let mut r: Vec<LevelSummary> = Vec::new();
    for i in 0..puzzle_ids.len()
        invariant
            ids == strings_view(puzzle_ids@),
            summaries_view(r@) == world_summaries(catalog@, ids.take(i as int)),
    {
        assert(ids.take(i + 1).drop_last() =~= ids.take(i as int));
        assert(ids.take(i + 1).last() == puzzle_ids@[i as int]@);
        match get_puzzle(catalog, puzzle_ids[i].as_str()) {
            Some(p) => {
                let ghost old_r = r@;
                r.push(LevelSummary { puzzle_id: p.puzzle_id, title: p.title, description: p.description });
                assert(summaries_view(r@) =~= summaries_view(old_r).push(summary_view(r@.last())));
            },
            None => {},
        }
    }
    assert(ids.take(ids.len() as int) =~= ids);
    proof {
        lemma_world_summaries_found(catalog@, ids);
        assert forall|t: int| 0 <= t < r@.len() implies {
            &&& find_puzzle(catalog@, (#[trigger] r@[t]).puzzle_id@) is Some
            &&& r@[t].title@ == find_puzzle(catalog@, r@[t].puzzle_id@)->0.title
            &&& r@[t].description@ == find_puzzle(catalog@, r@[t].puzzle_id@)->0.description
            &&& ids.contains(r@[t].puzzle_id@)
        } by {
            assert(summaries_view(r@)[t] == summary_view(r@[t]));
        }
    }
    r
}

/// Each level that `get_world_levels` lists is the puzzle that `get_puzzle`
/// finds for one of the world's ids: its id, title and description are that
/// puzzle's, and no more levels are listed than the world has ids.
pub proof fn lemma_world_summaries_found(packs: Seq<PackView>, ids: Seq<Seq<char>>)
    ensures
        world_summaries(packs, ids).len() <= ids.len(),
        forall|t: int|
            0 <= t < world_summaries(packs, ids).len() ==> {
                let e = #[trigger] world_summaries(packs, ids)[t];
                &&& find_puzzle(packs, e.0) is Some
                &&& e.1 == find_puzzle(packs, e.0)->0.title
                &&& e.2 == find_puzzle(packs, e.0)->0.description
                &&& ids.contains(e.0)
            },
    decreases ids.len(),
{
    if ids.len() > 0 {
        let d = ids.drop_last();
        lemma_world_summaries_found(packs, d);
        let rest = world_summaries(packs, d);
        let ws = world_summaries(packs, ids);
        lemma_found_puzzle_has_id(packs, ids.last());
        assert forall|t: int| 0 <= t < ws.len() implies {
            let e = #[trigger] ws[t];
            &&& find_puzzle(packs, e.0) is Some
            &&& e.1 == find_puzzle(packs, e.0)->0.title
            &&& e.2 == find_puzzle(packs, e.0)->0.description
            &&& ids.contains(e.0)
        } by {
            if t < rest.len() {
                assert(ws[t] == rest[t]);
                let k = choose|k: int| 0 <= k < d.len() && d[k] == rest[t].0;
                assert(ids[k] == d[k]);
            } else {
                assert(ids[ids.len() - 1] == ids.last());
            }
        }
    }
}

// ---------------------------------------------------------------------------
// Laws

/// Worlds ordered by sort order, the smaller first.
pub open spec fn ordered_by_sort_order(s: Seq<HardcodedWorldDefinition>) -> bool {
    forall|i: int, j: int| 0 <= i < j < s.len() ==> s[i].sort_order <= s[j].sort_order
}

proof fn lemma_insert_by_order(s: Seq<HardcodedWorldDefinition>, w: HardcodedWorldDefinition)
    requires
        ordered_by_sort_order(s),
    ensures
        ordered_by_sort_order(insert_by_order(s, w)),
        insert_by_order(s, w).to_multiset() == s.to_multiset().insert(w),
        insert_by_order(s, w).len() == s.len() + 1,
    decreases s.len(),
{
    broadcast use vstd::seq_lib::group_to_multiset_ensures;

    if s.len() == 0 || s.last().sort_order <= w.sort_order {
    } else {
        let d = s.drop_last();
        let l = s.last();
        lemma_insert_by_order(d, w);
        let t = insert_by_order(d, w);
        assert(forall|i: int| 0 <= i < d.len() ==> (#[trigger] d[i]).sort_order <= l.sort_order);
        assert forall|i: int| 0 <= i < t.len() implies (#[trigger] t[i]).sort_order
            <= l.sort_order by {
            assert(t.contains(t[i]));
            assert(t.to_multiset().count(t[i]) > 0);
            if t[i] != w {
                assert(d.to_multiset().count(t[i]) > 0);
                assert(d.contains(t[i]));
            }
        }
        assert(s =~= d.push(l));
        assert(t.push(l).to_multiset() =~= s.to_multiset().insert(w));
    }
}

/// `get_worlds` lists the worlds of `get_hardcoded_worlds`, each exactly
/// once, by non-decreasing sort order.
pub proof fn lemma_sort_by_order(s: Seq<HardcodedWorldDefinition>)
    ensures
        ordered_by_sort_order(sort_by_order(s)),
        sort_by_order(s).to_multiset() == s.to_multiset(),
        sort_by_order(s).len() == s.len(),
    decreases s.len(),
{
    broadcast use vstd::seq_lib::group_to_multiset_ensures;

    if s.len() > 0 {
        lemma_sort_by_order(s.drop_last());
        lemma_insert_by_order(sort_by_order(s.drop_last()), s.last());
        assert(s =~= s.drop_last().push(s.last()));
    }
}

proof fn lemma_pack_find_id(puzzles: Seq<PuzzleView>, id: Seq<char>)
    ensures
        pack_find(puzzles, id) matches Some(p) ==> p.puzzle_id == id && exists|i: int|
            0 <= i < puzzles.len() && #[trigger] puzzles[i] == p,
        (exists|i: int| 0 <= i < puzzles.len() && (#[trigger] puzzles[i]).puzzle_id == id)
            <==> pack_find(puzzles, id) is Some,
    decreases puzzles.len(),
{
    if puzzles.len() > 0 {
        let d = puzzles.drop_last();
        lemma_pack_find_id(d, id);
        if exists|i: int| 0 <= i < puzzles.len() && (#[trigger] puzzles[i]).puzzle_id == id {
            let i = choose|i: int| 0 <= i < puzzles.len() && (#[trigger] puzzles[i]).puzzle_id == id;
            if i < puzzles.len() - 1 {
                assert(d[i] == puzzles[i]);
            }
        }
        match pack_find(d, id) {
            Some(p) => {
                let i = choose|i: int| 0 <= i < d.len() && #[trigger] d[i] == p;
                assert(puzzles[i] == p);
            },
            None => {},
        }
        if pack_find(puzzles, id) is Some && puzzles.last().puzzle_id != id {
            let i = choose|i: int| 0 <= i < d.len() && (#[trigger] d[i]).puzzle_id == id;
            assert(puzzles[i] == d[i]);
        }
        assert(puzzles[puzzles.len() - 1] == puzzles.last());
    }
}

proof fn lemma_catalog_find_id(packs: Seq<PackView>, k: int, id: Seq<char>)
    requires
        0 <= k,
    ensures
        catalog_find(packs, k, id) matches Some(p) ==> p.puzzle_id == id && exists|j: int, i: int|
            k <= j < packs.len() && 0 <= i < packs[j].puzzles.len() && #[trigger] packs[j].puzzles[i]
                == p,
        (exists|j: int, i: int|
            k <= j < packs.len() && 0 <= i < packs[j].puzzles.len() && (
            #[trigger] packs[j].puzzles[i]).puzzle_id == id) <==> catalog_find(packs, k, id) is Some,
    decreases packs.len() - k,
{
    if k < packs.len() {
        lemma_pack_find_id(packs[k].puzzles, id);
        lemma_catalog_find_id(packs, k + 1, id);
        if exists|j: int, i: int|
            k <= j < packs.len() && 0 <= i < packs[j].puzzles.len() && (
            #[trigger] packs[j].puzzles[i]).puzzle_id == id {
            let (j, i) = choose|j: int, i: int|
                k <= j < packs.len() && 0 <= i < packs[j].puzzles.len() && (
                #[trigger] packs[j].puzzles[i]).puzzle_id == id;
            if j == k {
                assert(packs[k].puzzles[i].puzzle_id == id);
            }
        }
        match pack_find(packs[k].puzzles, id) {
            Some(p) => {
                let i = choose|i: int| 0 <= i < packs[k].puzzles.len() && #[trigger] packs[k].puzzles[i] == p;
                assert(packs[k].puzzles[i] == p);
            },
            None => {
                if catalog_find(packs, k + 1, id) is Some {
                    let (j, i) = choose|j: int, i: int|
                        k + 1 <= j < packs.len() && 0 <= i < packs[j].puzzles.len() && (
                        #[trigger] packs[j].puzzles[i]).puzzle_id == id;
                    assert(packs[j].puzzles[i].puzzle_id == id);
                }
            },
        }
    }
}

/// `get_puzzle` finds a puzzle exactly for `"demo"` and for the ids that some
/// pack holds; what it finds has the requested id, and is the demo for
/// `"demo"` and a puzzle of the packs otherwise.
pub proof fn lemma_found_puzzle_has_id(packs: Seq<PackView>, id: Seq<char>)
    ensures
        find_puzzle(packs, id) is Some <==> (id == "demo"@ || exists|k: int, i: int|
            0 <= k < packs.len() && 0 <= i < packs[k].puzzles.len() && (
            #[trigger] packs[k].puzzles[i]).puzzle_id == id),
        find_puzzle(packs, id) matches Some(p) ==> {
            &&& p.puzzle_id == id
            &&& id == "demo"@ ==> p == demo_view()
            &&& id != "demo"@ ==> exists|k: int, i: int|
                0 <= k < packs.len() && 0 <= i < packs[k].puzzles.len() && #[trigger] packs[k].puzzles[i]
                    == p
        },
{
    lemma_catalog_find_id(packs, 0, id);
}

/// Every puzzle of every pack is found by its id.
pub proof fn lemma_every_puzzle_found(packs: Seq<PackView>, k: int, i: int)
    requires
        0 <= k < packs.len(),
        0 <= i < packs[k].puzzles.len(),
    ensures
        find_puzzle(packs, packs[k].puzzles[i].puzzle_id) is Some,
        find_puzzle(packs, packs[k].puzzles[i].puzzle_id)->0.puzzle_id == packs[k].puzzles[i].puzzle_id,
{
    let id = packs[k].puzzles[i].puzzle_id;
    lemma_catalog_find_id(packs, 0, id);
    lemma_found_puzzle_has_id(packs, id);
}

proof fn lemma_world_ids_in_pack(packs: Seq<PackView>, k: int, world_id: Seq<char>)
    requires
        0 <= k,
    ensures
        world_puzzle_ids(packs, k, world_id).len() == 0 || exists|j: int|
            0 <= j < packs.len() && world_puzzle_ids(packs, k, world_id) == #[trigger] pack_ids(
                packs[j],
            ),
    decreases packs.len() - k,
{
    if k < packs.len() {
        lemma_world_ids_in_pack(packs, k + 1, world_id);
        if packs[k].world.world_id@ == world_id {
            assert(world_puzzle_ids(packs, k, world_id) == pack_ids(packs[k]));
        }
    }
}

proof fn lemma_summaries_len(packs: Seq<PackView>, ids: Seq<Seq<char>>)
    requires
        forall|t: int| 0 <= t < ids.len() ==> find_puzzle(packs, #[trigger] ids[t]) is Some,
    ensures
        world_summaries(packs, ids).len() == ids.len(),
    decreases ids.len(),
{
    if ids.len() > 0 {
        let d = ids.drop_last();
        assert forall|t: int| 0 <= t < d.len() implies find_puzzle(packs, #[trigger] d[t]) is Some by {
            assert(d[t] == ids[t]);
        }
        lemma_summaries_len(packs, d);
        assert(find_puzzle(packs, ids[ids.len() - 1]) is Some);
    }
}

/// `get_world_levels` lists one level for each id that `get_world_puzzle_ids`
/// lists for the same world.
pub proof fn lemma_world_levels_count(packs: Seq<PackView>, world_id: Seq<char>)
    ensures
        world_summaries(packs, world_puzzle_ids(packs, 0, world_id)).len() == world_puzzle_ids(
            packs,
            0,
            world_id,
        ).len(),
{
    let ids = world_puzzle_ids(packs, 0, world_id);
    lemma_world_ids_in_pack(packs, 0, world_id);
    if ids.len() > 0 {
        let j = choose|j: int| 0 <= j < packs.len() && ids == #[trigger] pack_ids(packs[j]);
        assert forall|t: int| 0 <= t < ids.len() implies find_puzzle(packs, #[trigger] ids[t])
            is Some by {
            assert(ids[t] == packs[j].puzzles[t].puzzle_id);
            lemma_every_puzzle_found(packs, j, t);
        }
    }
    lemma_summaries_len(packs, ids);
}

/// `get_all_world_ids` lists, place by place, the ids of the worlds that
/// `get_hardcoded_worlds` lists.
pub proof fn lemma_world_ids_of_worlds(packs: Seq<PackView>)
    ensures
        Seq::new(packs.len(), |i: int| packs[i].world.world_id@) == catalog_worlds(
            packs,
        ).map_values(|w: HardcodedWorldDefinition| w.world_id@),
{
    assert(Seq::new(packs.len(), |i: int| packs[i].world.world_id@) =~= catalog_worlds(
        packs,
    ).map_values(|w: HardcodedWorldDefinition| w.world_id@));
}

/// The worlds of `s` whose sort order is `order`, in the order of `s`.
pub open spec fn worlds_with_order(s: Seq<HardcodedWorldDefinition>, order: u32) -> Seq<
    HardcodedWorldDefinition,
>
    decreases s.len(),
{
    if s.len() == 0 {
        s
    } else if s.last().sort_order == order {
        worlds_with_order(s.drop_last(), order).push(s.last())
    } else {
        worlds_with_order(s.drop_last(), order)
    }
}

proof fn lemma_insert_keeps_ties(s: Seq<HardcodedWorldDefinition>, w: HardcodedWorldDefinition, order: u32)
    ensures
        worlds_with_order(insert_by_order(s, w), order) == if w.sort_order == order {
            worlds_with_order(s, order).push(w)
        } else {
            worlds_with_order(s, order)
        },
    decreases s.len(),
{
    if s.len() == 0 || s.last().sort_order <= w.sort_order {
        assert(s.push(w).drop_last() =~= s);
    } else {
        let d = s.drop_last();
        let t = insert_by_order(d, w);
        lemma_insert_keeps_ties(d, w, order);
        assert(t.push(s.last()).drop_last() =~= t);
    }
}

/// `get_worlds` keeps worlds of equal sort order in the order that
/// `get_hardcoded_worlds` lists them: for every sort order, the worlds with
/// that order come out as they went in.
pub proof fn lemma_sort_by_order_stable(s: Seq<HardcodedWorldDefinition>, order: u32)
    ensures
        worlds_with_order(sort_by_order(s), order) == worlds_with_order(s, order),
    decreases s.len(),
{
    if s.len() > 0 {
        let d = s.drop_last();
        lemma_sort_by_order_stable(d, order);
        lemma_insert_keeps_ties(sort_by_order(d), s.last(), order);
    }
}

// ---------------------------------------------------------------------------
// All puzzles, world by world

/// The ids of a sequence of puzzles.
pub open spec fn puzzle_ids_of(s: Seq<PuzzleView>) -> Seq<Seq<char>> {
    Seq::new(s.len(), |i: int| s[i].puzzle_id)
}

/// The puzzle ids listed for the worlds of the first `n` packs, world after world.
pub open spec fn flat_world_ids(packs: Seq<PackView>, n: int) -> Seq<Seq<char>>
    decreases n,
{
    if n <= 0 {
        Seq::empty()
    } else {
        flat_world_ids(packs, n - 1) + world_puzzle_ids(packs, 0, packs[n - 1].world.world_id@)
    }
}

/// No two packs have worlds with the same id.
pub open spec fn distinct_world_ids(packs: Seq<PackView>) -> bool {
    forall|j: int, k: int|
        0 <= j < packs.len() && 0 <= k < packs.len() && j != k ==> (#[trigger] packs[j]).world.world_id@
            != (#[trigger] packs[k]).world.world_id@
}

proof fn lemma_world_ids_of_own_pack(packs: Seq<PackView>, j: int, k: int)
    requires
        distinct_world_ids(packs),
        0 <= j <= k < packs.len(),
    ensures
        world_puzzle_ids(packs, j, packs[k].world.world_id@) == pack_ids(packs[k]),
    decreases k - j,
{
    if j < k {
        assert(packs[j].world.world_id@ != packs[k].world.world_id@);
        lemma_world_ids_of_own_pack(packs, j + 1, k);
    }
}

/// When no two worlds share an id, the ids of `get_all_puzzles` are, in
/// order, the puzzle ids that `get_world_puzzle_ids` gives for each id of
/// `get_all_world_ids`.
pub proof fn lemma_all_puzzle_ids_by_world(packs: Seq<PackView>)
    requires
        distinct_world_ids(packs),
    ensures
        puzzle_ids_of(catalog_puzzles(packs)) == flat_world_ids(packs, packs.len() as int),
{
    lemma_all_puzzle_ids_prefix(packs, packs.len() as int);
    assert(packs.take(packs.len() as int) =~= packs);
}

proof fn lemma_all_puzzle_ids_prefix(packs: Seq<PackView>, n: int)
    requires
        distinct_world_ids(packs),
        0 <= n <= packs.len(),
    ensures
        puzzle_ids_of(catalog_puzzles(packs.take(n))) == flat_world_ids(packs, n),
    decreases n,
{
    if n == 0 {
        assert(puzzle_ids_of(catalog_puzzles(packs.take(0))) =~= Seq::<Seq<char>>::empty());
    } else {
        lemma_all_puzzle_ids_prefix(packs, n - 1);
        lemma_world_ids_of_own_pack(packs, 0, n - 1);
        let t = packs.take(n);
        assert(t.drop_last() =~= packs.take(n - 1));
        assert(t.last() == packs[n - 1]);
        let a = catalog_puzzles(packs.take(n - 1));
        let b = packs[n - 1].puzzles;
        assert(puzzle_ids_of(a + b) =~= puzzle_ids_of(a) + pack_ids(packs[n - 1]));
    }
}

// ---------------------------------------------------------------------------
// Lookup as a search of all puzzles

/// The first of `s` with id `id`.
pub open spec fn first_match(s: Seq<PuzzleView>, id: Seq<char>) -> Option<PuzzleView>
    decreases s.len(),
{
    if s.len() == 0 {
        None
    } else if s[0].puzzle_id == id {
        Some(s[0])
    } else {
        first_match(s.drop_first(), id)
    }
}

/// No pack holds two puzzles with the same id.
pub open spec fn distinct_ids_in_packs(packs: Seq<PackView>) -> bool {
    forall|k: int, i: int, j: int|
        0 <= k < packs.len() && 0 <= i < packs[k].puzzles.len() && 0 <= j < packs[k].puzzles.len()
            && i != j ==> (#[trigger] packs[k].puzzles[i]).puzzle_id != (
        #[trigger] packs[k].puzzles[j]).puzzle_id
}

proof fn lemma_first_match_id(s: Seq<PuzzleView>, id: Seq<char>)
    ensures
        first_match(s, id) matches Some(p) ==> exists|i: int| 0 <= i < s.len() && #[trigger] s[i] == p
            && p.puzzle_id == id,
        (exists|i: int| 0 <= i < s.len() && (#[trigger] s[i]).puzzle_id == id) <==> first_match(
            s,
            id,
        ) is Some,
    decreases s.len(),
{
    if s.len() > 0 {
        let d = s.drop_first();
        lemma_first_match_id(d, id);
        if exists|i: int| 0 <= i < s.len() && (#[trigger] s[i]).puzzle_id == id {
            let i = choose|i: int| 0 <= i < s.len() && (#[trigger] s[i]).puzzle_id == id;
            if i > 0 {
                assert(d[i - 1] == s[i]);
            }
        }
        if s[0].puzzle_id != id {
            match first_match(d, id) {
                Some(p) => {
                    let i = choose|i: int| 0 <= i < d.len() && #[trigger] d[i] == p && p.puzzle_id == id;
                    assert(s[i + 1] == d[i]);
                },
                None => {},
            }
        } else {
            assert(s[0] == s[0]);
        }
    }
}

proof fn lemma_first_match_add(a: Seq<PuzzleView>, b: Seq<PuzzleView>, id: Seq<char>)
    ensures
        first_match(a + b, id) == match first_match(a, id) {
            Some(p) => Some(p),
            None => first_match(b, id),
        },
    decreases a.len(),
{
    if a.len() == 0 {
        assert(a + b =~= b);
    } else {
        assert((a + b)[0] == a[0]);
        assert((a + b).drop_first() =~= a.drop_first() + b);
        lemma_first_match_add(a.drop_first(), b, id);
    }
}

proof fn lemma_catalog_puzzles_front(q: Seq<PackView>)
    requires
        q.len() > 0,
    ensures
        catalog_puzzles(q) == q[0].puzzles + catalog_puzzles(q.drop_first()),
    decreases q.len(),
{
    if q.len() == 1 {
        assert(q.drop_last() =~= Seq::<PackView>::empty());
        assert(q.drop_first() =~= Seq::<PackView>::empty());
        assert(catalog_puzzles(q) =~= q[0].puzzles + catalog_puzzles(q.drop_first()));
    } else {
        let d = q.drop_last();
        lemma_catalog_puzzles_front(d);
        assert(d.drop_first() =~= q.drop_first().drop_last());
        assert(q.drop_first().last() == q.last());
        assert(d[0] == q[0]);
        assert(catalog_puzzles(q) =~= q[0].puzzles + catalog_puzzles(q.drop_first()));
    }
}

proof fn lemma_catalog_find_first(packs: Seq<PackView>, k: int, id: Seq<char>)
    requires
        distinct_ids_in_packs(packs),
        0 <= k <= packs.len(),
    ensures
        catalog_find(packs, k, id) == first_match(catalog_puzzles(packs.subrange(k, packs.len() as int)), id),
    decreases packs.len() - k,
{
    let q = packs.subrange(k, packs.len() as int);
    if k == packs.len() {
        assert(q =~= Seq::<PackView>::empty());
    } else {
        lemma_catalog_find_first(packs, k + 1, id);
        lemma_catalog_puzzles_front(q);
        assert(q.drop_first() =~= packs.subrange(k + 1, packs.len() as int));
        assert(q[0] == packs[k]);
        let ps = packs[k].puzzles;
        lemma_first_match_add(ps, catalog_puzzles(q.drop_first()), id);
        lemma_first_match_id(ps, id);
        lemma_pack_find_id(ps, id);
        match pack_find(ps, id) {
            Some(p) => {
                let i = choose|i: int| 0 <= i < ps.len() && #[trigger] ps[i] == p;
                let f = first_match(ps, id)->0;
                let j = choose|j: int| 0 <= j < ps.len() && #[trigger] ps[j] == f && f.puzzle_id == id;
                if i != j {
                    assert(packs[k].puzzles[i].puzzle_id != packs[k].puzzles[j].puzzle_id);
                }
            },
            None => {},
        }
    }
}

/// For any id but `"demo"`, and packs that each hold an id at most once,
/// `get_puzzle` finds the first puzzle of `get_all_puzzles` with that id.
pub proof fn lemma_find_is_first_of_all(packs: Seq<PackView>, id: Seq<char>)
    requires
        id != "demo"@,
        distinct_ids_in_packs(packs),
    ensures
        find_puzzle(packs, id) == first_match(catalog_puzzles(packs), id),
{
    lemma_catalog_find_first(packs, 0, id);
    assert(packs.subrange(0, packs.len() as int) =~= packs);
}

/// The world of a course pack copies the file's world texts, theme and sort
/// order, and is open.
pub proof fn lemma_world_of_fields(w: CourseWorldData)
    ensures
        world_of(w).world_id == w.world_id,
        world_of(w).title == w.title,
        world_of(w).description == w.description,
        world_of(w).story_intro == w.story_intro,
        world_of(w).theme == w.theme,
        world_of(w).sort_order == w.sort_order,
        world_of(w).unlock == WorldUnlock::Open,
{
}

/// Each record that `get_worlds` lists copies its world field by field and
/// counts the puzzle ids that `get_world_puzzle_ids` gives for its id.
pub proof fn lemma_world_info_copies(w: HardcodedWorldDefinition, packs: Seq<PackView>)
    ensures
        world_info_of(w, packs).world_id == w.world_id,
        world_info_of(w, packs).title == w.title,
        world_info_of(w, packs).description == w.description,
        world_info_of(w, packs).story_intro == w.story_intro,
        world_info_of(w, packs).theme == w.theme,
        world_info_of(w, packs).sort_order == w.sort_order,
        world_info_of(w, packs).unlock == w.unlock,
        world_info_of(w, packs).level_count == world_puzzle_ids(packs, 0, w.world_id@).len() as u32,
{
}

/// `get_world_puzzle_ids` gives the puzzle ids, in file order, of the first
/// pack whose world has the id, and none when no world has it.
pub proof fn lemma_world_puzzle_ids_first_pack(packs: Seq<PackView>, world_id: Seq<char>)
    ensures
        (forall|k: int| 0 <= k < packs.len() ==> (#[trigger] packs[k]).world.world_id@ != world_id)
            ==> world_puzzle_ids(packs, 0, world_id).len() == 0,
        forall|j: int|
            0 <= j < packs.len() && (#[trigger] packs[j]).world.world_id@ == world_id && (forall|
                k: int,
            | 0 <= k < j ==> (#[trigger] packs[k]).world.world_id@ != world_id) ==> {
                &&& world_puzzle_ids(packs, 0, world_id).len() == packs[j].puzzles.len()
                &&& forall|i: int|
                    0 <= i < packs[j].puzzles.len() ==> #[trigger] world_puzzle_ids(
                        packs,
                        0,
                        world_id,
                    )[i] == packs[j].puzzles[i].puzzle_id
            },
{
    if forall|k: int| 0 <= k < packs.len() ==> (#[trigger] packs[k]).world.world_id@ != world_id {
        lemma_world_ids_none(packs, 0, world_id);
    }
    assert forall|j: int|
        0 <= j < packs.len() && (#[trigger] packs[j]).world.world_id@ == world_id && (forall|k: int|
            0 <= k < j ==> (#[trigger] packs[k]).world.world_id@ != world_id) implies {
        &&& world_puzzle_ids(packs, 0, world_id).len() == packs[j].puzzles.len()
        &&& forall|i: int|
            0 <= i < packs[j].puzzles.len() ==> #[trigger] world_puzzle_ids(packs, 0, world_id)[i]
                == packs[j].puzzles[i].puzzle_id
    } by {
        lemma_world_ids_reach(packs, 0, j, world_id);
    }
}

proof fn lemma_world_ids_none(packs: Seq<PackView>, k: int, world_id: Seq<char>)
    requires
        0 <= k,
        forall|t: int| 0 <= t < packs.len() ==> (#[trigger] packs[t]).world.world_id@ != world_id,
    ensures
        world_puzzle_ids(packs, k, world_id).len() == 0,
    decreases packs.len() - k,
{
    if k < packs.len() {
        assert(packs[k].world.world_id@ != world_id);
        lemma_world_ids_none(packs, k + 1, world_id);
    }
}

proof fn lemma_world_ids_reach(packs: Seq<PackView>, k: int, j: int, world_id: Seq<char>)
    requires
        0 <= k <= j < packs.len(),
        packs[j].world.world_id@ == world_id,
        forall|t: int| 0 <= t < j ==> (#[trigger] packs[t]).world.world_id@ != world_id,
    ensures
        world_puzzle_ids(packs, k, world_id) == pack_ids(packs[j]),
    decreases j - k,
{
    if k < j {
        assert(packs[k].world.world_id@ != world_id);
        lemma_world_ids_reach(packs, k + 1, j, world_id);
    }
}

} // verus!
