//! The decisions of the route planner built on the same bounded walk the
//! reachability report triages with: which entities are goals, what each
//! round's walk leads to, where along the found path the route presses the
//! doors it opened, how far the path can be walked at all, and which path
//! points survive straightening.
//!
//! The collision traces, distances and headings the planner measures are
//! the host's; each decision here takes their outcome as plain values.

use crate::assets::{ascii_lower, eq_ignore_ascii_case};
use crate::reachability::ReachabilityConfig;
use vstd::prelude::*;
use vstd::string::*;

verus! {

/// Which edge one path step was reached by: what a script has to do to
/// cross it.
#[derive(Debug, Clone, Copy, PartialEq, Eq, Structural)]
pub enum EdgeKind {
    /// A plain step onto a floor at (roughly) the same height.
    Walk,
    /// A plain step that ascended, within the walk's own step-up bound.
    Step,
    /// A plain step whose landing fell further than the walk's drop bound:
    /// a one-way fall.
    Drop,
    /// An ordinary running jump.
    Jump,
    /// The long-jump edge, which needs an item and an input combination no
    /// route file expresses.
    LongJump,
}

impl EdgeKind {
    /// Whether a straight-line shortcut may absorb this edge: only ordinary
    /// ground movement may be straightened.
    pub fn is_ground_movement(self) -> (r: bool)
        ensures
            r == (self == EdgeKind::Walk || self == EdgeKind::Step),
    {
        match self {
            EdgeKind::Walk | EdgeKind::Step => true,
            _ => false,
        }
    }
}

/// The classname [`PlanConfig::default`] plans a route to.
pub const DEFAULT_GOAL_CLASSNAME: &'static str = "trigger_changelevel";

/// What to plan, and how much work the search may do.
#[derive(Debug, Clone, PartialEq, Eq)]
pub struct PlanConfig {
    /// The per-round cell cap, exactly as
    /// [`ReachabilityConfig::cell_cap`].
    pub cell_cap: usize,
    /// The round cap, exactly as [`ReachabilityConfig::max_rounds`].
    pub max_rounds: usize,
    /// The classname to plan a route to; [`DEFAULT_GOAL_CLASSNAME`] by
    /// default. Only an entity with a brush volume can be a goal.
    pub goal_classname: String,
    /// Destination map names a goal must *not* name, matched
    /// case-insensitively over ASCII letters.
    pub avoid_goal_maps: Vec<String>,
    /// Whether the walk may use the long-jump edge. Off by default; a route
    /// that depends on one is refused with [`PlanError::UnsupportedEdge`].
    pub assume_longjump: bool,
}

impl Default for PlanConfig {
    /// The reachability report's own bounds, the level-change trigger as
    /// goal, nothing avoided and no long jump.
    fn default() -> (config: Self)
        ensures
            config.cell_cap == 40_000,
            config.max_rounds == 6,
            config.goal_classname@ == DEFAULT_GOAL_CLASSNAME@,
            config.avoid_goal_maps@.len() == 0,
            !config.assume_longjump,
    {
        let reachability = ReachabilityConfig::default();
        PlanConfig {
            cell_cap: reachability.cell_cap,
            max_rounds: reachability.max_rounds,
            goal_classname: DEFAULT_GOAL_CLASSNAME.to_owned(),
            avoid_goal_maps: Vec::new(),
            assume_longjump: false,
        }
    }
}

/// Why a route could not be planned. Every variant has one fixed message
/// and carries nothing map-derived.
#[derive(Debug, Clone, Copy, PartialEq, Eq, Structural)]
pub enum PlanError {
    /// The map has no usable collision hulls to walk.
    NoCollision,
    /// No entity of the goal classname declares a brush volume.
    NoGoalEntity,
    /// The bounded walk never reached the goal, even after opening every
    /// closed, use-openable door it found.
    GoalUnreachable,
    /// The route depends on an edge no scripted-input grammar expresses
    /// (the long-jump edge).
    UnsupportedEdge,
}

impl PlanError {
    /// The fixed sentence for this failure, as text.
    pub open spec fn message_text(&self) -> Seq<char> {
        match *self {
            PlanError::NoCollision => "the map has no usable collision hulls"@,
            PlanError::NoGoalEntity => "no entity of the goal classname declares a brush volume"@,
            PlanError::GoalUnreachable => "the bounded walk did not reach the goal, even with every reachable door opened"@,
            PlanError::UnsupportedEdge => "the route depends on an edge the scripted-input grammar cannot express"@,
        }
    }

    /// The fixed sentence for this failure.
    pub fn message(&self) -> (text: &'static str)
        ensures
            text@ == self.message_text(),
    {
        match self {
            PlanError::NoCollision => "the map has no usable collision hulls",
            PlanError::NoGoalEntity => "no entity of the goal classname declares a brush volume",
            PlanError::GoalUnreachable => "the bounded walk did not reach the goal, even with every reachable door opened",
            PlanError::UnsupportedEdge => "the route depends on an edge the scripted-input grammar cannot express",
        }
    }
}

/// A refused plan: why, and the bounded aggregates the search got to before
/// it gave up.
#[derive(Debug, Clone, Copy, PartialEq, Eq, Structural)]
pub struct PlanRejection {
    /// Why the plan was refused.
    pub error: PlanError,
    /// How many grid cells the last search reached.
    pub cells: usize,
    /// How many rounds it ran.
    pub rounds: usize,
}

impl PlanRejection {
    /// A refusal carrying the aggregates the search got to.
    pub fn new(error: PlanError, cells: usize, rounds: usize) -> (rejection: Self)
        ensures
            rejection == (PlanRejection { error, cells, rounds }),
    {
        PlanRejection { error, cells, rounds }
    }

    /// The refusal as a sentence: the fixed reason, then the aggregates
    /// the search got to.
    pub fn message(&self) -> (text: String)
        ensures
            text@ == self.error.message_text() + " (the search reached "@ + decimal_text(
                self.cells as nat,
            ) + " cell(s) in "@ + decimal_text(self.rounds as nat) + " round(s))"@,
    {
        let mut text = self.error.message().to_owned();
        text.append(" (the search reached ");
        text.append(decimal(self.cells).as_str());
        text.append(" cell(s) in ");
        text.append(decimal(self.rounds).as_str());
        text.append(" round(s))");
        text
    }
}

/// The decimal digit `d` stands for.
pub open spec fn digit_char(d: nat) -> char {
    if d == 0 {
        '0'
    } else if d == 1 {
        '1'
    } else if d == 2 {
        '2'
    } else if d == 3 {
        '3'
    } else if d == 4 {
        '4'
    } else if d == 5 {
        '5'
    } else if d == 6 {
        '6'
    } else if d == 7 {
        '7'
    } else if d == 8 {
        '8'
    } else {
        '9'
    }
}

/// `n` written in decimal, without leading zeros.
pub open spec fn decimal_text(n: nat) -> Seq<char>
    decreases n,
{
    if n < 10 {
        seq![digit_char(n)]
    } else {
        decimal_text(n / 10).push(digit_char(n % 10))
    }
}

/// The one-character text of digit `d`.
fn digit_str(d: usize) -> (s: &'static str)
    requires
        d < 10,
    ensures
        s@ == seq![digit_char(d as nat)],
{
    proof {
        reveal_strlit("0");
        reveal_strlit("1");
        reveal_strlit("2");
        reveal_strlit("3");
        reveal_strlit("4");
        reveal_strlit("5");
        reveal_strlit("6");
        reveal_strlit("7");
        reveal_strlit("8");
        reveal_strlit("9");
    }
    match d {
        0 => "0",
        1 => "1",
        2 => "2",
        3 => "3",
        4 => "4",
        5 => "5",
        6 => "6",
        7 => "7",
        8 => "8",
        _ => "9",
    }
}

/// `n` written in decimal.
fn decimal(n: usize) -> (text: String)
    ensures
        text@ == decimal_text(n as nat),
    decreases n,
{
    if n < 10 {
        let mut text = String::new();
        text.append(digit_str(n));
        assert(text@ =~= decimal_text(n as nat));
        text
    } else {
        let mut text = decimal(n / 10);
        text.append(digit_str(n % 10));
        text
    }
}

/// Whether `destination` is one of the maps `config` avoids.
pub open spec fn avoids_map(config: PlanConfig, destination: Seq<char>) -> bool {
    exists|i: int|
        0 <= i < config.avoid_goal_maps@.len() && ascii_lower(#[trigger] config.avoid_goal_maps@[i]@)
            == ascii_lower(destination)
}

/// Whether an entity of `classname` (with a brush volume), leading to
/// `destination` when it declares one, counts as a goal under `config`.
pub open spec fn counts_as_goal(
    config: PlanConfig,
    classname: Seq<char>,
    destination: Option<Seq<char>>,
) -> bool {
    &&& ascii_lower(classname) == ascii_lower(config.goal_classname@)
    &&& !(destination matches Some(map) && avoids_map(config, map))
}

/// Whether a brush entity of `classname`, leading to `destination` when it
/// declares a level change, is a goal of `config`: its classname matches
/// the goal classname case-insensitively, and its destination (if any) is
/// not one of the avoided maps.
pub fn is_goal(config: &PlanConfig, classname: &str, destination: Option<&str>) -> (goal: bool)
    ensures
        goal == counts_as_goal(
            *config,
            classname@,
            match destination {
                Some(map) => Some(map@),
                None => None,
            },
        ),
{
    if !eq_ignore_ascii_case(classname, config.goal_classname.as_str()) {
        return false;
    }
    match destination {
        None => true,
        Some(map) => {
            let mut i: usize = 0;
            while i < config.avoid_goal_maps.len()
                invariant
                    i <= config.avoid_goal_maps@.len(),
                    ascii_lower(classname@) == ascii_lower(config.goal_classname@),
                    destination == Some(map),
                    forall|j: int|
                        0 <= j < i ==> ascii_lower(#[trigger] config.avoid_goal_maps@[j]@)
                            != ascii_lower(map@),
                decreases config.avoid_goal_maps@.len() - i,
            {
                if eq_ignore_ascii_case(config.avoid_goal_maps[i].as_str(), map) {
                    assert(ascii_lower(config.avoid_goal_maps@[i as int]@) == ascii_lower(map@));
                    return false;
                }
                i = i + 1;
            }
            true
        },
    }
}

/// The rejection owed before any walk runs, if any: a map without
/// collision hulls, then a map with no goal volume.
pub fn plan_precheck(has_collision: bool, goal_volumes: usize) -> (rejection: Option<PlanRejection>)
    ensures
        rejection == if !has_collision {
            Some(PlanRejection { error: PlanError::NoCollision, cells: 0, rounds: 0 })
        } else if goal_volumes == 0 {
            Some(PlanRejection { error: PlanError::NoGoalEntity, cells: 0, rounds: 0 })
        } else {
            None::<PlanRejection>
        },
{
    if !has_collision {
        Some(PlanRejection::new(PlanError::NoCollision, 0, 0))
    } else if goal_volumes == 0 {
        Some(PlanRejection::new(PlanError::NoGoalEntity, 0, 0))
    } else {
        None
    }
}

/// How many rounds a plan's search runs at most: `max_rounds`, but at
/// least one.
pub fn plan_round_limit(max_rounds: usize) -> (limit: usize)
    ensures
        limit == if max_rounds == 0 {
            1
        } else {
            max_rounds
        },
{
    if max_rounds == 0 {
        1
    } else {
        max_rounds
    }
}

/// What the search does after one round's walk.
#[derive(Debug, Clone, Copy, PartialEq, Eq, Structural)]
pub enum PlanStep {
    /// Build the route to the `target`-th visited cell: inside a goal
    /// volume when `reaches_goal`, otherwise the reached cell nearest a
    /// goal (a partial plan).
    Build { target: usize, reaches_goal: bool },
    /// Open the closed, use-openable doors this round found and walk
    /// again.
    OpenDoors,
    /// Give up.
    Reject(PlanRejection),
}

/// The decision after round `round` (counting from zero) reached `cells`
/// cells: build the route to the goal cell when one was reached;
/// otherwise open the doors found when there are any; otherwise settle for
/// a partial plan to the reached cell nearest a goal, or give up when the
/// walk reached nothing but its start.
pub fn plan_round_step(
    round: usize,
    cells: usize,
    goal_cell: Option<usize>,
    openable_doors: usize,
    nearest_cell: Option<usize>,
) -> (step: PlanStep)
    requires
        round < usize::MAX,
    ensures
        step == match goal_cell {
            Some(goal) => PlanStep::Build { target: goal, reaches_goal: true },
            None => if openable_doors > 0 {
                PlanStep::OpenDoors
            } else {
                match nearest_cell {
                    Some(nearest) => PlanStep::Build { target: nearest, reaches_goal: false },
                    None => PlanStep::Reject(
                        PlanRejection {
                            error: PlanError::GoalUnreachable,
                            cells,
                            rounds: (round + 1) as usize,
                        },
                    ),
                }
            },
        },
{
    match goal_cell {
        Some(goal) => PlanStep::Build { target: goal, reaches_goal: true },
        None => {
            if openable_doors > 0 {
                PlanStep::OpenDoors
            } else {
                match nearest_cell {
                    Some(nearest) => PlanStep::Build { target: nearest, reaches_goal: false },
                    None => PlanStep::Reject(
                        PlanRejection::new(PlanError::GoalUnreachable, cells, round + 1),
                    ),
                }
            }
        },
    }
}

/// The rejection once every round opened doors and none reached the goal:
/// the last walk's cell count, and the round limit.
pub fn plan_exhausted(max_rounds: usize, cells: usize) -> (rejection: PlanRejection)
    ensures
        rejection == (PlanRejection {
            error: PlanError::GoalUnreachable,
            cells,
            rounds: if max_rounds == 0 {
                1
            } else {
                max_rounds
            },
        }),
{
    PlanRejection::new(PlanError::GoalUnreachable, cells, plan_round_limit(max_rounds))
}

/// What the host measured of one door the search opened, at every point of
/// the path found: whether the point stands inside the door leaf's closed
/// volume, and whether the player's eye there is within use reach of the
/// leaf's centre.
#[derive(Debug, Clone, PartialEq, Eq)]
pub struct DoorSighting {
    /// Per path point: inside the leaf's closed volume.
    pub inside: Vec<bool>,
    /// Per path point: within use reach of the leaf's centre.
    pub in_reach: Vec<bool>,
}

/// The first index below `end` where `s` holds, if any.
pub open spec fn first_set(s: Seq<bool>, end: int) -> Option<int>
    decreases end,
{
    if end <= 0 {
        None
    } else {
        match first_set(s, end - 1) {
            Some(i) => Some(i),
            None => if s[end - 1] {
                Some(end - 1)
            } else {
                None
            },
        }
    }
}

/// The last index below `end` where `s` holds, if any.
pub open spec fn last_set(s: Seq<bool>, end: int) -> Option<int>
    decreases end,
{
    if end <= 0 {
        None
    } else if s[end - 1] {
        Some(end - 1)
    } else {
        last_set(s, end - 1)
    }
}

/// Where the path first crosses the door's closed volume, if it does.
pub open spec fn crossing_point(door: DoorSighting) -> Option<int> {
    first_set(door.inside@, door.inside@.len() as int)
}

/// Where the route presses the door: the last point within reach of it
/// before the path first crosses its volume.
pub open spec fn press_point(door: DoorSighting) -> Option<int> {
    match crossing_point(door) {
        Some(crossing) => last_set(door.in_reach@, crossing),
        None => None,
    }
}

/// Where the door cuts the route short: the point where the path crosses
/// its volume when no earlier point stands within reach of it.
pub open spec fn cut_point(door: DoorSighting) -> Option<int> {
    match crossing_point(door) {
        Some(crossing) => if last_set(door.in_reach@, crossing) is None {
            Some(crossing)
        } else {
            None
        },
        None => None,
    }
}

/// `first_set` names the first index below `end` where `s` holds.
proof fn lemma_first_set_meaning(s: Seq<bool>, end: int)
    requires
        end <= s.len(),
    ensures
        first_set(s, end) matches Some(i) ==> 0 <= i < end && s[i] && forall|j: int|
            0 <= j < i ==> !s[j],
        first_set(s, end) is None ==> forall|j: int| 0 <= j < end ==> !s[j],
    decreases end,
{
    if end > 0 {
        lemma_first_set_meaning(s, end - 1);
    }
}

/// `last_set` names the last index below `end` where `s` holds.
proof fn lemma_last_set_meaning(s: Seq<bool>, end: int)
    requires
        end <= s.len(),
    ensures
        last_set(s, end) matches Some(i) ==> 0 <= i < end && s[i] && forall|j: int|
            i < j < end ==> !s[j],
        last_set(s, end) is None ==> forall|j: int| 0 <= j < end ==> !s[j],
    decreases end,
{
    if end > 0 && !s[end - 1] {
        lemma_last_set_meaning(s, end - 1);
    }
}

/// A door is pressed from the last path point within reach of it before
/// the path first enters its closed volume; a door the path enters with no
/// point in reach before cuts the route at that entry; a door the path
/// never enters is neither pressed nor cuts anything.
pub proof fn lemma_door_attribution(door: DoorSighting)
    requires
        door.in_reach@.len() == door.inside@.len(),
    ensures
        press_point(door) matches Some(p) ==> crossing_point(door) matches Some(c) && {
            &&& 0 <= p < c < door.inside@.len()
            &&& door.inside@[c]
            &&& forall|j: int| 0 <= j < c ==> !door.inside@[j]
            &&& door.in_reach@[p]
            &&& forall|j: int| p < j < c ==> !door.in_reach@[j]
        },
        cut_point(door) matches Some(c) ==> {
            &&& 0 <= c < door.inside@.len()
            &&& door.inside@[c]
            &&& forall|j: int| 0 <= j < c ==> !door.inside@[j] && !door.in_reach@[j]
        },
        crossing_point(door) is None ==> press_point(door) is None && cut_point(door) is None
            && forall|j: int| 0 <= j < door.inside@.len() ==> !door.inside@[j],
        press_point(door) is None || cut_point(door) is None,
{
    lemma_first_set_meaning(door.inside@, door.inside@.len() as int);
    if let Some(c) = crossing_point(door) {
        lemma_last_set_meaning(door.in_reach@, c);
    }
}

/// How much of a path of `len` points stays walkable after the first `k`
/// doors: up to (not including) the earliest cut point among them.
pub open spec fn usable_after(doors: Seq<DoorSighting>, len: int, k: int) -> int
    decreases k,
{
    if k <= 0 {
        len
    } else {
        let before = usable_after(doors, len, k - 1);
        match cut_point(doors[k - 1]) {
            Some(cut) => if cut < before {
                cut
            } else {
                before
            },
            None => before,
        }
    }
}

/// The door pressed at each of `len` path points after the first `k`
/// doors: a later door pressed at the same point replaces an earlier one.
pub open spec fn presses_after(doors: Seq<DoorSighting>, len: int, k: int) -> Seq<Option<usize>>
    decreases k,
{
    if k <= 0 {
        Seq::new(len as nat, |i: int| None::<usize>)
    } else {
        let before = presses_after(doors, len, k - 1);
        match press_point(doors[k - 1]) {
            Some(press) => before.update(press, Some((k - 1) as usize)),
            None => before,
        }
    }
}

/// How many entries of `s` name a door.
pub open spec fn pressed_count(s: Seq<Option<usize>>) -> nat
    decreases s.len(),
{
    if s.len() == 0 {
        0
    } else {
        pressed_count(s.drop_last()) + if s.last() is Some {
            1nat
        } else {
            0nat
        }
    }
}

/// Where a route presses the doors it crosses, and how far of it can be
/// walked at all.
#[derive(Debug, Clone, PartialEq, Eq)]
pub struct DoorMarks {
    /// The door (its index among the sightings) to press at each usable
    /// path point, if any; as long as the usable part of the path.
    pub presses: Vec<Option<usize>>,
    /// How much of the path is usable: shorter than the path when it
    /// crosses a door with no point in reach of it before, in which case
    /// the route stops at the last point before that door.
    pub usable_len: usize,
}

/// The first index below `end` where `s` holds.
fn first_set_below(s: &Vec<bool>, end: usize) -> (r: Option<usize>)
    requires
        end <= s@.len(),
    ensures
        match r {
            Some(i) => i < end && first_set(s@, end as int) == Some(i as int),
            None => first_set(s@, end as int) is None,
        },
{
    let mut i: usize = 0;
    while i < end
        invariant
            i <= end <= s@.len(),
            first_set(s@, i as int) is None,
        decreases end - i,
    {
        if s[i] {
            proof {
                assert(first_set(s@, (i + 1) as int) == Some(i as int));
                lemma_first_set_stays(s@, (i + 1) as int, end as int);
            }
            return Some(i);
        }
        i = i + 1;
    }
    None
}

/// Once `s` has a first set index below `end`, it stays the first below
/// any larger bound.
proof fn lemma_first_set_stays(s: Seq<bool>, end: int, later: int)
    requires
        end <= later,
        first_set(s, end) is Some,
    ensures
        first_set(s, later) == first_set(s, end),
    decreases later - end,
{
    if later > end {
        lemma_first_set_stays(s, end, later - 1);
    }
}

/// The last index below `end` where `s` holds.
fn last_set_below(s: &Vec<bool>, end: usize) -> (r: Option<usize>)
    requires
        end <= s@.len(),
    ensures
        match r {
            Some(i) => i < end && last_set(s@, end as int) == Some(i as int),
            None => last_set(s@, end as int) is None,
        },
{
    let mut last: Option<usize> = None;
    let mut i: usize = 0;
    while i < end
        invariant
            i <= end <= s@.len(),
            match last {
                Some(j) => j < i && last_set(s@, i as int) == Some(j as int),
                None => last_set(s@, i as int) is None,
            },
        decreases end - i,
    {
        if s[i] {
            last = Some(i);
        }
        i = i + 1;
    }
    last
}

/// Attributes each opened door to the path point the route presses it
/// from: the last point within reach of the door before the path first
/// crosses the door's closed volume. A door the path crosses with no such
/// point cuts the route at the crossing instead; a later door pressed at
/// the same point as an earlier one replaces it; a press at or past the
/// cut is dropped.
pub fn attribute_doors(path_len: usize, sightings: &[DoorSighting]) -> (marks: DoorMarks)
    requires
        forall|d: int|
            0 <= d < sightings@.len() ==> (#[trigger] sightings@[d]).inside@.len() == path_len
                && sightings@[d].in_reach@.len() == path_len,
    ensures
        marks.usable_len == usable_after(sightings@, path_len as int, sightings@.len() as int),
        marks.presses@ == presses_after(sightings@, path_len as int, sightings@.len() as int).take(
            marks.usable_len as int,
        ),
{
    let mut presses: Vec<Option<usize>> = Vec::new();
    let mut k: usize = 0;
    while k < path_len
        invariant
            k <= path_len,
            presses@ =~= Seq::new(k as nat, |i: int| None::<usize>),
        decreases path_len - k,
    {
        presses.push(None);
        k = k + 1;
    }
    let mut usable_len = path_len;
    let mut d: usize = 0;
    while d < sightings.len()
        invariant
            d <= sightings@.len(),
            forall|e: int|
                0 <= e < sightings@.len() ==> (#[trigger] sightings@[e]).inside@.len() == path_len
                    && sightings@[e].in_reach@.len() == path_len,
            usable_len == usable_after(sightings@, path_len as int, d as int),
            usable_len <= path_len,
            presses@ == presses_after(sightings@, path_len as int, d as int),
            presses@.len() == path_len,
        decreases sightings@.len() - d,
    {
        let door = &sightings[d];
        assert(door.inside@.len() == path_len);
        match first_set_below(&door.inside, path_len) {
            Some(crossing) => {
                match last_set_below(&door.in_reach, crossing) {
                    Some(press) => {
                        presses.set(press, Some(d));
                    },
                    None => {
                        if crossing < usable_len {
                            usable_len = crossing;
                        }
                    },
                }
            },
            None => {},
        }
        d = d + 1;
    }
    presses.truncate(usable_len);
    DoorMarks { presses, usable_len }
}

/// Whether a path's edges include the long-jump edge.
pub open spec fn needs_long_jump(kinds: Seq<EdgeKind>) -> bool {
    kinds.contains(EdgeKind::LongJump)
}

/// The shape of a planned route before the host straightens and merges
/// it: where the doors are pressed, how much of the path is walked, and the
/// aggregates the plan reports.
#[derive(Debug, Clone, PartialEq, Eq)]
pub struct RouteOutline {
    /// The door presses and the usable length of the path.
    pub marks: DoorMarks,
    /// Whether the route ends inside a goal volume: only when the walk
    /// reached one and no door cut the path short.
    pub reaches_goal: bool,
    /// How many path points the route walks.
    pub path_points: usize,
    /// How many door presses the route needs.
    pub doors: usize,
}

/// The outline of the route along a path whose points were reached by the
/// edges `kinds` (the start first), through the doors `sightings` the
/// search opened. A path that needs the long-jump edge is refused with
/// [`PlanError::UnsupportedEdge`], carrying the search's `cells` and
/// `rounds`.
pub fn outline_route(
    kinds: &[EdgeKind],
    sightings: &[DoorSighting],
    reaches_goal: bool,
    cells: usize,
    rounds: usize,
) -> (r: Result<RouteOutline, PlanRejection>)
    requires
        forall|d: int|
            0 <= d < sightings@.len() ==> (#[trigger] sightings@[d]).inside@.len() == kinds@.len()
                && sightings@[d].in_reach@.len() == kinds@.len(),
    ensures
        needs_long_jump(kinds@) ==> r == Err::<RouteOutline, PlanRejection>(
            PlanRejection { error: PlanError::UnsupportedEdge, cells, rounds },
        ),
        !needs_long_jump(kinds@) ==> (r matches Ok(outline) && {
            let usable = usable_after(sightings@, kinds@.len() as int, sightings@.len() as int);
            &&& outline.marks.usable_len == usable
            &&& outline.marks.presses@ == presses_after(
                sightings@,
                kinds@.len() as int,
                sightings@.len() as int,
            ).take(usable)
            &&& outline.reaches_goal == (reaches_goal && usable == kinds@.len())
            &&& outline.path_points == usable
            &&& outline.doors == pressed_count(outline.marks.presses@)
        }),
{
    let mut i: usize = 0;
    while i < kinds.len()
        invariant
            i <= kinds@.len(),
            forall|j: int| 0 <= j < i ==> kinds@[j] != EdgeKind::LongJump,
        decreases kinds@.len() - i,
    {
        if kinds[i] == EdgeKind::LongJump {
            assert(kinds@[i as int] == EdgeKind::LongJump);
            return Err(PlanRejection::new(PlanError::UnsupportedEdge, cells, rounds));
        }
        i = i + 1;
    }
    let marks = attribute_doors(kinds.len(), sightings);
    let usable_len = marks.usable_len;
    let mut doors: usize = 0;
    let mut k: usize = 0;
    while k < marks.presses.len()
        invariant
            k <= marks.presses@.len(),
            doors == pressed_count(marks.presses@.take(k as int)),
            doors <= k,
        decreases marks.presses@.len() - k,
    {
        assert(marks.presses@.take(k + 1).drop_last() =~= marks.presses@.take(k as int));
        if marks.presses[k].is_some() {
            doors = doors + 1;
        }
        k = k + 1;
    }
    assert(marks.presses@.take(marks.presses@.len() as int) =~= marks.presses@);
    Ok(
        RouteOutline {
            marks,
            reaches_goal: reaches_goal && usable_len == kinds.len(),
            path_points: usable_len,
            doors,
        },
    )
}

/// One piece of a route: a stretch of path points to walk, or a door to
/// press.
#[derive(Debug, Clone, Copy, PartialEq, Eq, Structural)]
pub enum RoutePiece {
    /// Walk the path points `start..end` (the host straightens and merges
    /// them into moves).
    Walk { start: usize, end: usize },
    /// Press door `door` (its index among the sightings) standing at path
    /// point `at`.
    Press { at: usize, door: usize },
}

/// The pieces for the presses from index `i` on, the current stretch
/// having started at `start`: a stretch ends at (and includes) each press
/// point, the press follows it, and the next stretch starts at the press
/// point again; the last stretch runs to the end of the path.
pub open spec fn pieces_from(presses: Seq<Option<usize>>, i: int, start: int) -> Seq<RoutePiece>
    decreases presses.len() - i,
{
    if i >= presses.len() {
        seq![RoutePiece::Walk { start: start as usize, end: presses.len() as usize }]
    } else {
        match presses[i] {
            Some(door) => seq![
                RoutePiece::Walk { start: start as usize, end: (i + 1) as usize },
                RoutePiece::Press { at: i as usize, door },
            ] + pieces_from(presses, i + 1, i),
            None => pieces_from(presses, i + 1, start),
        }
    }
}

/// The pieces from index `i` on alternate stretch, press, stretch, ...:
/// the first stretch starts at `start`, the last ends at the end of the
/// path, each press stands at a marked point (from `i` on) where the
/// stretch before it ends and the stretch after it starts.
proof fn lemma_pieces_alternate(presses: Seq<Option<usize>>, i: int, start: int)
    requires
        0 <= start <= i <= presses.len(),
        presses.len() <= usize::MAX,
    ensures
        ({
            let pieces = pieces_from(presses, i, start);
            &&& pieces.len() % 2 == 1
            &&& pieces[0] is Walk && pieces[0]->start == start
            &&& pieces.last() is Walk && pieces.last()->end == presses.len()
            &&& forall|k: int|
                #![trigger pieces[2 * k + 1]]
                0 <= k && 2 * k + 1 < pieces.len() ==> {
                    &&& pieces[2 * k] is Walk
                    &&& pieces[2 * k + 1] is Press
                    &&& pieces[2 * k + 2] is Walk
                    &&& i <= pieces[2 * k + 1]->at < presses.len()
                    &&& presses[pieces[2 * k + 1]->at as int] == Some(pieces[2 * k + 1]->door)
                    &&& pieces[2 * k]->end == pieces[2 * k + 1]->at + 1
                    &&& pieces[2 * k + 2]->start == pieces[2 * k + 1]->at
                }
        }),
    decreases presses.len() - i,
{
    if i < presses.len() {
        match presses[i] {
            Some(door) => {
                lemma_pieces_alternate(presses, i + 1, i);
                let rest = pieces_from(presses, i + 1, i);
                let head = seq![
                    RoutePiece::Walk { start: start as usize, end: (i + 1) as usize },
                    RoutePiece::Press { at: i as usize, door },
                ];
                let pieces = pieces_from(presses, i, start);
                assert(pieces == head + rest);
                assert forall|k: int|
                    #![trigger pieces[2 * k + 1]]
                    0 <= k && 2 * k + 1 < pieces.len() implies {
                        &&& pieces[2 * k] is Walk
                        &&& pieces[2 * k + 1] is Press
                        &&& pieces[2 * k + 2] is Walk
                        &&& i <= pieces[2 * k + 1]->at < presses.len()
                        &&& presses[pieces[2 * k + 1]->at as int] == Some(pieces[2 * k + 1]->door)
                        &&& pieces[2 * k]->end == pieces[2 * k + 1]->at + 1
                        &&& pieces[2 * k + 2]->start == pieces[2 * k + 1]->at
                    } by {
                    if k > 0 {
                        let m = k - 1;
                        assert(pieces[2 * k] == rest[2 * m]);
                        assert(pieces[2 * k + 1] == rest[2 * m + 1]);
                        assert(pieces[2 * k + 2] == rest[2 * m + 2]);
                    } else {
                        assert(pieces[2] == rest[0]);
                    }
                }
            },
            None => {
                lemma_pieces_alternate(presses, i + 1, start);
            },
        }
    }
}

/// Splitting a route at its presses keeps every path point: the first
/// stretch starts at the first point, the last ends after the last point,
/// and the stretches and presses alternate, each press standing at a point
/// marked with its door, where the stretch before it ends and the stretch
/// after it starts.
pub proof fn lemma_pieces_cover_route(presses: Seq<Option<usize>>)
    requires
        presses.len() <= usize::MAX,
    ensures
        ({
            let pieces = pieces_from(presses, 0, 0);
            &&& pieces.len() % 2 == 1
            &&& pieces[0] is Walk && pieces[0]->start == 0
            &&& pieces.last() is Walk && pieces.last()->end == presses.len()
            &&& forall|k: int|
                #![trigger pieces[2 * k + 1]]
                0 <= k && 2 * k + 1 < pieces.len() ==> {
                    &&& pieces[2 * k] is Walk
                    &&& pieces[2 * k + 1] is Press
                    &&& pieces[2 * k + 2] is Walk
                    &&& presses[pieces[2 * k + 1]->at as int] == Some(pieces[2 * k + 1]->door)
                    &&& pieces[2 * k]->end == pieces[2 * k + 1]->at + 1
                    &&& pieces[2 * k + 2]->start == pieces[2 * k + 1]->at
                }
        }),
{
    lemma_pieces_alternate(presses, 0, 0);
}

/// Splits a route of `presses.len()` path points at its door presses.
pub fn route_pieces(presses: &[Option<usize>]) -> (pieces: Vec<RoutePiece>)
    ensures
        pieces@ == pieces_from(presses@, 0, 0),
{
    let mut pieces: Vec<RoutePiece> = Vec::new();
    let mut start: usize = 0;
    let mut i: usize = 0;
    while i < presses.len()
        invariant
            i <= presses@.len(),
            start <= i,
            pieces@ + pieces_from(presses@, i as int, start as int) == pieces_from(presses@, 0, 0),
        decreases presses@.len() - i,
    {
        match presses[i] {
            Some(door) => {
                let walk = RoutePiece::Walk { start, end: i + 1 };
                let press = RoutePiece::Press { at: i, door };
                proof {
                    assert(pieces@.push(walk).push(press) + pieces_from(presses@, i + 1, i as int)
                        =~= pieces@ + pieces_from(presses@, i as int, start as int));
                }
                pieces.push(walk);
                pieces.push(press);
                start = i;
            },
            None => {},
        }
        i = i + 1;
    }
    let last = RoutePiece::Walk { start, end: presses.len() };
    proof {
        assert(pieces@.push(last) =~= pieces@ + pieces_from(presses@, i as int, start as int));
    }
    pieces.push(last);
    pieces
}

/// The end of the run of ground-movement points starting at `from`: the
/// first point at or after `from` not reached by ground movement, or the
/// end of the chunk.
pub open spec fn ground_run_end(ground: Seq<bool>, from: int) -> int
    decreases ground.len() - from,
{
    if from >= ground.len() {
        ground.len() as int
    } else if !ground[from] {
        from
    } else {
        ground_run_end(ground, from + 1)
    }
}

/// Every point from `from` up to the end of its ground run is ground
/// movement, and the run ends within the chunk.
pub proof fn lemma_ground_run(ground: Seq<bool>, from: int)
    requires
        0 <= from,
    ensures
        from <= ground.len() ==> from <= ground_run_end(ground, from) <= ground.len(),
        forall|c: int| from <= c < ground_run_end(ground, from) ==> #[trigger] ground[c],
    decreases ground.len() - from,
{
    if from < ground.len() && ground[from] {
        lemma_ground_run(ground, from + 1);
    }
}

/// The point the straightening jumps to from point `index`, given whether
/// the straight line to each candidate of the ground run after it is
/// walkable: the furthest walkable candidate, or the next point when none
/// is.
pub open spec fn pull_choice(index: int, walkable: Seq<bool>) -> int {
    match last_set(walkable, walkable.len() as int) {
        Some(j) => index + 1 + j,
        None => index + 1,
    }
}

/// The greedy straightening of one chunk of path points: from each kept
/// point, jump ahead to the furthest later point of the ground run after it
/// that a straight line reaches. Whether a straight line is walkable is the
/// host's question (a collision trace); it answers one run at a time
/// through [`StringPull::advance`]. Points reached by a jump, a long jump
/// or a one-way fall are never skipped.
pub struct StringPull {
    ground: Vec<bool>,
    index: usize,
    kept: Vec<usize>,
}

impl StringPull {
    /// For each point of the chunk, whether it was reached by ground
    /// movement.
    pub closed spec fn ground(&self) -> Seq<bool> {
        self.ground@
    }

    /// The point the straightening stands on.
    pub closed spec fn at(&self) -> int {
        self.index as int
    }

    /// The points kept so far, in order.
    pub closed spec fn kept(&self) -> Seq<usize> {
        self.kept@
    }

    /// The straightening's invariant: the kept points rise strictly from
    /// the first point to the current one, and every point not reached by
    /// ground movement up to the current one is kept.
    pub closed spec fn wf(&self) -> bool {
        &&& self.ground@.len() == 0 ==> self.kept@.len() == 0 && self.index == 0
        &&& self.ground@.len() > 0 ==> {
            &&& self.index < self.ground@.len()
            &&& self.kept@.len() > 0
            &&& self.kept@[0] == 0
            &&& self.kept@.last() == self.index
        }
        &&& forall|a: int, b: int| 0 <= a < b < self.kept@.len() ==> self.kept@[a] < self.kept@[b]
        &&& forall|c: int|
            0 < c <= self.index && !(#[trigger] self.ground@[c]) ==> self.kept@.contains(c as usize)
    }

    /// Starts straightening a chunk whose points were reached by ground
    /// movement where `ground` holds. The first point is always kept.
    pub fn new(ground: Vec<bool>) -> (pull: Self)
        ensures
            pull.wf(),
            pull.ground() == ground@,
            pull.at() == 0,
            pull.kept() == if ground@.len() == 0 {
                Seq::<usize>::empty()
            } else {
                seq![0usize]
            },
    {
        let mut kept: Vec<usize> = Vec::new();
        if ground.len() > 0 {
            kept.push(0);
        }
        StringPull { ground, index: 0, kept }
    }

    /// The next question for the host, or `None` once the chunk's last
    /// point is kept: from point `from`, is the straight line to each of
    /// the points `from + 1 .. end` walkable?
    pub fn query(&self) -> (q: Option<(usize, usize)>)
        requires
            self.wf(),
        ensures
            self.at() + 1 < self.ground().len() ==> q == Some(
                (self.at() as usize, ground_run_end(self.ground(), self.at() + 1) as usize),
            ),
            self.at() + 1 >= self.ground().len() ==> q is None,
            q matches Some((from, end)) ==> from < end <= self.ground().len(),
    {
        let n = self.ground.len();
        if self.index + 1 < n {
            let mut end = self.index + 1;
            proof {
                lemma_ground_run(self.ground@, end as int);
            }
            while end < self.ground.len() && self.ground[end]
                invariant
                    self.index + 1 <= end <= self.ground@.len(),
                    ground_run_end(self.ground@, end as int) == ground_run_end(
                        self.ground@,
                        self.index + 1,
                    ),
                decreases self.ground@.len() - end,
            {
                end = end + 1;
            }
            Some((self.index, end))
        } else {
            None
        }
    }

    /// Takes the host's answer to [`StringPull::query`]: `walkable[j]`
    /// tells whether the straight line from the current point to point
    /// `from + 1 + j` is walkable. Keeps (and moves to) the furthest
    /// walkable one, or the next point when none is.
    pub fn advance(&mut self, walkable: &[bool])
        requires
            old(self).wf(),
            old(self).at() + 1 < old(self).ground().len(),
            walkable@.len() == ground_run_end(old(self).ground(), old(self).at() + 1) - old(
                self,
            ).at() - 1,
        ensures
            final(self).wf(),
            final(self).ground() == old(self).ground(),
            final(self).at() == pull_choice(old(self).at(), walkable@),
            final(self).kept() == old(self).kept().push(final(self).at() as usize),
    {
        let n = self.ground.len();
        proof {
            lemma_ground_run(self.ground@, self.index + 1);
        }
        let mut best = self.index + 1;
        let mut j: usize = 0;
        while j < walkable.len()
            invariant
                j <= walkable@.len(),
                walkable@.len() == ground_run_end(self.ground@, self.index + 1) - self.index - 1,
                self.index + 1 <= best,
                best == match last_set(walkable@, j as int) {
                    Some(k) => self.index + 1 + k,
                    None => self.index + 1,
                },
                self.index + 1 + walkable@.len() <= self.ground@.len(),
                n == self.ground@.len(),
                best == self.index + 1 || best < self.index + 1 + j,
            decreases walkable@.len() - j,
        {
            if walkable[j] {
                best = self.index + 1 + j;
            }
            j = j + 1;
        }
        let ghost old_index = self.index as int;
        let ghost old_kept = self.kept@;
        proof {
            assert forall|c: int| old_index < c < best implies #[trigger] self.ground@[c] by {
                assert(old_index + 1 <= c < ground_run_end(self.ground@, old_index + 1));
            }
        }
        self.kept.push(best);
        self.index = best;
        proof {
            let kept = self.kept@;
            assert(kept.last() == best);
            assert forall|a: int, b: int| 0 <= a < b < kept.len() implies kept[a] < kept[b] by {
                if b == kept.len() - 1 {
                    assert(old_kept[a] <= old_index);
                    if a < old_kept.len() - 1 {
                        assert(old_kept[a] < old_kept[old_kept.len() - 1]);
                    }
                } else {
                    assert(kept[a] == old_kept[a] && kept[b] == old_kept[b]);
                }
            }
            assert forall|c: int| 0 < c <= best && !(#[trigger] self.ground@[c]) implies kept.contains(
                c as usize,
            ) by {
                if c <= old_index {
                    let w = choose|w: int| 0 <= w < old_kept.len() && old_kept[w] == c as usize;
                    assert(kept[w] == c as usize);
                } else if c < best {
                    assert(self.ground@[c]);
                } else {
                    assert(kept[kept.len() - 1] == c as usize);
                }
            }
        }
    }

    /// The kept points, in order.
    pub fn finish(self) -> (kept: Vec<usize>)
        ensures
            kept@ == self.kept(),
    {
        self.kept
    }
}

/// The straightening keeps the chunk's first point, keeps points in
/// strictly rising order, never skips a point reached by a jump, a long
/// jump or a one-way fall, and, once it has no further question, has kept
/// the chunk's last point.
pub proof fn lemma_pull_keeps_committed_points(pull: StringPull)
    requires
        pull.wf(),
    ensures
        pull.ground().len() > 0 ==> pull.kept()[0] == 0,
        forall|a: int, b: int| 0 <= a < b < pull.kept().len() ==> pull.kept()[a] < pull.kept()[b],
        forall|c: int|
            0 < c <= pull.at() && !(#[trigger] pull.ground()[c]) ==> pull.kept().contains(c as usize),
        pull.ground().len() > 0 && pull.at() + 1 >= pull.ground().len() ==> pull.kept().last() == (
        pull.ground().len() - 1) as usize,
{
}

} // verus!
