//! The save file's section framing: one tag per subsystem, the seven
//! required sections every save carries (tags 16 to 22), the optional
//! sections that load as absent when a save predates them (tags 23 to 31
//! and 33 to 35; tag 32 is reserved), the fixed order sections are
//! written in, and what a read makes of each section it looks up.
//!
//! Encoding each section's payload is the host's (the container and the
//! serializer); which sections go into a file, in which order, and how a
//! missing or broken one is answered is decided here.

use crate::error::EngineError;
use vstd::prelude::*;

verus! {

/// Engine header: which map is loaded, its chapter title, the difficulty
/// and the simulated time.
pub const SECTION_ENGINE_HEADER: u32 = 16;
/// The player's carried state.
pub const SECTION_PLAYER_CARRY: u32 = 17;
/// Entity registry state, one snapshot per entity in spawn order.
pub const SECTION_ENTITY_REGISTRY: u32 = 18;
/// The map-logic simulation's scheduled events and trigger cooldowns.
pub const SECTION_SIMULATION: u32 = 19;
/// The `globalname`/`env_global` state table.
pub const SECTION_GLOBAL_STATE: u32 = 20;
/// The time the light-style animation is evaluated at.
pub const SECTION_LIGHT_STYLE_TIME: u32 = 21;
/// The camera/player pose.
pub const SECTION_VIEW: u32 = 22;
/// The typed weapon/ammo/firing inventory.
pub const SECTION_INVENTORY: u32 = 23;
/// Per-entity health/armor, in spawn order.
pub const SECTION_ENTITY_COMBAT: u32 = 24;
/// Per-entity AI state, in spawn order.
pub const SECTION_AI: u32 = 25;
/// Live projectiles and placed deployables.
pub const SECTION_PROJECTILES: u32 = 26;
/// The shared random stream and the substep counter.
pub const SECTION_RNG: u32 = 27;
/// Mover/camera/script/`monstermaker` runtime state, in spawn order.
pub const SECTION_MOVER_STATE: u32 = 28;
/// Which `monstermaker` spawned each registry entity, in spawn order.
pub const SECTION_MAKER_CHILDREN: u32 = 29;
/// Rotating button and pendulum runtime state.
pub const SECTION_ROTATING_MOVER_STATE: u32 = 30;
/// A `momentary_door`'s own runtime position, in spawn order.
pub const SECTION_MOMENTARY_DOOR_STATE: u32 = 31;
/// Breakable and pushable runtime state, in spawn order.
pub const SECTION_BREAKABLE_STATE: u32 = 33;
/// The teleport touch edges and the master fire counts.
pub const SECTION_TELEPORT_STATE: u32 = 34;
/// The heading a track train was handed across a level change with.
pub const SECTION_TRAIN_HANDOVER_YAW: u32 = 35;

/// Whether a save must carry a section, or may leave it out.
#[derive(Debug, Clone, Copy, PartialEq, Eq, Structural)]
pub enum SectionRole {
    /// Every save carries it; a save without it does not open.
    Required,
    /// A save that predates it simply lacks it; it then loads as absent.
    Optional,
}

/// The role of section `tag`, or `None` for a tag this build does not
/// read.
pub open spec fn role_of(tag: u32) -> Option<SectionRole> {
    if 16 <= tag && tag <= 22 {
        Some(SectionRole::Required)
    } else if (23 <= tag && tag <= 31) || (33 <= tag && tag <= 35) {
        Some(SectionRole::Optional)
    } else {
        None
    }
}

/// The role of section `tag`: tags 16 to 22 are required, 23 to 31 and 33
/// to 35 optional, and any other tag is one this build does not read.
pub fn section_role(tag: u32) -> (role: Option<SectionRole>)
    ensures
        role == role_of(tag),
{
    if 16 <= tag && tag <= 22 {
        Some(SectionRole::Required)
    } else if (23 <= tag && tag <= 31) || (33 <= tag && tag <= 35) {
        Some(SectionRole::Optional)
    } else {
        None
    }
}

/// What the container said when a section was looked up.
#[derive(Debug, Clone, Copy, PartialEq, Eq, Structural)]
pub enum SectionLookup {
    /// The section is there; `exact` tells whether its payload decoded and
    /// used every one of its bytes.
    Present { exact: bool },
    /// The file has no section with this tag.
    Missing,
    /// The container could not hand the section out.
    Unreadable,
}

/// What reading section `tag` yields: `Ok(true)` for a section present and
/// decoded exactly, `Ok(false)` for an optional section the file lacks
/// (it loads as absent), and [`EngineError::SaveUnreadable`] for anything
/// else: a required section missing, a section the container cannot hand
/// out, or one that does not decode to the last byte.
pub fn read_section(tag: u32, lookup: SectionLookup) -> (r: Result<bool, EngineError>)
    requires
        role_of(tag) is Some,
    ensures
        r == match lookup {
            SectionLookup::Present { exact } => if exact {
                Ok::<bool, EngineError>(true)
            } else {
                Err(EngineError::SaveUnreadable)
            },
            SectionLookup::Missing => if role_of(tag) == Some(SectionRole::Optional) {
                Ok(false)
            } else {
                Err(EngineError::SaveUnreadable)
            },
            SectionLookup::Unreadable => Err(EngineError::SaveUnreadable),
        },
{
    match lookup {
        SectionLookup::Present { exact } => {
            if exact {
                Ok(true)
            } else {
                Err(EngineError::SaveUnreadable)
            }
        },
        SectionLookup::Missing => match section_role(tag) {
            Some(SectionRole::Optional) => Ok(false),
            _ => Err(EngineError::SaveUnreadable),
        },
        SectionLookup::Unreadable => Err(EngineError::SaveUnreadable),
    }
}

/// Which optional sections a save holds.
#[derive(Debug, Clone, Copy, PartialEq, Eq, Structural)]
pub struct OptionalSections {
    pub inventory: bool,
    pub entity_combat: bool,
    pub ai: bool,
    pub projectiles: bool,
    pub rng: bool,
    pub mover_state: bool,
    pub maker_children: bool,
    pub rotating_movers: bool,
    pub momentary_doors: bool,
    pub breakables: bool,
    pub teleport_state: bool,
    pub train_handover_yaw: bool,
}

/// The optional sections' tags, in the order they are written.
pub open spec fn optional_tags() -> Seq<u32> {
    seq![23u32, 24, 25, 26, 27, 28, 29, 30, 31, 33, 34, 35]
}

/// Whether `present` holds the `i`-th optional section of
/// [`optional_tags`].
pub open spec fn holds_optional(present: OptionalSections, i: int) -> bool {
    if i == 0 {
        present.inventory
    } else if i == 1 {
        present.entity_combat
    } else if i == 2 {
        present.ai
    } else if i == 3 {
        present.projectiles
    } else if i == 4 {
        present.rng
    } else if i == 5 {
        present.mover_state
    } else if i == 6 {
        present.maker_children
    } else if i == 7 {
        present.rotating_movers
    } else if i == 8 {
        present.momentary_doors
    } else if i == 9 {
        present.breakables
    } else if i == 10 {
        present.teleport_state
    } else {
        present.train_handover_yaw
    }
}

/// The tags of the first `n` optional sections that `present` holds, in
/// order.
pub open spec fn present_optional_tags(present: OptionalSections, n: int) -> Seq<u32>
    decreases n,
{
    if n <= 0 {
        Seq::empty()
    } else if holds_optional(present, n - 1) {
        present_optional_tags(present, n - 1).push(optional_tags()[n - 1])
    } else {
        present_optional_tags(present, n - 1)
    }
}

/// The required sections' tags, in the order they are written.
pub open spec fn required_tags() -> Seq<u32> {
    seq![16u32, 17, 18, 19, 20, 21, 22]
}

/// The tags a save holding `present` is written with, in order: the seven
/// required sections, then every optional section it holds in tag order.
pub fn section_write_order(present: &OptionalSections) -> (tags: Vec<u32>)
    ensures
        tags@ == required_tags() + present_optional_tags(*present, 12),
{
    let mut tags: Vec<u32> = Vec::new();
    let mut tag: u32 = 16;
    while tag <= 22
        invariant
            16 <= tag <= 23,
            tags@ == required_tags().take(tag - 16),
        decreases 23 - tag,
    {
        tags.push(tag);
        assert(required_tags().take(tag + 1 - 16) =~= required_tags().take(tag - 16).push(tag));
        tag = tag + 1;
    }
    assert(tags@ =~= required_tags());
    let flags = [
        present.inventory,
        present.entity_combat,
        present.ai,
        present.projectiles,
        present.rng,
        present.mover_state,
        present.maker_children,
        present.rotating_movers,
        present.momentary_doors,
        present.breakables,
        present.teleport_state,
        present.train_handover_yaw,
    ];
    let optional: [u32; 12] = [23, 24, 25, 26, 27, 28, 29, 30, 31, 33, 34, 35];
    assert(optional@ =~= optional_tags());
    assert forall|i: int| 0 <= i < 12 implies flags@[i] == holds_optional(*present, i) by {}
    let mut i: usize = 0;
    while i < 12
        invariant
            i <= 12,
            flags@.len() == 12,
            optional@ == optional_tags(),
            forall|k: int| 0 <= k < 12 ==> flags@[k] == holds_optional(*present, k),
            tags@ == required_tags() + present_optional_tags(*present, i as int),
        decreases 12 - i,
    {
        if flags[i] {
            tags.push(optional[i]);
            assert(tags@ =~= required_tags() + present_optional_tags(*present, i + 1));
        }
        i = i + 1;
    }
    tags
}

/// The optional tags present after `n` steps are optional tags, rise
/// strictly, and stay at or below the `n`-th optional tag.
proof fn lemma_present_optional_tags(present: OptionalSections, n: int)
    requires
        0 <= n <= 12,
    ensures
        ({
            let tags = present_optional_tags(present, n);
            &&& forall|i: int|
                0 <= i < tags.len() ==> role_of(#[trigger] tags[i]) == Some(SectionRole::Optional)
                    && 23 <= tags[i] && (n > 0 ==> tags[i] <= optional_tags()[n - 1])
            &&& forall|i: int, j: int| 0 <= i < j < tags.len() ==> tags[i] < tags[j]
        }),
    decreases n,
{
    let t = optional_tags();
    assert(t[0] == 23 && t[1] == 24 && t[2] == 25 && t[3] == 26 && t[4] == 27 && t[5] == 28
        && t[6] == 29 && t[7] == 30 && t[8] == 31 && t[9] == 33 && t[10] == 34 && t[11] == 35);
    if n > 0 {
        lemma_present_optional_tags(present, n - 1);
    }
}

/// Every section a save is written with is one a read looks for, the tags
/// rise strictly (no section is written twice), and every required section
/// is written.
pub proof fn lemma_write_order_is_readable(present: OptionalSections)
    ensures
        ({
            let tags = required_tags() + present_optional_tags(present, 12);
            &&& forall|i: int| 0 <= i < tags.len() ==> role_of(#[trigger] tags[i]) is Some
            &&& forall|i: int, j: int| 0 <= i < j < tags.len() ==> tags[i] < tags[j]
            &&& forall|t: u32| role_of(t) == Some(SectionRole::Required) ==> tags.contains(t)
        }),
{
    lemma_present_optional_tags(present, 12);
    let req = required_tags();
    let opt = present_optional_tags(present, 12);
    let tags = req + opt;
    assert(req[0] == 16 && req[1] == 17 && req[2] == 18 && req[3] == 19 && req[4] == 20
        && req[5] == 21 && req[6] == 22);
    assert forall|i: int| 0 <= i < tags.len() implies role_of(#[trigger] tags[i]) is Some by {
        if i >= 7 {
            assert(tags[i] == opt[i - 7]);
        }
    }
    assert forall|i: int, j: int| 0 <= i < j < tags.len() implies tags[i] < tags[j] by {
        if j >= 7 {
            assert(tags[j] == opt[j - 7]);
            if i >= 7 {
                assert(tags[i] == opt[i - 7]);
            }
        }
    }
    assert forall|t: u32| role_of(t) == Some(SectionRole::Required) implies tags.contains(t) by {
        assert(tags[t - 16] == t);
    }
}

/// The three difficulties a save can name.
#[derive(Debug, Clone, Copy, PartialEq, Eq, Structural)]
pub enum Difficulty {
    Easy,
    Medium,
    Hard,
}

/// The documented `skill` value a difficulty is stored as: `1`, `2`, `3`.
pub open spec fn skill_of(difficulty: Difficulty) -> u8 {
    match difficulty {
        Difficulty::Easy => 1,
        Difficulty::Medium => 2,
        Difficulty::Hard => 3,
    }
}

/// The `skill` value `difficulty` is stored as.
pub fn skill_value(difficulty: Difficulty) -> (skill: u8)
    ensures
        skill == skill_of(difficulty),
{
    match difficulty {
        Difficulty::Easy => 1,
        Difficulty::Medium => 2,
        Difficulty::Hard => 3,
    }
}

/// The difficulty a save's header names: `1`, `2`, `3` are easy, medium
/// and hard; any other value reads as medium.
pub fn save_difficulty(skill: u8) -> (difficulty: Difficulty)
    ensures
        difficulty == if skill == 1 {
            Difficulty::Easy
        } else if skill == 3 {
            Difficulty::Hard
        } else {
            Difficulty::Medium
        },
{
    if skill == 1 {
        Difficulty::Easy
    } else if skill == 3 {
        Difficulty::Hard
    } else {
        Difficulty::Medium
    }
}

/// A difficulty written into a save reads back unchanged.
pub proof fn lemma_difficulty_round_trip(difficulty: Difficulty)
    ensures
        (if skill_of(difficulty) == 1 {
            Difficulty::Easy
        } else if skill_of(difficulty) == 3 {
            Difficulty::Hard
        } else {
            Difficulty::Medium
        }) == difficulty,
{
}

/// The teleport-state section's whole payload: the `trigger_teleport`
/// touch-edge bookkeeping and the `multisource` master fire counts, both
/// keyed by entity bit pattern.
#[derive(Debug, Clone, PartialEq, Eq)]
pub struct TeleportStateSnapshot {
    /// `(entity bit pattern, touching)` pairs.
    pub teleport_touch: Vec<(u64, bool)>,
    /// `(entity bit pattern, fires)` pairs.
    pub master_fires: Vec<(u64, u32)>,
}

impl Default for TeleportStateSnapshot {
    /// No touch edges and no fire counts.
    fn default() -> (snapshot: Self)
        ensures
            snapshot.teleport_touch@.len() == 0,
            snapshot.master_fires@.len() == 0,
    {
        TeleportStateSnapshot { teleport_touch: Vec::new(), master_fires: Vec::new() }
    }
}

/// The rotating-mover section's whole payload: one optional record per
/// registry entity, in spawn order, for the rotating buttons and
/// pendulums, plus the rotating buttons' touch edges, keyed by entity bit
/// pattern.
#[derive(Debug, Clone, PartialEq, Eq)]
pub struct RotatingMoverStateSnapshot<M> {
    /// One optional record per registry entity, in spawn order.
    pub movers: Vec<Option<M>>,
    /// `(entity bit pattern, touching)` pairs.
    pub rot_button_touch: Vec<(u64, bool)>,
}

impl<M> Default for RotatingMoverStateSnapshot<M> {
    /// No records and no touch edges.
    fn default() -> (snapshot: Self)
        ensures
            snapshot.movers@.len() == 0,
            snapshot.rot_button_touch@.len() == 0,
    {
        RotatingMoverStateSnapshot { movers: Vec::new(), rot_button_touch: Vec::new() }
    }
}

/// An optional tag is written after `n` steps exactly when its own
/// section is held and comes among the first `n`.
proof fn lemma_optional_tag_written(present: OptionalSections, n: int, k: int)
    requires
        0 <= n <= 12,
        0 <= k < 12,
    ensures
        present_optional_tags(present, n).contains(optional_tags()[k]) <==> (k < n
            && holds_optional(present, k)),
    decreases n,
{
    let t = optional_tags();
    assert(t[0] == 23 && t[1] == 24 && t[2] == 25 && t[3] == 26 && t[4] == 27 && t[5] == 28
        && t[6] == 29 && t[7] == 30 && t[8] == 31 && t[9] == 33 && t[10] == 34 && t[11] == 35);
    if n > 0 {
        lemma_optional_tag_written(present, n - 1, k);
        let before = present_optional_tags(present, n - 1);
        if holds_optional(present, n - 1) {
            let after = before.push(t[n - 1]);
            if k == n - 1 {
                assert(after[before.len() as int] == t[k]);
            } else {
                assert(t[n - 1] != t[k]);
                if after.contains(t[k]) {
                    let j = choose|j: int| 0 <= j < after.len() && after[j] == t[k];
                    assert(j < before.len());
                    assert(before[j] == t[k]);
                }
                if before.contains(t[k]) {
                    let j = choose|j: int| 0 <= j < before.len() && before[j] == t[k];
                    assert(after[j] == t[k]);
                }
            }
        }
    }
}

/// A save is written with each optional section's tag exactly when that
/// section is held: inventory (23), entity combat (24), AI (25),
/// projectiles (26), random streams (27), mover state (28), maker
/// children (29), rotating movers (30), momentary doors (31), breakables
/// (33), teleports (34) and train hand-over yaw (35).
pub proof fn lemma_optional_sections_written_iff_held(present: OptionalSections)
    ensures
        ({
            let tags = required_tags() + present_optional_tags(present, 12);
            &&& tags.contains(SECTION_INVENTORY) <==> present.inventory
            &&& tags.contains(SECTION_ENTITY_COMBAT) <==> present.entity_combat
            &&& tags.contains(SECTION_AI) <==> present.ai
            &&& tags.contains(SECTION_PROJECTILES) <==> present.projectiles
            &&& tags.contains(SECTION_RNG) <==> present.rng
            &&& tags.contains(SECTION_MOVER_STATE) <==> present.mover_state
            &&& tags.contains(SECTION_MAKER_CHILDREN) <==> present.maker_children
            &&& tags.contains(SECTION_ROTATING_MOVER_STATE) <==> present.rotating_movers
            &&& tags.contains(SECTION_MOMENTARY_DOOR_STATE) <==> present.momentary_doors
            &&& tags.contains(SECTION_BREAKABLE_STATE) <==> present.breakables
            &&& tags.contains(SECTION_TELEPORT_STATE) <==> present.teleport_state
            &&& tags.contains(SECTION_TRAIN_HANDOVER_YAW) <==> present.train_handover_yaw
        }),
{
    let req = required_tags();
    let opt = present_optional_tags(present, 12);
    let tags = req + opt;
    let t = optional_tags();
    assert forall|k: int| 0 <= k < 12 implies (#[trigger] tags.contains(t[k])) == holds_optional(
        present,
        k,
    ) by {
        lemma_optional_tag_written(present, 12, k);
        assert(!req.contains(t[k]));
        if tags.contains(t[k]) {
            let j = choose|j: int| 0 <= j < tags.len() && tags[j] == t[k];
            if j >= req.len() {
                assert(opt[j - req.len()] == t[k]);
            }
        }
        if opt.contains(t[k]) {
            let j = choose|j: int| 0 <= j < opt.len() && opt[j] == t[k];
            assert(tags[req.len() + j] == t[k]);
        }
    }
    assert(t[0] == 23 && t[1] == 24 && t[2] == 25 && t[3] == 26 && t[4] == 27 && t[5] == 28
        && t[6] == 29 && t[7] == 30 && t[8] == 31 && t[9] == 33 && t[10] == 34 && t[11] == 35);
    assert(tags.contains(t[0]) == holds_optional(present, 0));
    assert(tags.contains(t[1]) == holds_optional(present, 1));
    assert(tags.contains(t[2]) == holds_optional(present, 2));
    assert(tags.contains(t[3]) == holds_optional(present, 3));
    assert(tags.contains(t[4]) == holds_optional(present, 4));
    assert(tags.contains(t[5]) == holds_optional(present, 5));
    assert(tags.contains(t[6]) == holds_optional(present, 6));
    assert(tags.contains(t[7]) == holds_optional(present, 7));
    assert(tags.contains(t[8]) == holds_optional(present, 8));
    assert(tags.contains(t[9]) == holds_optional(present, 9));
    assert(tags.contains(t[10]) == holds_optional(present, 10));
    assert(tags.contains(t[11]) == holds_optional(present, 11));
}

} // verus!
