//! Save-file snapshot records and the fixed tags and indices they are
//! keyed by.
//!
//! Entities are never stored as raw handles: a section names an entity by
//! its position in the level registry's spawn order ([`spawn_index_of`] /
//! [`entity_at_spawn_index`]), and a handle itself is its 64-bit pattern.

use vstd::prelude::*;

verus! {

/// The most entities one per-entity section records.
pub const MAX_SNAPSHOT_ENTITIES: usize = 65_536;

/// The most live projectiles one projectiles section records.
pub const MAX_SNAPSHOT_PROJECTILES: usize = 128;

/// The most placed satchels/tripmines one projectiles section records.
pub const MAX_SNAPSHOT_DEPLOYABLES: usize = 5;

/// One owned weapon's persisted state.
#[derive(Debug, Clone, Copy, PartialEq, Eq, Structural, Default)]
pub struct WeaponSnapshot {
    /// Whether the weapon is owned at all.
    pub owned: bool,
    /// Rounds currently loaded (meaningless when `owned` is `false`).
    pub clip: u32,
}

/// An entity's squad membership.
#[derive(Debug, Clone, PartialEq, Eq)]
pub struct SquadSnapshot {
    /// The squad's `netname`.
    pub name: String,
    /// Whether this entity is the squad leader.
    pub leader: bool,
}

/// The shared random streams and step counters, so a fixed-seed run
/// continued after a load reproduces the uninterrupted run.
#[derive(Debug, Clone, Copy, PartialEq, Eq, Structural, Default)]
pub struct RngSnapshot {
    /// The engine stream's state.
    pub state: u64,
    /// The engine stream's increment.
    pub increment: u64,
    /// How many fixed steps have run since the level was attached.
    pub substep_counter: u64,
    /// The AI world's own stream state.
    pub ai_state: u64,
    /// The AI world's own stream increment.
    pub ai_increment: u64,
    /// The AI world's tick count.
    pub ai_tick_count: u64,
}

/// The projectile kinds a save can hold.
#[derive(Debug, Clone, Copy, PartialEq, Eq, Structural)]
pub enum ProjectileKind {
    CrossbowBolt,
    Rocket,
    Mp5Grenade,
    HandGrenade,
    Hornet,
    Snark,
}

/// The fixed tag each projectile kind is stored as.
pub open spec fn spec_projectile_tag(kind: ProjectileKind) -> u8 {
    match kind {
        ProjectileKind::CrossbowBolt => 0,
        ProjectileKind::Rocket => 1,
        ProjectileKind::Mp5Grenade => 2,
        ProjectileKind::HandGrenade => 3,
        ProjectileKind::Hornet => 4,
        ProjectileKind::Snark => 5,
    }
}

/// The fixed tag [`ProjectileKind`] is stored as. Values never change once
/// assigned.
pub fn projectile_kind_tag(kind: ProjectileKind) -> (tag: u8)
    ensures
        tag == spec_projectile_tag(kind),
{
    match kind {
        ProjectileKind::CrossbowBolt => 0,
        ProjectileKind::Rocket => 1,
        ProjectileKind::Mp5Grenade => 2,
        ProjectileKind::HandGrenade => 3,
        ProjectileKind::Hornet => 4,
        ProjectileKind::Snark => 5,
    }
}

/// The kind a previous [`projectile_kind_tag`] named, or `None` for a tag
/// this build does not recognise.
pub fn projectile_kind_from_tag(tag: u8) -> (kind: Option<ProjectileKind>)
    ensures
        kind is Some <==> tag <= 5,
        kind matches Some(k) ==> spec_projectile_tag(k) == tag,
{
    match tag {
        0 => Some(ProjectileKind::CrossbowBolt),
        1 => Some(ProjectileKind::Rocket),
        2 => Some(ProjectileKind::Mp5Grenade),
        3 => Some(ProjectileKind::HandGrenade),
        4 => Some(ProjectileKind::Hornet),
        5 => Some(ProjectileKind::Snark),
        _ => None,
    }
}

/// Every projectile kind survives the trip through its tag.
pub proof fn lemma_projectile_tag_round_trip(kind: ProjectileKind)
    ensures
        spec_projectile_tag(kind) <= 5,
        forall|other: ProjectileKind|
            spec_projectile_tag(other) == spec_projectile_tag(kind) ==> other == kind,
{
}

/// `entity`'s position in the registry's spawn order, the save-stable
/// reference every section uses instead of a raw handle: the first slot
/// holding it, or `None` when no slot a `u32` can name holds it.
pub fn spawn_index_of(entities: &[u64], entity: u64) -> (index: Option<u32>)
    ensures
        match index {
            Some(i) => {
                &&& i < entities@.len()
                &&& entities@[i as int] == entity
                &&& forall|j: int| 0 <= j < i ==> entities@[j] != entity
            },
            None => forall|j: int|
                0 <= j < entities@.len() && j <= u32::MAX ==> entities@[j] != entity,
        },
{
    let mut i: usize = 0;
    while i < entities.len()
        invariant
            i <= entities@.len(),
            forall|j: int| 0 <= j < i ==> entities@[j] != entity,
        decreases entities@.len() - i,
    {
        if entities[i] == entity {
            if i <= u32::MAX as usize {
                return Some(i as u32);
            } else {
                return None;
            }
        }
        i = i + 1;
    }
    None
}

/// The slot `index` names in `entities`, when it is in range.
pub open spec fn spec_entity_at(entities: Seq<u64>, index: u32) -> Option<u64> {
    if index < entities.len() {
        Some(entities[index as int])
    } else {
        None
    }
}

/// The entity a previous [`spawn_index_of`] named, or `None` when the
/// index is out of range.
pub fn entity_at_spawn_index(entities: &[u64], index: u32) -> (entity: Option<u64>)
    ensures
        entity == spec_entity_at(entities@, index),
{
    let i = index as usize;
    if i < entities.len() {
        Some(entities[i])
    } else {
        None
    }
}

/// A spawn index names the entity it was taken from: an index
/// [`spawn_index_of`] can return for `entity` (a slot holding it, with no
/// earlier slot holding it) maps back to `entity` through
/// [`entity_at_spawn_index`].
pub proof fn lemma_spawn_index_round_trip(entities: Seq<u64>, entity: u64, index: u32)
    requires
        index < entities.len(),
        entities[index as int] == entity,
        forall|j: int| 0 <= j < index ==> entities[j] != entity,
    ensures
        spec_entity_at(entities, index) == Some(entity),
{
}

/// The saved projectile entries among the first `n` whose kind tag names a
/// projectile kind, each with its kind, in order.
pub open spec fn known_projectiles(tags: Seq<u8>, n: int) -> Seq<(usize, ProjectileKind)>
    decreases n,
{
    if n <= 0 {
        Seq::empty()
    } else {
        let before = known_projectiles(tags, n - 1);
        if tags[n - 1] <= 5 {
            before.push(((n - 1) as usize, kind_of_tag(tags[n - 1])))
        } else {
            before
        }
    }
}

/// The kind a known tag names.
pub open spec fn kind_of_tag(tag: u8) -> ProjectileKind {
    if tag == 0 {
        ProjectileKind::CrossbowBolt
    } else if tag == 1 {
        ProjectileKind::Rocket
    } else if tag == 2 {
        ProjectileKind::Mp5Grenade
    } else if tag == 3 {
        ProjectileKind::HandGrenade
    } else if tag == 4 {
        ProjectileKind::Hornet
    } else {
        ProjectileKind::Snark
    }
}

/// Which saved projectiles a restore brings back, given each saved entry's
/// kind tag: only the first [`MAX_SNAPSHOT_PROJECTILES`] entries are
/// looked at, however many the section claims, and an entry whose tag this
/// build does not recognise is dropped. Each kept entry comes with its
/// index among the saved entries and its kind, in order.
pub fn restorable_projectiles(kind_tags: &[u8]) -> (kept: Vec<(usize, ProjectileKind)>)
    ensures
        kept@ == known_projectiles(
            kind_tags@,
            if kind_tags@.len() < MAX_SNAPSHOT_PROJECTILES {
                kind_tags@.len() as int
            } else {
                MAX_SNAPSHOT_PROJECTILES as int
            },
        ),
        kept@.len() <= MAX_SNAPSHOT_PROJECTILES,
{
    let limit = if kind_tags.len() < MAX_SNAPSHOT_PROJECTILES {
        kind_tags.len()
    } else {
        MAX_SNAPSHOT_PROJECTILES
    };
    let mut kept: Vec<(usize, ProjectileKind)> = Vec::new();
    let mut i: usize = 0;
    while i < limit
        invariant
            i <= limit <= kind_tags@.len(),
            limit <= MAX_SNAPSHOT_PROJECTILES,
            kept@ == known_projectiles(kind_tags@, i as int),
            kept@.len() <= i,
        decreases limit - i,
    {
        match projectile_kind_from_tag(kind_tags[i]) {
            Some(kind) => {
                assert(kind == kind_of_tag(kind_tags@[i as int]));
                kept.push((i, kind));
            },
            None => {},
        }
        i = i + 1;
    }
    kept
}

/// How many saved deployables of one kind a restore looks at: all of
/// them, up to [`MAX_SNAPSHOT_DEPLOYABLES`].
pub open spec fn deployables_kept(saved: int) -> int {
    if saved < MAX_SNAPSHOT_DEPLOYABLES {
        saved
    } else {
        MAX_SNAPSHOT_DEPLOYABLES as int
    }
}

/// The owner a restored deployable gets from its saved owner's spawn
/// index: the entity at that index, or none.
pub open spec fn restored_owner(entities: Seq<u64>, owner: Option<u32>) -> Option<u64> {
    match owner {
        Some(index) => spec_entity_at(entities, index),
        None => None,
    }
}

/// Which saved deployables of one kind (satchels, or tripmines) a restore
/// brings back, given each saved entry's owner as a spawn index: only the
/// first [`MAX_SNAPSHOT_DEPLOYABLES`] entries, however many the section
/// holds, each with its owner resolved against `entities` (the level's
/// spawn order; an index out of range leaves it unowned), in order.
pub fn restorable_deployables(owners: &[Option<u32>], entities: &[u64]) -> (kept: Vec<
    Option<u64>,
>)
    ensures
        kept@.len() == deployables_kept(owners@.len() as int),
        kept@.len() <= MAX_SNAPSHOT_DEPLOYABLES,
        forall|i: int|
            0 <= i < kept@.len() ==> #[trigger] kept@[i] == restored_owner(entities@, owners@[i]),
{
    let limit = if owners.len() < MAX_SNAPSHOT_DEPLOYABLES {
        owners.len()
    } else {
        MAX_SNAPSHOT_DEPLOYABLES
    };
    let mut kept: Vec<Option<u64>> = Vec::new();
    let mut i: usize = 0;
    while i < limit
        invariant
            i <= limit <= owners@.len(),
            limit == deployables_kept(owners@.len() as int),
            kept@.len() == i,
            forall|j: int| 0 <= j < i ==> #[trigger] kept@[j] == restored_owner(entities@, owners@[j]),
        decreases limit - i,
    {
        let owner = match owners[i] {
            Some(index) => entity_at_spawn_index(entities, index),
            None => None,
        };
        kept.push(owner);
        i = i + 1;
    }
    kept
}

/// A save stores each projectile kind under its fixed published tag,
/// crossbow bolt 0, rocket 1, MP5 grenade 2, hand grenade 3, hornet 4,
/// snark 5, and a restore reads tag `t` back as the kind stored under
/// `t`, whichever tag it is.
pub proof fn lemma_projectile_tags_are_published(kind: ProjectileKind, t: u8)
    ensures
        (spec_projectile_tag(kind) == 0) == (kind == ProjectileKind::CrossbowBolt),
        (spec_projectile_tag(kind) == 1) == (kind == ProjectileKind::Rocket),
        (spec_projectile_tag(kind) == 2) == (kind == ProjectileKind::Mp5Grenade),
        (spec_projectile_tag(kind) == 3) == (kind == ProjectileKind::HandGrenade),
        (spec_projectile_tag(kind) == 4) == (kind == ProjectileKind::Hornet),
        (spec_projectile_tag(kind) == 5) == (kind == ProjectileKind::Snark),
        t <= 5 ==> (kind_of_tag(t) == kind <==> spec_projectile_tag(kind) == t),
{
}

} // verus!
