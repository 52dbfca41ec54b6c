//! The guard loop's decision: one tick of "defend where you stand".
//!
//! Given the carried weapons and what the player can see this tick, the
//! guard selects the best carried weapon that can fire, turns toward the
//! nearest hostile in line of sight, fires once aligned and in reach,
//! reloads an empty clip, and otherwise stands still; a player with nothing
//! that can reach what is shooting at them backs away instead.
//!
//! The decision is a pure function of its inputs, so two games in the same
//! state produce the same decision. Turning the view, tracing a retreat
//! heading and measuring distances happen in the host; it hands this
//! module the facts they yield ([`GuardTarget`]).
//!
//! The weapon preference is a project-authored tactic for a headless
//! harness, best first by how much one trigger pull puts into one target;
//! the crowbar is the last resort only.

use vstd::prelude::*;

verus! {

/// Every weapon the player can carry.
#[derive(Debug, Clone, Copy, PartialEq, Eq, Structural)]
pub enum WeaponId {
    Crowbar,
    Glock,
    Python,
    Mp5,
    Crossbow,
    Shotgun,
    Rpg,
    Gauss,
    Egon,
    HornetGun,
    HandGrenade,
    Satchel,
    Tripmine,
    Snark,
}

/// How many weapons [`WeaponId`] names.
pub const WEAPON_COUNT: usize = 14;

/// The slot of [`GuardInventory::weapons`] a weapon is described by.
pub open spec fn spec_weapon_index(id: WeaponId) -> int {
    match id {
        WeaponId::Crowbar => 0,
        WeaponId::Glock => 1,
        WeaponId::Python => 2,
        WeaponId::Mp5 => 3,
        WeaponId::Crossbow => 4,
        WeaponId::Shotgun => 5,
        WeaponId::Rpg => 6,
        WeaponId::Gauss => 7,
        WeaponId::Egon => 8,
        WeaponId::HornetGun => 9,
        WeaponId::HandGrenade => 10,
        WeaponId::Satchel => 11,
        WeaponId::Tripmine => 12,
        WeaponId::Snark => 13,
    }
}

impl WeaponId {
    /// The slot of [`GuardInventory::weapons`] this weapon is described by.
    pub fn index(self) -> (i: usize)
        ensures
            i == spec_weapon_index(self),
            i < WEAPON_COUNT,
    {
        match self {
            WeaponId::Crowbar => 0,
            WeaponId::Glock => 1,
            WeaponId::Python => 2,
            WeaponId::Mp5 => 3,
            WeaponId::Crossbow => 4,
            WeaponId::Shotgun => 5,
            WeaponId::Rpg => 6,
            WeaponId::Gauss => 7,
            WeaponId::Egon => 8,
            WeaponId::HornetGun => 9,
            WeaponId::HandGrenade => 10,
            WeaponId::Satchel => 11,
            WeaponId::Tripmine => 12,
            WeaponId::Snark => 13,
        }
    }
}

/// The weapon at position `index` of the fixed weapon order, as a save
/// stores a selection: `None` for a position past the last weapon.
pub fn weapon_at_index(index: u8) -> (id: Option<WeaponId>)
    ensures
        id is Some <==> index < WEAPON_COUNT,
        id matches Some(w) ==> spec_weapon_index(w) == index,
{
    match index {
        0 => Some(WeaponId::Crowbar),
        1 => Some(WeaponId::Glock),
        2 => Some(WeaponId::Python),
        3 => Some(WeaponId::Mp5),
        4 => Some(WeaponId::Crossbow),
        5 => Some(WeaponId::Shotgun),
        6 => Some(WeaponId::Rpg),
        7 => Some(WeaponId::Gauss),
        8 => Some(WeaponId::Egon),
        9 => Some(WeaponId::HornetGun),
        10 => Some(WeaponId::HandGrenade),
        11 => Some(WeaponId::Satchel),
        12 => Some(WeaponId::Tripmine),
        13 => Some(WeaponId::Snark),
        _ => None,
    }
}

/// A weapon's position names it alone: a selection saved as a position
/// reads back as the same weapon.
pub proof fn lemma_weapon_index_round_trip(id: WeaponId)
    ensures
        0 <= spec_weapon_index(id) < WEAPON_COUNT,
        forall|other: WeaponId| spec_weapon_index(other) == spec_weapon_index(id) ==> other == id,
{
}

/// How many weapons the guard ranks.
pub const GUARD_PREFERENCE_LEN: usize = 8;

/// The weapons the guard will carry, best first. The crowbar is not in
/// the list: it is the last resort [`best_weapon`] falls back to.
pub open spec fn guard_preference() -> Seq<WeaponId> {
    seq![
        WeaponId::Python,
        WeaponId::Shotgun,
        WeaponId::Crossbow,
        WeaponId::Mp5,
        WeaponId::Gauss,
        WeaponId::Egon,
        WeaponId::HornetGun,
        WeaponId::Glock,
    ]
}

/// Entry `i` of the guard's weapon preference.
pub fn guard_preference_at(i: usize) -> (id: WeaponId)
    requires
        i < GUARD_PREFERENCE_LEN,
    ensures
        id == guard_preference()[i as int],
{
    match i {
        0 => WeaponId::Python,
        1 => WeaponId::Shotgun,
        2 => WeaponId::Crossbow,
        3 => WeaponId::Mp5,
        4 => WeaponId::Gauss,
        5 => WeaponId::Egon,
        6 => WeaponId::HornetGun,
        _ => WeaponId::Glock,
    }
}

/// One weapon as the guard sees it: whether it is carried, what it holds,
/// and the fixed facts of its kind.
#[derive(Debug, Clone, Copy, PartialEq, Eq, Structural)]
pub struct WeaponStatus {
    /// Whether the weapon is carried.
    pub owned: bool,
    /// Rounds loaded in its clip.
    pub clip: u32,
    /// Reserve rounds of its ammo type.
    pub reserve: u32,
    /// Whether the weapon uses ammo at all.
    pub uses_ammo: bool,
    /// Whether the weapon fires from a clip (rather than straight from the
    /// reserve).
    pub has_clip: bool,
    /// Whether the weapon is a melee weapon.
    pub melee: bool,
    /// The HUD slot that selects it.
    pub hud_slot: u8,
}

/// The weapon inventory as the guard sees it: one [`WeaponStatus`] per
/// [`WeaponId`], at [`WeaponId::index`], and the selected weapon.
#[derive(Debug, Clone, PartialEq, Eq)]
pub struct GuardInventory {
    /// One entry per weapon, in [`WeaponId::index`] order.
    pub weapons: Vec<WeaponStatus>,
    /// The selected weapon, if any.
    pub selected: Option<WeaponId>,
}

/// One entry per weapon.
pub open spec fn inventory_wf(inventory: GuardInventory) -> bool {
    inventory.weapons@.len() == WEAPON_COUNT
}

/// `id`'s entry.
pub open spec fn status_of(inventory: GuardInventory, id: WeaponId) -> WeaponStatus {
    inventory.weapons@[spec_weapon_index(id)]
}

/// Whether `id` can put a shot downrange without reloading first: it uses
/// no ammo, or its clip (for a clip weapon) or its reserve is not empty.
pub open spec fn spec_is_loaded(s: WeaponStatus) -> bool {
    !s.uses_ammo || (if s.has_clip {
        s.clip > 0
    } else {
        s.reserve > 0
    })
}

/// Whether a weapon has anything to shoot with: no ammo type at all, a
/// loaded round, or a reserve a reload can draw on.
pub open spec fn spec_can_fire(s: WeaponStatus) -> bool {
    !s.uses_ammo || s.clip > 0 || s.reserve > 0
}

/// Whether a weapon is a clip weapon whose clip is empty while its reserve
/// is not: the one case a reload is the only useful thing to press.
pub open spec fn spec_needs_reload(s: WeaponStatus) -> bool {
    s.has_clip && s.uses_ammo && s.clip == 0 && s.reserve > 0
}

/// The first weapon from preference entry `i` on that is carried and
/// loaded.
pub open spec fn first_loaded_from(inventory: GuardInventory, i: int) -> Option<WeaponId>
    decreases 8 - i,
{
    if i < 0 || i >= 8 {
        None
    } else if status_of(inventory, guard_preference()[i]).owned && spec_is_loaded(
        status_of(inventory, guard_preference()[i]),
    ) {
        Some(guard_preference()[i])
    } else {
        first_loaded_from(inventory, i + 1)
    }
}

/// The first weapon from preference entry `i` on that is carried and can
/// fire.
pub open spec fn first_fireable_from(inventory: GuardInventory, i: int) -> Option<WeaponId>
    decreases 8 - i,
{
    if i < 0 || i >= 8 {
        None
    } else if status_of(inventory, guard_preference()[i]).owned && spec_can_fire(
        status_of(inventory, guard_preference()[i]),
    ) {
        Some(guard_preference()[i])
    } else {
        first_fireable_from(inventory, i + 1)
    }
}

/// The first weapon from preference entry `i` on that is carried and wants
/// a reload.
pub open spec fn first_wanting_reload_from(inventory: GuardInventory, i: int) -> Option<WeaponId>
    decreases 8 - i,
{
    if i < 0 || i >= 8 {
        None
    } else if status_of(inventory, guard_preference()[i]).owned && spec_needs_reload(
        status_of(inventory, guard_preference()[i]),
    ) {
        Some(guard_preference()[i])
    } else {
        first_wanting_reload_from(inventory, i + 1)
    }
}

/// The best weapon that can fire: the first preferred weapon that is
/// loaded, else the first that can fire after a reload, else the crowbar
/// when it is carried.
pub open spec fn spec_best_weapon(inventory: GuardInventory) -> Option<WeaponId> {
    match first_loaded_from(inventory, 0) {
        Some(id) => Some(id),
        None => match first_fireable_from(inventory, 0) {
            Some(id) => Some(id),
            None => if status_of(inventory, WeaponId::Crowbar).owned {
                Some(WeaponId::Crowbar)
            } else {
                None
            },
        },
    }
}

/// Whether `id` can put a shot downrange without reloading first.
pub fn is_loaded(inventory: &GuardInventory, id: WeaponId) -> (r: bool)
    requires
        inventory_wf(*inventory),
    ensures
        r == spec_is_loaded(status_of(*inventory, id)),
{
    let s = inventory.weapons[id.index()];
    if !s.uses_ammo {
        true
    } else if s.has_clip {
        s.clip > 0
    } else {
        s.reserve > 0
    }
}

/// Whether `id` has anything to shoot with.
pub fn can_fire(inventory: &GuardInventory, id: WeaponId) -> (r: bool)
    requires
        inventory_wf(*inventory),
    ensures
        r == spec_can_fire(status_of(*inventory, id)),
{
    let s = inventory.weapons[id.index()];
    !s.uses_ammo || s.clip > 0 || s.reserve > 0
}

/// Whether `id` is a clip weapon whose clip is empty while its reserve is
/// not.
pub fn needs_reload(inventory: &GuardInventory, id: WeaponId) -> (r: bool)
    requires
        inventory_wf(*inventory),
    ensures
        r == spec_needs_reload(status_of(*inventory, id)),
{
    let s = inventory.weapons[id.index()];
    s.has_clip && s.uses_ammo && s.clip == 0 && s.reserve > 0
}

/// Whether `id` is carried.
fn owns(inventory: &GuardInventory, id: WeaponId) -> (r: bool)
    requires
        inventory_wf(*inventory),
    ensures
        r == status_of(*inventory, id).owned,
{
    inventory.weapons[id.index()].owned
}

/// The first carried, loaded weapon in preference order.
fn first_loaded(inventory: &GuardInventory) -> (r: Option<WeaponId>)
    requires
        inventory_wf(*inventory),
    ensures
        r == first_loaded_from(*inventory, 0),
{
    let mut i: usize = 0;
    while i < GUARD_PREFERENCE_LEN
        invariant
            i <= GUARD_PREFERENCE_LEN,
            inventory_wf(*inventory),
            first_loaded_from(*inventory, 0) == first_loaded_from(*inventory, i as int),
        decreases GUARD_PREFERENCE_LEN - i,
    {
        let id = guard_preference_at(i);
        if owns(inventory, id) && is_loaded(inventory, id) {
            return Some(id);
        }
        i = i + 1;
    }
    None
}

/// The first carried weapon in preference order that can fire.
fn first_fireable(inventory: &GuardInventory) -> (r: Option<WeaponId>)
    requires
        inventory_wf(*inventory),
    ensures
        r == first_fireable_from(*inventory, 0),
{
    let mut i: usize = 0;
    while i < GUARD_PREFERENCE_LEN
        invariant
            i <= GUARD_PREFERENCE_LEN,
            inventory_wf(*inventory),
            first_fireable_from(*inventory, 0) == first_fireable_from(*inventory, i as int),
        decreases GUARD_PREFERENCE_LEN - i,
    {
        let id = guard_preference_at(i);
        if owns(inventory, id) && can_fire(inventory, id) {
            return Some(id);
        }
        i = i + 1;
    }
    None
}

/// The best weapon in `inventory` that can fire, or `None`: a weapon that
/// can shoot this tick beats a better one that would have to reload first,
/// and the crowbar is only picked when nothing else can fire at all.
pub fn best_weapon(inventory: &GuardInventory) -> (r: Option<WeaponId>)
    requires
        inventory_wf(*inventory),
    ensures
        r == spec_best_weapon(*inventory),
{
    match first_loaded(inventory) {
        Some(id) => Some(id),
        None => match first_fireable(inventory) {
            Some(id) => Some(id),
            None => if owns(inventory, WeaponId::Crowbar) {
                Some(WeaponId::Crowbar)
            } else {
                None
            },
        },
    }
}

/// The first carried weapon, in preference order, whose clip is empty
/// while its reserve is not.
pub fn weapon_wanting_reload(inventory: &GuardInventory) -> (r: Option<WeaponId>)
    requires
        inventory_wf(*inventory),
    ensures
        r == first_wanting_reload_from(*inventory, 0),
{
    let mut i: usize = 0;
    while i < GUARD_PREFERENCE_LEN
        invariant
            i <= GUARD_PREFERENCE_LEN,
            inventory_wf(*inventory),
            first_wanting_reload_from(*inventory, 0) == first_wanting_reload_from(
                *inventory,
                i as int,
            ),
        decreases GUARD_PREFERENCE_LEN - i,
    {
        let id = guard_preference_at(i);
        if owns(inventory, id) && needs_reload(inventory, id) {
            return Some(id);
        }
        i = i + 1;
    }
    None
}

/// What the host measured about the nearest hostile in sight this tick.
#[derive(Debug, Clone, Copy, PartialEq, Eq, Structural)]
pub struct GuardTarget {
    /// Whether it is within melee reach.
    pub within_melee: bool,
    /// Whether it is within the guard's engagement range.
    pub within_engage: bool,
    /// Whether the view, after this tick's turn toward it, is aligned
    /// closely enough to fire.
    pub aimed: bool,
}

/// The buttons one guard tick presses.
#[derive(Debug, Clone, Copy, PartialEq, Eq, Structural)]
pub struct GuardButtons {
    /// The HUD weapon slot pressed this tick, if any.
    pub select_slot: Option<u8>,
    /// Whether reload is pressed.
    pub reload: bool,
    /// Whether the trigger is held.
    pub attack: bool,
    /// Whether the view turns toward the target this tick.
    pub aim: bool,
    /// Whether the player backs away from the target this tick.
    pub retreat: bool,
}

/// What the guard decided to do this tick, as data.
#[derive(Debug, Clone, Copy, PartialEq, Eq, Structural)]
pub struct GuardDecision {
    /// Whether a hostile monster was in line of sight and in range.
    pub has_target: bool,
    /// The weapon the guard wants in hand, if it owns one it can use.
    pub weapon: Option<WeaponId>,
    /// Whether this tick presses a weapon-slot key.
    pub selecting: bool,
    /// Whether this tick holds the trigger.
    pub firing: bool,
    /// Whether this tick presses reload.
    pub reloading: bool,
    /// Whether this tick backs away from the threat instead of engaging it.
    pub retreating: bool,
}

/// Whether weapon `id` can engage `target` this tick: it is loaded, and a
/// melee weapon only when the target is within melee reach.
pub open spec fn can_engage(inventory: GuardInventory, id: WeaponId, target: GuardTarget) -> bool {
    spec_is_loaded(status_of(inventory, id)) && (!status_of(inventory, id).melee
        || target.within_melee)
}

/// Whether `target` is within reach of weapon `id`.
pub open spec fn in_reach(inventory: GuardInventory, id: WeaponId, target: GuardTarget) -> bool {
    if status_of(inventory, id).melee {
        target.within_melee
    } else {
        target.within_engage
    }
}

/// Whether the guard backs away: something is in sight and nothing carried
/// can engage it.
pub open spec fn spec_retreats(inventory: GuardInventory, target: Option<GuardTarget>) -> bool {
    match target {
        None => false,
        Some(t) => match spec_best_weapon(inventory) {
            None => true,
            Some(w) => !can_engage(inventory, w, t),
        },
    }
}

/// The slot pressed to draw `id` when it is not already selected.
pub open spec fn draw_slot(inventory: GuardInventory, id: WeaponId) -> Option<u8> {
    if inventory.selected == Some(id) {
        None
    } else {
        Some(status_of(inventory, id).hud_slot)
    }
}

/// The weapon slot the guard presses this tick.
pub open spec fn spec_guard_slot(
    alive: bool,
    inventory: GuardInventory,
    target: Option<GuardTarget>,
) -> Option<u8> {
    match spec_best_weapon(inventory) {
        None => None,
        Some(best) => if !alive {
            None
        } else if target is None {
            match first_wanting_reload_from(inventory, 0) {
                Some(r) => if inventory.selected == Some(r) {
                    draw_slot(inventory, best)
                } else {
                    Some(status_of(inventory, r).hud_slot)
                },
                None => draw_slot(inventory, best),
            }
        } else {
            draw_slot(inventory, best)
        },
    }
}

/// Whether the guard presses reload this tick: the weapon it wants wants a
/// reload while something is in sight, or (nothing in sight) the first
/// preferred carried weapon wanting one is already in hand.
pub open spec fn spec_guard_reloads(
    alive: bool,
    inventory: GuardInventory,
    target: Option<GuardTarget>,
) -> bool {
    alive && match spec_best_weapon(inventory) {
        None => false,
        Some(best) => match target {
            Some(t) => spec_needs_reload(status_of(inventory, best)),
            None => match first_wanting_reload_from(inventory, 0) {
                Some(r) => inventory.selected == Some(r),
                None => false,
            },
        },
    }
}

/// Whether the guard holds the trigger this tick: the best weapon is in
/// hand, can engage the target, needs no reload, the view is aligned and
/// the target is within the weapon's reach.
pub open spec fn spec_guard_fires(
    alive: bool,
    inventory: GuardInventory,
    target: Option<GuardTarget>,
) -> bool {
    alive && match (spec_best_weapon(inventory), target) {
        (Some(best), Some(t)) => can_engage(inventory, best, t) && !spec_needs_reload(
            status_of(inventory, best),
        ) && t.aimed && in_reach(inventory, best, t) && inventory.selected == Some(best),
        _ => false,
    }
}

/// The weapon the guard reports wanting in hand.
pub open spec fn spec_guard_weapon(
    alive: bool,
    inventory: GuardInventory,
    target: Option<GuardTarget>,
) -> Option<WeaponId> {
    if !alive {
        None
    } else {
        match spec_best_weapon(inventory) {
            Some(best) => if target is None && first_wanting_reload_from(inventory, 0) is Some {
                first_wanting_reload_from(inventory, 0)
            } else {
                Some(best)
            },
            None => None,
        }
    }
}

/// One tick of the guard loop: see this module's own documentation. A dead
/// player presses nothing.
pub fn guard_step(alive: bool, inventory: &GuardInventory, target: Option<GuardTarget>) -> (r: (
    GuardButtons,
    GuardDecision,
))
    requires
        inventory_wf(*inventory),
    ensures
        r.1.has_target == (alive && target is Some),
        r.1.retreating == (alive && spec_retreats(*inventory, target)),
        r.0.retreat == r.1.retreating,
        r.0.select_slot == spec_guard_slot(alive, *inventory, target),
        r.1.selecting == r.0.select_slot is Some,
        r.0.reload == spec_guard_reloads(alive, *inventory, target),
        r.1.reloading == r.0.reload,
        r.0.attack == spec_guard_fires(alive, *inventory, target),
        r.1.firing == r.0.attack,
        r.0.aim == (alive && target is Some && !spec_retreats(*inventory, target)),
        r.1.weapon == spec_guard_weapon(alive, *inventory, target),
{
    let mut buttons = GuardButtons {
        select_slot: None,
        reload: false,
        attack: false,
        aim: false,
        retreat: false,
    };
    let mut decision = GuardDecision {
        has_target: false,
        weapon: None,
        selecting: false,
        firing: false,
        reloading: false,
        retreating: false,
    };
    if !alive {
        return (buttons, decision);
    }
    let weapon = best_weapon(inventory);
    decision.has_target = target.is_some();
    decision.weapon = weapon;
    let engage = match (weapon, target) {
        (Some(id), Some(t)) => is_loaded(inventory, id) && (!inventory.weapons[id.index()].melee
            || t.within_melee),
        _ => false,
    };
    if target.is_some() && !engage {
        decision.retreating = true;
        buttons.retreat = true;
        if let Some(id) = weapon {
            if inventory.selected != Some(id) {
                buttons.select_slot = Some(inventory.weapons[id.index()].hud_slot);
                decision.selecting = true;
            }
            if needs_reload(inventory, id) {
                buttons.reload = true;
                decision.reloading = true;
            }
        }
        return (buttons, decision);
    }
    let id = match weapon {
        Some(id) => id,
        None => {
            return (buttons, decision);
        },
    };
    if inventory.selected != Some(id) {
        buttons.select_slot = Some(inventory.weapons[id.index()].hud_slot);
        decision.selecting = true;
    }
    let t = match target {
        Some(t) => t,
        None => {
            if let Some(reload_id) = weapon_wanting_reload(inventory) {
                decision.weapon = Some(reload_id);
                if inventory.selected == Some(reload_id) {
                    buttons.reload = true;
                    decision.reloading = true;
                } else {
                    buttons.select_slot = Some(inventory.weapons[reload_id.index()].hud_slot);
                    decision.selecting = true;
                }
            }
            return (buttons, decision);
        },
    };
    buttons.aim = true;
    if needs_reload(inventory, id) {
        buttons.reload = true;
        decision.reloading = true;
        return (buttons, decision);
    }
    let reach = if inventory.weapons[id.index()].melee {
        t.within_melee
    } else {
        t.within_engage
    };
    if t.aimed && reach && !decision.selecting {
        buttons.attack = true;
        decision.firing = true;
    }
    (buttons, decision)
}

/// The crowbar is the last resort: it is the best weapon only when no
/// preferred weapon is carried with anything to shoot.
pub proof fn lemma_crowbar_is_last_resort(inventory: GuardInventory)
    requires
        inventory_wf(inventory),
        spec_best_weapon(inventory) == Some(WeaponId::Crowbar),
    ensures
        forall|i: int|
            0 <= i < 8 ==> !(status_of(inventory, #[trigger] guard_preference()[i]).owned
                && spec_can_fire(status_of(inventory, guard_preference()[i]))),
{
    lemma_searches_never_pick_crowbar(inventory, 0);
    lemma_first_fireable_none(inventory, 0);
}

/// The preference searches only ever return preferred weapons, never the
/// crowbar.
proof fn lemma_searches_never_pick_crowbar(inventory: GuardInventory, i: int)
    ensures
        first_loaded_from(inventory, i) != Some(WeaponId::Crowbar),
        first_fireable_from(inventory, i) != Some(WeaponId::Crowbar),
    decreases 8 - i,
{
    if 0 <= i < 8 {
        lemma_searches_never_pick_crowbar(inventory, i + 1);
    }
}

/// When no preferred weapon from entry `i` on is carried with anything to
/// shoot, the search from `i` finds nothing, and conversely.
proof fn lemma_first_fireable_none(inventory: GuardInventory, i: int)
    requires
        0 <= i <= 8,
    ensures
        first_fireable_from(inventory, i) is None <==> forall|k: int|
            i <= k < 8 ==> !(status_of(inventory, #[trigger] guard_preference()[k]).owned
                && spec_can_fire(status_of(inventory, guard_preference()[k]))),
    decreases 8 - i,
{
    if i < 8 {
        lemma_first_fireable_none(inventory, i + 1);
    }
}

/// A loaded weapon is always preferred over one that would have to reload
/// first: whenever any preferred weapon is carried and loaded, the best
/// weapon is carried and loaded.
pub proof fn lemma_loaded_weapon_wins(inventory: GuardInventory, k: int)
    requires
        0 <= k < 8,
        status_of(inventory, guard_preference()[k]).owned,
        spec_is_loaded(status_of(inventory, guard_preference()[k])),
    ensures
        spec_best_weapon(inventory) matches Some(w) && status_of(inventory, w).owned
            && spec_is_loaded(status_of(inventory, w)),
{
    lemma_first_loaded_found(inventory, 0, k);
}

/// A carried, loaded weapon at entry `k` makes the search from any `i <= k`
/// find a carried, loaded weapon.
proof fn lemma_first_loaded_found(inventory: GuardInventory, i: int, k: int)
    requires
        0 <= i <= k < 8,
        status_of(inventory, guard_preference()[k]).owned,
        spec_is_loaded(status_of(inventory, guard_preference()[k])),
    ensures
        first_loaded_from(inventory, i) matches Some(w) && status_of(inventory, w).owned
            && spec_is_loaded(status_of(inventory, w)),
    decreases k - i,
{
    if i < k {
        if !(status_of(inventory, guard_preference()[i]).owned && spec_is_loaded(
            status_of(inventory, guard_preference()[i]),
        )) {
            lemma_first_loaded_found(inventory, i + 1, k);
        }
    }
}

/// Whether `id` is carried with a round ready to fire.
pub open spec fn ready_to_fire(inventory: GuardInventory, id: WeaponId) -> bool {
    status_of(inventory, id).owned && spec_is_loaded(status_of(inventory, id))
}

/// Whether `id` is carried with anything to shoot, after a reload if need
/// be.
pub open spec fn carried_with_ammo(inventory: GuardInventory, id: WeaponId) -> bool {
    status_of(inventory, id).owned && spec_can_fire(status_of(inventory, id))
}

/// The guard draws its weapons in the order Python, Shotgun, Crossbow,
/// MP5, Gauss, Egon, Hornet gun, Glock: the first of them carried with a
/// round ready wins; when none has a round ready, the first of them
/// carried with anything a reload can load wins; and only then the
/// crowbar.
pub proof fn lemma_guard_weapon_order(inventory: GuardInventory)
    ensures
        ready_to_fire(inventory, WeaponId::Python) ==> spec_best_weapon(inventory) == Some(
            WeaponId::Python,
        ),
        !ready_to_fire(inventory, WeaponId::Python) && ready_to_fire(inventory, WeaponId::Shotgun)
            ==> spec_best_weapon(inventory) == Some(WeaponId::Shotgun),
        !ready_to_fire(inventory, WeaponId::Python) && !ready_to_fire(inventory, WeaponId::Shotgun)
            && ready_to_fire(inventory, WeaponId::Crossbow) ==> spec_best_weapon(inventory) == Some(
            WeaponId::Crossbow,
        ),
        !ready_to_fire(inventory, WeaponId::Python) && !ready_to_fire(inventory, WeaponId::Shotgun)
            && !ready_to_fire(inventory, WeaponId::Crossbow) && ready_to_fire(
            inventory,
            WeaponId::Mp5,
        ) ==> spec_best_weapon(inventory) == Some(WeaponId::Mp5),
        !ready_to_fire(inventory, WeaponId::Python) && !ready_to_fire(inventory, WeaponId::Shotgun)
            && !ready_to_fire(inventory, WeaponId::Crossbow) && !ready_to_fire(
            inventory,
            WeaponId::Mp5,
        ) && ready_to_fire(inventory, WeaponId::Gauss) ==> spec_best_weapon(inventory) == Some(
            WeaponId::Gauss,
        ),
        !ready_to_fire(inventory, WeaponId::Python) && !ready_to_fire(inventory, WeaponId::Shotgun)
            && !ready_to_fire(inventory, WeaponId::Crossbow) && !ready_to_fire(
            inventory,
            WeaponId::Mp5,
        ) && !ready_to_fire(inventory, WeaponId::Gauss) && ready_to_fire(inventory, WeaponId::Egon)
            ==> spec_best_weapon(inventory) == Some(WeaponId::Egon),
        !ready_to_fire(inventory, WeaponId::Python) && !ready_to_fire(inventory, WeaponId::Shotgun)
            && !ready_to_fire(inventory, WeaponId::Crossbow) && !ready_to_fire(
            inventory,
            WeaponId::Mp5,
        ) && !ready_to_fire(inventory, WeaponId::Gauss) && !ready_to_fire(inventory, WeaponId::Egon)
            && ready_to_fire(inventory, WeaponId::HornetGun) ==> spec_best_weapon(inventory) == Some(
            WeaponId::HornetGun,
        ),
        !ready_to_fire(inventory, WeaponId::Python) && !ready_to_fire(inventory, WeaponId::Shotgun)
            && !ready_to_fire(inventory, WeaponId::Crossbow) && !ready_to_fire(
            inventory,
            WeaponId::Mp5,
        ) && !ready_to_fire(inventory, WeaponId::Gauss) && !ready_to_fire(inventory, WeaponId::Egon)
            && !ready_to_fire(inventory, WeaponId::HornetGun) && ready_to_fire(
            inventory,
            WeaponId::Glock,
        ) ==> spec_best_weapon(inventory) == Some(WeaponId::Glock),
        ({
            let none_ready = !ready_to_fire(inventory, WeaponId::Python) && !ready_to_fire(
                inventory,
                WeaponId::Shotgun,
            ) && !ready_to_fire(inventory, WeaponId::Crossbow) && !ready_to_fire(
                inventory,
                WeaponId::Mp5,
            ) && !ready_to_fire(inventory, WeaponId::Gauss) && !ready_to_fire(
                inventory,
                WeaponId::Egon,
            ) && !ready_to_fire(inventory, WeaponId::HornetGun) && !ready_to_fire(
                inventory,
                WeaponId::Glock,
            );
            &&& none_ready && carried_with_ammo(inventory, WeaponId::Python) ==> spec_best_weapon(
                inventory,
            ) == Some(WeaponId::Python)
            &&& none_ready && !carried_with_ammo(inventory, WeaponId::Python) && carried_with_ammo(
                inventory,
                WeaponId::Shotgun,
            ) ==> spec_best_weapon(inventory) == Some(WeaponId::Shotgun)
            &&& none_ready && !carried_with_ammo(inventory, WeaponId::Python) && !carried_with_ammo(
                inventory,
                WeaponId::Shotgun,
            ) && carried_with_ammo(inventory, WeaponId::Crossbow) ==> spec_best_weapon(inventory)
                == Some(WeaponId::Crossbow)
            &&& none_ready && !carried_with_ammo(inventory, WeaponId::Python) && !carried_with_ammo(
                inventory,
                WeaponId::Shotgun,
            ) && !carried_with_ammo(inventory, WeaponId::Crossbow) && carried_with_ammo(
                inventory,
                WeaponId::Mp5,
            ) ==> spec_best_weapon(inventory) == Some(WeaponId::Mp5)
            &&& none_ready && !carried_with_ammo(inventory, WeaponId::Python) && !carried_with_ammo(
                inventory,
                WeaponId::Shotgun,
            ) && !carried_with_ammo(inventory, WeaponId::Crossbow) && !carried_with_ammo(
                inventory,
                WeaponId::Mp5,
            ) && carried_with_ammo(inventory, WeaponId::Gauss) ==> spec_best_weapon(inventory)
                == Some(WeaponId::Gauss)
            &&& none_ready && !carried_with_ammo(inventory, WeaponId::Python) && !carried_with_ammo(
                inventory,
                WeaponId::Shotgun,
            ) && !carried_with_ammo(inventory, WeaponId::Crossbow) && !carried_with_ammo(
                inventory,
                WeaponId::Mp5,
            ) && !carried_with_ammo(inventory, WeaponId::Gauss) && carried_with_ammo(
                inventory,
                WeaponId::Egon,
            ) ==> spec_best_weapon(inventory) == Some(WeaponId::Egon)
            &&& none_ready && !carried_with_ammo(inventory, WeaponId::Python) && !carried_with_ammo(
                inventory,
                WeaponId::Shotgun,
            ) && !carried_with_ammo(inventory, WeaponId::Crossbow) && !carried_with_ammo(
                inventory,
                WeaponId::Mp5,
            ) && !carried_with_ammo(inventory, WeaponId::Gauss) && !carried_with_ammo(
                inventory,
                WeaponId::Egon,
            ) && carried_with_ammo(inventory, WeaponId::HornetGun) ==> spec_best_weapon(inventory)
                == Some(WeaponId::HornetGun)
            &&& none_ready && !carried_with_ammo(inventory, WeaponId::Python) && !carried_with_ammo(
                inventory,
                WeaponId::Shotgun,
            ) && !carried_with_ammo(inventory, WeaponId::Crossbow) && !carried_with_ammo(
                inventory,
                WeaponId::Mp5,
            ) && !carried_with_ammo(inventory, WeaponId::Gauss) && !carried_with_ammo(
                inventory,
                WeaponId::Egon,
            ) && !carried_with_ammo(inventory, WeaponId::HornetGun) && carried_with_ammo(
                inventory,
                WeaponId::Glock,
            ) ==> spec_best_weapon(inventory) == Some(WeaponId::Glock)
        }),
{
    reveal_with_fuel(first_loaded_from, 9);
    reveal_with_fuel(first_fireable_from, 9);
}

/// Every weapon sits at its fixed position in the weapon order a save
/// stores a selection by: crowbar 0, Glock 1, Python 2, MP5 3, crossbow 4,
/// shotgun 5, RPG 6, Gauss 7, Egon 8, Hornet gun 9, hand grenade 10,
/// satchel 11, tripmine 12, snark 13.
pub proof fn lemma_weapon_positions(w: WeaponId)
    ensures
        (spec_weapon_index(w) == 0) == (w == WeaponId::Crowbar),
        (spec_weapon_index(w) == 1) == (w == WeaponId::Glock),
        (spec_weapon_index(w) == 2) == (w == WeaponId::Python),
        (spec_weapon_index(w) == 3) == (w == WeaponId::Mp5),
        (spec_weapon_index(w) == 4) == (w == WeaponId::Crossbow),
        (spec_weapon_index(w) == 5) == (w == WeaponId::Shotgun),
        (spec_weapon_index(w) == 6) == (w == WeaponId::Rpg),
        (spec_weapon_index(w) == 7) == (w == WeaponId::Gauss),
        (spec_weapon_index(w) == 8) == (w == WeaponId::Egon),
        (spec_weapon_index(w) == 9) == (w == WeaponId::HornetGun),
        (spec_weapon_index(w) == 10) == (w == WeaponId::HandGrenade),
        (spec_weapon_index(w) == 11) == (w == WeaponId::Satchel),
        (spec_weapon_index(w) == 12) == (w == WeaponId::Tripmine),
        (spec_weapon_index(w) == 13) == (w == WeaponId::Snark),
{
}

} // verus!
