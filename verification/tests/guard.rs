use ohl_engine::guard::{
    best_weapon, guard_step, needs_reload, weapon_at_index, weapon_wanting_reload, GuardInventory,
    GuardTarget, WeaponId, WeaponStatus, WEAPON_COUNT,
};

const ALL: [WeaponId; WEAPON_COUNT] = [
    WeaponId::Crowbar,
    WeaponId::Glock,
    WeaponId::Python,
    WeaponId::Mp5,
    WeaponId::Crossbow,
    WeaponId::Shotgun,
    WeaponId::Rpg,
    WeaponId::Gauss,
    WeaponId::Egon,
    WeaponId::HornetGun,
    WeaponId::HandGrenade,
    WeaponId::Satchel,
    WeaponId::Tripmine,
    WeaponId::Snark,
];

/// The fixed facts of each weapon: whether it uses ammo, fires from a
/// clip, is melee, and its HUD slot.
fn facts(id: WeaponId) -> (bool, bool, bool, u8) {
    match id {
        WeaponId::Crowbar => (false, false, true, 1),
        WeaponId::Glock | WeaponId::Python => (true, true, false, 2),
        WeaponId::Mp5 | WeaponId::Crossbow | WeaponId::Shotgun => (true, true, false, 3),
        WeaponId::Rpg => (true, true, false, 4),
        WeaponId::Gauss | WeaponId::Egon | WeaponId::HornetGun => (true, false, false, 4),
        _ => (true, false, false, 5),
    }
}

/// The ammo pool a weapon draws on (the glock and the mp5 share 9mm).
fn pool(id: WeaponId) -> usize {
    match id {
        WeaponId::Glock | WeaponId::Mp5 => 0,
        WeaponId::Python => 1,
        _ => 2 + id.index(),
    }
}

struct Carried {
    owned: Vec<WeaponId>,
    clips: [u32; WEAPON_COUNT],
    reserves: [u32; 2 + WEAPON_COUNT],
    selected: Option<WeaponId>,
}

impl Carried {
    fn new() -> Self {
        Carried { owned: Vec::new(), clips: [0; WEAPON_COUNT], reserves: [0; 2 + WEAPON_COUNT], selected: None }
    }
    fn give_weapon(&mut self, id: WeaponId) {
        self.owned.push(id);
    }
    fn give_ammo_for(&mut self, id: WeaponId, amount: u32) {
        self.reserves[pool(id)] += amount;
    }
    fn set_clip(&mut self, id: WeaponId, clip: u32) {
        self.clips[id.index()] = clip;
    }
    fn inventory(&self) -> GuardInventory {
        let weapons = ALL
            .iter()
            .map(|id| {
                let (uses_ammo, has_clip, melee, hud_slot) = facts(*id);
                WeaponStatus {
                    owned: self.owned.contains(id),
                    clip: self.clips[id.index()],
                    reserve: self.reserves[pool(*id)],
                    uses_ammo,
                    has_clip,
                    melee,
                    hud_slot,
                }
            })
            .collect();
        GuardInventory { weapons, selected: self.selected }
    }
}

#[test]
fn a_weapon_with_neither_clip_nor_reserve_is_not_pickable() {
    let mut carried = Carried::new();
    carried.give_weapon(WeaponId::Mp5);
    assert_eq!(best_weapon(&carried.inventory()), None);
    carried.give_ammo_for(WeaponId::Mp5, 25);
    assert_eq!(best_weapon(&carried.inventory()), Some(WeaponId::Mp5));
}

#[test]
fn the_crowbar_is_the_last_resort_and_never_the_first_choice() {
    let mut carried = Carried::new();
    carried.give_weapon(WeaponId::Crowbar);
    assert_eq!(best_weapon(&carried.inventory()), Some(WeaponId::Crowbar));
    carried.give_weapon(WeaponId::Glock);
    carried.give_ammo_for(WeaponId::Glock, 17);
    assert_eq!(best_weapon(&carried.inventory()), Some(WeaponId::Glock));
}

#[test]
fn a_loaded_weapon_beats_a_better_one_that_would_have_to_reload_first() {
    let mut carried = Carried::new();
    carried.give_weapon(WeaponId::Mp5);
    carried.give_ammo_for(WeaponId::Mp5, 50);
    carried.give_weapon(WeaponId::Glock);
    carried.give_ammo_for(WeaponId::Glock, 17);
    carried.set_clip(WeaponId::Glock, 17);
    assert_eq!(
        best_weapon(&carried.inventory()),
        Some(WeaponId::Glock),
        "the loaded pistol beats the empty-clipped submachine gun"
    );
    carried.set_clip(WeaponId::Mp5, 10);
    assert_eq!(best_weapon(&carried.inventory()), Some(WeaponId::Mp5));
}

#[test]
fn a_quiet_moment_tops_up_every_carried_clip_best_weapon_first() {
    let mut carried = Carried::new();
    carried.give_weapon(WeaponId::Mp5);
    carried.give_ammo_for(WeaponId::Mp5, 50);
    carried.give_weapon(WeaponId::Python);
    carried.give_ammo_for(WeaponId::Python, 12);
    assert_eq!(weapon_wanting_reload(&carried.inventory()), Some(WeaponId::Python));
    carried.set_clip(WeaponId::Python, 6);
    assert_eq!(
        weapon_wanting_reload(&carried.inventory()),
        Some(WeaponId::Mp5),
        "the next one down still wants loading"
    );
    carried.set_clip(WeaponId::Mp5, 50);
    assert_eq!(weapon_wanting_reload(&carried.inventory()), None);
}

#[test]
fn a_reload_is_pressed_only_for_an_empty_clip_with_a_reserve() {
    let mut carried = Carried::new();
    carried.give_weapon(WeaponId::Glock);
    assert!(!needs_reload(&carried.inventory(), WeaponId::Glock));
    carried.give_ammo_for(WeaponId::Glock, 17);
    assert!(needs_reload(&carried.inventory(), WeaponId::Glock));
    carried.set_clip(WeaponId::Glock, 5);
    assert!(!needs_reload(&carried.inventory(), WeaponId::Glock));
    carried.give_weapon(WeaponId::Crowbar);
    assert!(!needs_reload(&carried.inventory(), WeaponId::Crowbar));
}

#[test]
fn a_dead_player_presses_nothing() {
    let mut carried = Carried::new();
    carried.give_weapon(WeaponId::Glock);
    carried.give_ammo_for(WeaponId::Glock, 17);
    let target = GuardTarget { within_melee: false, within_engage: true, aimed: true };
    let (buttons, decision) = guard_step(false, &carried.inventory(), Some(target));
    assert_eq!(buttons.select_slot, None);
    assert!(!buttons.attack && !buttons.reload && !buttons.aim && !buttons.retreat);
    assert!(!decision.has_target);
    assert_eq!(decision.weapon, None);
}

#[test]
fn the_guard_draws_then_fires_once_aimed_and_in_reach() {
    let mut carried = Carried::new();
    carried.give_weapon(WeaponId::Glock);
    carried.give_ammo_for(WeaponId::Glock, 17);
    carried.set_clip(WeaponId::Glock, 17);
    let target = GuardTarget { within_melee: false, within_engage: true, aimed: true };
    let (buttons, decision) = guard_step(true, &carried.inventory(), Some(target));
    assert_eq!(buttons.select_slot, Some(2), "the pistol is drawn first");
    assert!(!buttons.attack, "nothing fires before the weapon is in hand");
    assert!(buttons.aim);
    assert_eq!(decision.weapon, Some(WeaponId::Glock));

    carried.selected = Some(WeaponId::Glock);
    let (buttons, decision) = guard_step(true, &carried.inventory(), Some(target));
    assert_eq!(buttons.select_slot, None);
    assert!(buttons.attack);
    assert!(decision.firing);

    let unaimed = GuardTarget { aimed: false, ..target };
    let (buttons, _) = guard_step(true, &carried.inventory(), Some(unaimed));
    assert!(!buttons.attack, "a shot waits for the view to line up");
}

#[test]
fn a_player_with_only_a_crowbar_backs_away_from_a_distant_threat() {
    let mut carried = Carried::new();
    carried.give_weapon(WeaponId::Crowbar);
    carried.selected = Some(WeaponId::Crowbar);
    let far = GuardTarget { within_melee: false, within_engage: true, aimed: true };
    let (buttons, decision) = guard_step(true, &carried.inventory(), Some(far));
    assert!(buttons.retreat && decision.retreating);
    assert!(!buttons.attack && !buttons.aim);

    let close = GuardTarget { within_melee: true, within_engage: true, aimed: true };
    let (buttons, decision) = guard_step(true, &carried.inventory(), Some(close));
    assert!(!buttons.retreat);
    assert!(buttons.attack && decision.firing);
}

#[test]
fn nothing_in_sight_reloads_the_weapon_in_hand_that_wants_it() {
    let mut carried = Carried::new();
    carried.give_weapon(WeaponId::Python);
    carried.give_ammo_for(WeaponId::Python, 12);
    carried.selected = Some(WeaponId::Python);
    let (buttons, decision) = guard_step(true, &carried.inventory(), None);
    assert!(buttons.reload && decision.reloading);
    assert!(!buttons.attack);
    assert_eq!(decision.weapon, Some(WeaponId::Python));
}

#[test]
fn a_saved_selection_reads_back_as_the_same_weapon() {
    for id in ALL {
        assert_eq!(weapon_at_index(id.index() as u8), Some(id));
    }
    assert_eq!(weapon_at_index(14), None);
    assert_eq!(weapon_at_index(255), None);
}
