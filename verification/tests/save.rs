use ohl_engine::combat::{capture_carry, restore_carry, AmmoBank};
use ohl_engine::save::{
    read_section, save_difficulty, section_role, section_write_order, skill_value, Difficulty,
    OptionalSections, RotatingMoverStateSnapshot, SectionLookup, SectionRole, TeleportStateSnapshot, SECTION_AI,
    SECTION_ENGINE_HEADER, SECTION_TELEPORT_STATE, SECTION_TRAIN_HANDOVER_YAW, SECTION_VIEW,
};
use ohl_engine::save_state::{
    entity_at_spawn_index, projectile_kind_from_tag, projectile_kind_tag, restorable_deployables, restorable_projectiles,
    spawn_index_of, ProjectileKind, RngSnapshot, SquadSnapshot, WeaponSnapshot,
    MAX_SNAPSHOT_PROJECTILES,
};
use ohl_engine::EngineError;

const ALL_KINDS: [ProjectileKind; 6] = [
    ProjectileKind::CrossbowBolt,
    ProjectileKind::Rocket,
    ProjectileKind::Mp5Grenade,
    ProjectileKind::HandGrenade,
    ProjectileKind::Hornet,
    ProjectileKind::Snark,
];

#[test]
fn every_projectile_kind_round_trips_through_its_tag() {
    for kind in ALL_KINDS {
        assert_eq!(projectile_kind_from_tag(projectile_kind_tag(kind)), Some(kind));
    }
}

#[test]
fn an_unrecognised_tag_is_rejected() {
    assert_eq!(projectile_kind_from_tag(255), None);
    assert_eq!(projectile_kind_from_tag(6), None);
}

#[test]
fn projectile_tags_are_fixed() {
    assert_eq!(projectile_kind_tag(ProjectileKind::CrossbowBolt), 0);
    assert_eq!(projectile_kind_tag(ProjectileKind::Snark), 5);
}

#[test]
fn a_restore_looks_at_no_more_than_the_projectile_cap_and_drops_unknown_tags() {
    let kept = restorable_projectiles(&[4, 9, 0]);
    assert_eq!(kept, vec![(0, ProjectileKind::Hornet), (2, ProjectileKind::CrossbowBolt)]);
    let flood = vec![1u8; MAX_SNAPSHOT_PROJECTILES + 40];
    let kept = restorable_projectiles(&flood);
    assert_eq!(kept.len(), MAX_SNAPSHOT_PROJECTILES);
    assert_eq!(kept.last(), Some(&(MAX_SNAPSHOT_PROJECTILES - 1, ProjectileKind::Rocket)));
}

#[test]
fn a_spawn_index_names_the_entity_it_was_taken_from() {
    let entities = [11u64, 22, 33, 22];
    assert_eq!(spawn_index_of(&entities, 22), Some(1));
    assert_eq!(spawn_index_of(&entities, 44), None);
    assert_eq!(entity_at_spawn_index(&entities, 1), Some(22));
    assert_eq!(entity_at_spawn_index(&entities, 4), None);
}

#[test]
fn a_bank_never_exceeds_the_published_cap_and_tracks_each_type_separately() {
    // Slot 0 is 9mm (cap 250), slot 1 buckshot (cap 125).
    let mut bank = AmmoBank::new(vec![250, 125]);
    assert_eq!(bank.add(0, 1_000), 250);
    assert_eq!(bank.current(0), 250);
    assert_eq!(bank.current(1), 0);
    bank.set(1, 40);
    assert_eq!(bank.current(1), 40);
    assert_eq!(bank.current(0), 250);
    bank.set(1, 999);
    assert_eq!(bank.current(1), 125, "a set is clamped to the cap too");
    assert_eq!(bank.slots(), 2);
}

#[test]
fn a_carried_inventory_survives_its_blob() {
    let weapons = [
        WeaponSnapshot { owned: true, clip: 17 },
        WeaponSnapshot { owned: false, clip: 0 },
        WeaponSnapshot { owned: true, clip: 0x0102_0304 },
    ];
    let ammo = [68, 0, 250];
    let bytes = capture_carry(&weapons, &ammo, true, false);
    assert_eq!(bytes.len(), 3 * 5 + 3 * 4 + 2);
    assert_eq!(&bytes[10..15], &[1, 4, 3, 2, 1]);
    let blob = restore_carry(&bytes, 3, 3);
    assert_eq!(blob.weapons, weapons.to_vec());
    assert_eq!(blob.ammo, ammo.to_vec());
    assert_eq!(blob.has_suit, Some(true));
    assert_eq!(blob.has_long_jump, Some(false));
}

#[test]
fn a_short_blob_yields_only_its_complete_records() {
    let bytes = capture_carry(&[WeaponSnapshot { owned: true, clip: 6 }], &[12, 5], false, true);
    let blob = restore_carry(&bytes[..9], 1, 2);
    assert_eq!(blob.weapons, vec![WeaponSnapshot { owned: true, clip: 6 }]);
    assert_eq!(blob.ammo, vec![12]);
    assert_eq!(blob.has_suit, None);
    assert_eq!(blob.has_long_jump, None);
    let empty = restore_carry(&[], 2, 2);
    assert!(empty.weapons.is_empty() && empty.ammo.is_empty());
}

#[test]
fn sections_sixteen_to_twenty_two_are_required_and_the_rest_optional() {
    assert_eq!(section_role(SECTION_ENGINE_HEADER), Some(SectionRole::Required));
    assert_eq!(section_role(SECTION_VIEW), Some(SectionRole::Required));
    assert_eq!(section_role(SECTION_AI), Some(SectionRole::Optional));
    assert_eq!(section_role(SECTION_TRAIN_HANDOVER_YAW), Some(SectionRole::Optional));
    assert_eq!(section_role(32), None, "tag 32 is reserved");
    assert_eq!(section_role(15), None);
    assert_eq!(section_role(36), None);
}

#[test]
fn a_missing_optional_section_loads_as_absent_and_a_broken_one_fails_closed() {
    assert_eq!(read_section(SECTION_TELEPORT_STATE, SectionLookup::Missing), Ok(false));
    assert_eq!(
        read_section(SECTION_ENGINE_HEADER, SectionLookup::Missing),
        Err(EngineError::SaveUnreadable)
    );
    assert_eq!(read_section(SECTION_AI, SectionLookup::Present { exact: true }), Ok(true));
    assert_eq!(
        read_section(SECTION_AI, SectionLookup::Present { exact: false }),
        Err(EngineError::SaveUnreadable),
        "trailing or missing bytes fail the whole read"
    );
    assert_eq!(read_section(SECTION_AI, SectionLookup::Unreadable), Err(EngineError::SaveUnreadable));
}

#[test]
fn sections_are_written_required_first_then_present_optionals_in_tag_order() {
    let none = OptionalSections {
        inventory: false,
        entity_combat: false,
        ai: false,
        projectiles: false,
        rng: false,
        mover_state: false,
        maker_children: false,
        rotating_movers: false,
        momentary_doors: false,
        breakables: false,
        teleport_state: false,
        train_handover_yaw: false,
    };
    assert_eq!(section_write_order(&none), vec![16, 17, 18, 19, 20, 21, 22]);
    let some = OptionalSections { inventory: true, breakables: true, train_handover_yaw: true, ..none };
    assert_eq!(section_write_order(&some), vec![16, 17, 18, 19, 20, 21, 22, 23, 33, 35]);
}

#[test]
fn a_difficulty_reads_back_from_its_skill_value() {
    for difficulty in [Difficulty::Easy, Difficulty::Medium, Difficulty::Hard] {
        assert_eq!(save_difficulty(skill_value(difficulty)), difficulty);
    }
    assert_eq!(skill_value(Difficulty::Hard), 3);
    assert_eq!(save_difficulty(0), Difficulty::Medium);
    assert_eq!(save_difficulty(9), Difficulty::Medium);
}

#[test]
fn snapshot_records_start_empty() {
    let rotating: RotatingMoverStateSnapshot<u32> = RotatingMoverStateSnapshot::default();
    assert!(rotating.movers.is_empty() && rotating.rot_button_touch.is_empty());
    let teleport = TeleportStateSnapshot::default();
    assert!(teleport.teleport_touch.is_empty() && teleport.master_fires.is_empty());
    assert_eq!(WeaponSnapshot::default(), WeaponSnapshot { owned: false, clip: 0 });
    assert_eq!(RngSnapshot::default().substep_counter, 0);
    let squad = SquadSnapshot { name: "alpha".to_string(), leader: true };
    assert_eq!(squad.clone(), squad);
}

#[test]
fn every_engine_error_has_its_fixed_message() {
    assert_eq!(EngineError::MapNotFound.message(), "the requested map is not present in the payload");
    assert_eq!(EngineError::SaveUnreadable.message(), "the save file could not be read");
    assert_eq!(EngineError::SaveUnwritable.message(), "the save file could not be written");
    assert_eq!(EngineError::Renderer.message(), "the renderer could not be created");
    assert_eq!(EngineError::EntityLumpUnreadable.message(), "the map's entity lump could not be read");
    assert_eq!(
        EngineError::MapUnreadable.message(),
        "the map is not a BSP v30 map this build can read"
    );
    assert_eq!(
        EngineError::WorldUnbuildable.message(),
        "the map could not be turned into a renderable world"
    );
}

#[test]
fn at_most_five_deployables_of_a_kind_are_restored_with_their_owners() {
    let entities = [11, 22, 33];
    let owners = [Some(1), None, Some(7), Some(0), Some(2), Some(1), Some(0)];
    assert_eq!(
        restorable_deployables(&owners, &entities),
        vec![Some(22), None, None, Some(11), Some(33)]
    );
    assert_eq!(restorable_deployables(&[Some(2)], &entities), vec![Some(33)]);
    assert!(restorable_deployables(&[], &entities).is_empty());
}
