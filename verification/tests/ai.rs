use ohl_engine::ai::{
    attack_damage_type, attack_shape, declared_trigger, trigger_condition_of, AttackKind,
    AttackShape, MonsterKind, NoProjectiles, TriggerCondition, TRIGGER_CONDITION_KEY,
    TRIGGER_TARGET_KEY,
};
use ohl_engine::damage_map::{DMG_BULLET, DMG_SLASH};
use ohl_engine::projectiles::{default_deployable_model_path, default_projectile_model_path, DeployableKind};
use ohl_engine::save_state::ProjectileKind;
use ohl_engine::DamageType;

const ALL_KINDS: [MonsterKind; 3] = [MonsterKind::AlienGrunt, MonsterKind::HumanGrunt, MonsterKind::Other];

#[test]
fn melee_attacks_are_always_traces() {
    for kind in ALL_KINDS {
        assert_eq!(
            attack_shape(&kind, AttackKind::Melee1),
            AttackShape::Melee,
            "every melee attack resolves as a trace"
        );
    }
}

#[test]
fn only_the_two_project_chosen_kinds_fire_projectiles() {
    let projectiles = ALL_KINDS
        .iter()
        .filter(|kind| matches!(attack_shape(kind, AttackKind::Range1), AttackShape::Projectile(_)))
        .count();
    assert_eq!(projectiles, 1, "only the alien grunt's primary is a hornet");
    assert!(matches!(
        attack_shape(&MonsterKind::HumanGrunt, AttackKind::Range2),
        AttackShape::Projectile(_)
    ));
    assert_eq!(attack_shape(&MonsterKind::HumanGrunt, AttackKind::Range1), AttackShape::Hitscan);
}

#[test]
fn an_unknown_classname_still_maps_to_a_shape() {
    let unknown = MonsterKind::Other;
    assert_eq!(attack_shape(&unknown, AttackKind::Range1), AttackShape::Hitscan);
    assert_eq!(attack_shape(&unknown, AttackKind::Melee2), AttackShape::Melee);
}

#[test]
fn the_projectile_arms_name_the_hornet_and_the_hand_grenade() {
    assert_eq!(
        attack_shape(&MonsterKind::AlienGrunt, AttackKind::Range2),
        AttackShape::Projectile(ProjectileKind::Hornet)
    );
    assert_eq!(
        attack_shape(&MonsterKind::HumanGrunt, AttackKind::Range2),
        AttackShape::Projectile(ProjectileKind::HandGrenade)
    );
}

#[test]
fn melee_slashes_and_everything_else_is_a_bullet() {
    assert_eq!(attack_damage_type(AttackShape::Melee), DamageType(DMG_SLASH));
    assert_eq!(attack_damage_type(AttackShape::Hitscan), DamageType(DMG_BULLET));
    assert_eq!(
        attack_damage_type(AttackShape::Projectile(ProjectileKind::Hornet)),
        DamageType(DMG_BULLET)
    );
}

#[test]
fn trigger_conditions_outside_the_documented_set_are_rejected() {
    assert_eq!(trigger_condition_of(4), Some(TriggerCondition::Death));
    assert_eq!(trigger_condition_of(11), None);
    assert_eq!(trigger_condition_of(255), None);
}

#[test]
fn every_documented_trigger_condition_value_names_a_distinct_condition() {
    let mut seen = Vec::new();
    for raw in 0u8..=10 {
        let condition = trigger_condition_of(raw).expect("documented value");
        assert!(!seen.contains(&condition));
        seen.push(condition);
    }
    assert_eq!(trigger_condition_of(0), Some(TriggerCondition::NoCondition));
    assert_eq!(trigger_condition_of(10), Some(TriggerCondition::SeePlayerUnconditional));
}

#[test]
fn the_default_spawner_is_a_unit_value() {
    assert_eq!(NoProjectiles::default(), NoProjectiles);
}

#[test]
fn a_declared_trigger_needs_a_documented_condition_and_a_target() {
    assert_eq!(
        declared_trigger(Some(" 4 "), Some("  door_1 ")),
        Some((TriggerCondition::Death, "door_1".to_string()))
    );
    assert_eq!(declared_trigger(Some("11"), Some("door_1")), None, "outside the documented set");
    assert_eq!(declared_trigger(Some("300"), Some("door_1")), None, "not a u8");
    assert_eq!(declared_trigger(Some("two"), Some("door_1")), None);
    assert_eq!(declared_trigger(Some("2"), Some("   ")), None, "a blank target declares nothing");
    assert_eq!(declared_trigger(None, Some("door_1")), None);
    assert_eq!(declared_trigger(Some("2"), None), None);
    assert_eq!(TRIGGER_CONDITION_KEY, "TriggerCondition");
    assert_eq!(TRIGGER_TARGET_KEY, "TriggerTarget");
}

#[test]
fn only_the_deployables_have_default_models() {
    assert_eq!(default_deployable_model_path(DeployableKind::Tripmine), "models/v_tripmine.mdl");
    assert_eq!(default_deployable_model_path(DeployableKind::Satchel), "models/w_satchel.mdl");
    for kind in [ProjectileKind::Rocket, ProjectileKind::Hornet, ProjectileKind::Snark] {
        assert_eq!(default_projectile_model_path(kind), None);
    }
}
