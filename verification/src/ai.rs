//! The monster-side rules the engine adds on top of the AI: what shape a
//! monster attack takes, what damage it deals, and which map-declared
//! trigger conditions are recognised.

use crate::damage_map::{DamageType, DMG_BULLET, DMG_SLASH};
use crate::level::{parse_unsigned, parsed_unsigned, trim, trimmed};
use crate::save_state::ProjectileKind;
use vstd::prelude::*;
use vstd::string::*;

verus! {

/// The `monstermaker` spawnflag that starts it enabled.
pub const SPAWNFLAG_MONSTERMAKER_START_ON: u32 = 1;

/// The `monstermaker` spawnflag that makes it spawn on a cycle.
pub const SPAWNFLAG_MONSTERMAKER_CYCLIC: u32 = 4;

/// The most children every `monstermaker` of one level creates between
/// them.
pub const MAX_MAKER_CHILDREN_PER_LEVEL: u32 = 256;

/// The classname of a monster spawner.
pub const MONSTERMAKER_CLASSNAME: &'static str = "monstermaker";

/// The keyvalue a monster declares its trigger condition under.
pub const TRIGGER_CONDITION_KEY: &'static str = "TriggerCondition";

/// The keyvalue a monster declares its trigger target under.
pub const TRIGGER_TARGET_KEY: &'static str = "TriggerTarget";

/// Which of a monster's attacks fired.
#[derive(Debug, Clone, Copy, PartialEq, Eq, Structural)]
pub enum AttackKind {
    /// The first melee attack.
    Melee1,
    /// The second melee attack.
    Melee2,
    /// The first ranged attack.
    Range1,
    /// The second ranged attack.
    Range2,
}

/// The monster kinds whose attacks resolve differently from the rest: the
/// alien grunt, the human grunt, and every other kind (including a
/// classname with no known kind).
#[derive(Debug, Clone, Copy, PartialEq, Eq, Structural)]
pub enum MonsterKind {
    /// `monster_alien_grunt`.
    AlienGrunt,
    /// `monster_human_grunt`.
    HumanGrunt,
    /// Any other kind.
    Other,
}

/// What one monster attack resolves to.
#[derive(Debug, Clone, Copy, PartialEq, Eq, Structural)]
pub enum AttackShape {
    /// A short trace from the attacker's eye along its facing.
    Melee,
    /// A trace at the species' range.
    Hitscan,
    /// A projectile of the given kind.
    Projectile(ProjectileKind),
}

/// How `kind`'s `attack` resolves: melee attacks are melee; ranged attacks
/// are hitscan except the alien grunt's (a hornet) and the human grunt's
/// second ranged attack (a thrown hand grenade).
pub fn attack_shape(kind: &MonsterKind, attack: AttackKind) -> (shape: AttackShape)
    ensures
        shape == match attack {
            AttackKind::Melee1 | AttackKind::Melee2 => AttackShape::Melee,
            AttackKind::Range1 | AttackKind::Range2 => match *kind {
                MonsterKind::AlienGrunt => AttackShape::Projectile(ProjectileKind::Hornet),
                MonsterKind::HumanGrunt => if attack == AttackKind::Range2 {
                    AttackShape::Projectile(ProjectileKind::HandGrenade)
                } else {
                    AttackShape::Hitscan
                },
                MonsterKind::Other => AttackShape::Hitscan,
            },
        },
{
    match attack {
        AttackKind::Melee1 | AttackKind::Melee2 => AttackShape::Melee,
        AttackKind::Range1 | AttackKind::Range2 => match kind {
            MonsterKind::AlienGrunt => AttackShape::Projectile(ProjectileKind::Hornet),
            MonsterKind::HumanGrunt => {
                if attack == AttackKind::Range2 {
                    AttackShape::Projectile(ProjectileKind::HandGrenade)
                } else {
                    AttackShape::Hitscan
                }
            },
            MonsterKind::Other => AttackShape::Hitscan,
        },
    }
}

/// The damage type a monster attack deals: melee slashes, everything else
/// is a bullet.
pub fn attack_damage_type(shape: AttackShape) -> (damage: DamageType)
    ensures
        damage == DamageType(
            if shape == AttackShape::Melee {
                DMG_SLASH
            } else {
                DMG_BULLET
            },
        ),
{
    match shape {
        AttackShape::Melee => DamageType(DMG_SLASH),
        AttackShape::Hitscan | AttackShape::Projectile(_) => DamageType(DMG_BULLET),
    }
}

/// The condition under which a monster fires its `TriggerTarget`.
#[derive(Debug, Clone, Copy, PartialEq, Eq, Structural)]
pub enum TriggerCondition {
    /// Never fires (the published `0`).
    NoCondition,
    SeePlayerMadAtPlayer,
    TakeDamage,
    HalfHealthRemaining,
    Death,
    Unconfirmed5,
    Unconfirmed6,
    HearWorld,
    HearPlayer,
    HearCombat,
    SeePlayerUnconditional,
}

/// The condition the published `TriggerCondition` value `raw` names.
pub open spec fn condition_named(raw: u8) -> Option<TriggerCondition> {
    if raw == 0 {
        Some(TriggerCondition::NoCondition)
    } else if raw == 1 {
        Some(TriggerCondition::SeePlayerMadAtPlayer)
    } else if raw == 2 {
        Some(TriggerCondition::TakeDamage)
    } else if raw == 3 {
        Some(TriggerCondition::HalfHealthRemaining)
    } else if raw == 4 {
        Some(TriggerCondition::Death)
    } else if raw == 5 {
        Some(TriggerCondition::Unconfirmed5)
    } else if raw == 6 {
        Some(TriggerCondition::Unconfirmed6)
    } else if raw == 7 {
        Some(TriggerCondition::HearWorld)
    } else if raw == 8 {
        Some(TriggerCondition::HearPlayer)
    } else if raw == 9 {
        Some(TriggerCondition::HearCombat)
    } else if raw == 10 {
        Some(TriggerCondition::SeePlayerUnconditional)
    } else {
        None
    }
}

/// The published `TriggerCondition` value `raw` names, or `None` when the
/// map declared a number outside the documented set (`0..=10`).
pub fn trigger_condition_of(raw: u8) -> (condition: Option<TriggerCondition>)
    ensures
        condition == condition_named(raw),
        condition is Some <==> raw <= 10,
{
    match raw {
        0 => Some(TriggerCondition::NoCondition),
        1 => Some(TriggerCondition::SeePlayerMadAtPlayer),
        2 => Some(TriggerCondition::TakeDamage),
        3 => Some(TriggerCondition::HalfHealthRemaining),
        4 => Some(TriggerCondition::Death),
        5 => Some(TriggerCondition::Unconfirmed5),
        6 => Some(TriggerCondition::Unconfirmed6),
        7 => Some(TriggerCondition::HearWorld),
        8 => Some(TriggerCondition::HearPlayer),
        9 => Some(TriggerCondition::HearCombat),
        10 => Some(TriggerCondition::SeePlayerUnconditional),
        _ => None,
    }
}

/// The trigger a monster declares through its `TriggerCondition` and
/// `TriggerTarget` keyvalues, as text: the condition's value, trimmed of
/// white space, must spell a documented condition number, and the target,
/// trimmed, must not be empty.
pub open spec fn declared_trigger_of(
    condition: Option<Seq<char>>,
    target: Option<Seq<char>>,
) -> Option<(TriggerCondition, Seq<char>)> {
    match (condition, target) {
        (Some(c), Some(t)) => match parsed_unsigned(trimmed(c), 255) {
            Some(raw) => match condition_named(raw as u8) {
                Some(named) => if trimmed(t).len() > 0 {
                    Some((named, trimmed(t)))
                } else {
                    None
                },
                None => None,
            },
            None => None,
        },
        _ => None,
    }
}

/// The trigger a monster declares, read from its `TriggerCondition` and
/// `TriggerTarget` keyvalues (when present): a condition number outside
/// the documented set, one that does not parse, or a blank target declare
/// nothing.
pub fn declared_trigger(
    condition: Option<&str>,
    target: Option<&str>,
) -> (trigger: Option<(TriggerCondition, String)>)
    ensures
        match trigger {
            Some((named, text)) => declared_trigger_of(
                match condition {
                    Some(c) => Some(c@),
                    None => None,
                },
                match target {
                    Some(t) => Some(t@),
                    None => None,
                },
            ) == Some((named, text@)),
            None => declared_trigger_of(
                match condition {
                    Some(c) => Some(c@),
                    None => None,
                },
                match target {
                    Some(t) => Some(t@),
                    None => None,
                },
            ) is None,
        },
{
    let (c, t) = match (condition, target) {
        (Some(c), Some(t)) => (c, t),
        _ => {
            return None;
        },
    };
    let raw = match parse_unsigned(trim(c), 255) {
        Some(raw) => raw as u8,
        None => {
            return None;
        },
    };
    let named = match trigger_condition_of(raw) {
        Some(named) => named,
        None => {
            return None;
        },
    };
    let target_text = trim(t);
    if target_text.unicode_len() == 0 {
        return None;
    }
    Some((named, target_text.to_owned()))
}

/// Distinct values name distinct conditions.
pub proof fn lemma_trigger_conditions_distinct(a: u8, b: u8)
    requires
        condition_named(a) is Some,
        a != b,
    ensures
        condition_named(a) != condition_named(b),
{
}

/// The projectile spawner that drops every request: with it, a ranged
/// monster whose attack is a projectile is harmless rather than broken.
#[derive(Debug, Clone, Copy, Default, PartialEq, Eq, Structural)]
pub struct NoProjectiles;

/// Each published `TriggerCondition` number names its documented
/// condition, and only that number names it: 0 never fires, 1 fires on
/// seeing the player while angry at them, 2 on the first hit taken, 3 at
/// half health, 4 on death, 5 and 6 are the unconfirmed pair, 7 on hearing
/// the world, 8 on hearing the player, 9 on hearing combat, and 10 on
/// seeing the player at all; no other number names a condition.
pub proof fn lemma_trigger_condition_numbers(raw: u8)
    ensures
        (condition_named(raw) == Some(TriggerCondition::NoCondition)) == (raw == 0),
        (condition_named(raw) == Some(TriggerCondition::SeePlayerMadAtPlayer)) == (raw == 1),
        (condition_named(raw) == Some(TriggerCondition::TakeDamage)) == (raw == 2),
        (condition_named(raw) == Some(TriggerCondition::HalfHealthRemaining)) == (raw == 3),
        (condition_named(raw) == Some(TriggerCondition::Death)) == (raw == 4),
        (condition_named(raw) == Some(TriggerCondition::Unconfirmed5)) == (raw == 5),
        (condition_named(raw) == Some(TriggerCondition::Unconfirmed6)) == (raw == 6),
        (condition_named(raw) == Some(TriggerCondition::HearWorld)) == (raw == 7),
        (condition_named(raw) == Some(TriggerCondition::HearPlayer)) == (raw == 8),
        (condition_named(raw) == Some(TriggerCondition::HearCombat)) == (raw == 9),
        (condition_named(raw) == Some(TriggerCondition::SeePlayerUnconditional)) == (raw == 10),
        condition_named(raw) is None <==> raw > 10,
{
}

} // verus!
