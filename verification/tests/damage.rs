use ohl_engine::damage_map::{
    DMG_ACID, DMG_BLAST, DMG_BULLET, DMG_BURN, DMG_CLUB, DMG_CRUSH, DMG_DROWN, DMG_ENERGYBEAM,
    DMG_FALL, DMG_FREEZE, DMG_GENERIC, DMG_NERVEGAS, DMG_NONE, DMG_PARALYZE, DMG_POISON,
    DMG_RADIATION, DMG_SHOCK, DMG_SLASH, DMG_SLOWBURN, DMG_SLOWFREEZE, DMG_SONIC,
};
use ohl_engine::{damage_kind_of, damage_type_of, DamageKind, DamageType};

const NAMED: [u32; 20] = [
    DMG_GENERIC,
    DMG_CRUSH,
    DMG_BULLET,
    DMG_SLASH,
    DMG_BURN,
    DMG_FREEZE,
    DMG_FALL,
    DMG_BLAST,
    DMG_CLUB,
    DMG_SHOCK,
    DMG_SONIC,
    DMG_ENERGYBEAM,
    DMG_DROWN,
    DMG_PARALYZE,
    DMG_NERVEGAS,
    DMG_POISON,
    DMG_RADIATION,
    DMG_ACID,
    DMG_SLOWBURN,
    DMG_SLOWFREEZE,
];

#[test]
fn every_single_bit_mask_classifies_without_panicking() {
    for bit in NAMED {
        let _ = damage_kind_of(DamageType(bit));
    }
}

#[test]
fn burn_and_freeze_together_resolve_to_burn_by_the_fixed_order() {
    let combined = DamageType(DMG_BURN).union(DamageType(DMG_FREEZE));
    assert_eq!(damage_kind_of(combined), DamageKind::Burn);
    let reordered = DamageType(DMG_FREEZE).union(DamageType(DMG_BURN));
    assert_eq!(damage_kind_of(reordered), damage_kind_of(combined));
}

#[test]
fn every_named_mask_is_order_independent_against_every_other_bit() {
    for a in NAMED {
        for b in NAMED {
            let forward = DamageType(a).union(DamageType(b));
            let backward = DamageType(b).union(DamageType(a));
            assert_eq!(damage_kind_of(forward), damage_kind_of(backward), "a={a:#x} b={b:#x}");
        }
    }
}

#[test]
fn unmapped_bits_and_the_empty_mask_are_generic() {
    assert_eq!(damage_kind_of(DamageType(DMG_NONE)), DamageKind::Generic);
    assert_eq!(damage_kind_of(DamageType(DMG_BULLET)), DamageKind::Generic);
    assert_eq!(damage_kind_of(DamageType(DMG_SLASH)), DamageKind::Generic);
    assert_eq!(damage_kind_of(DamageType(DMG_CLUB)), DamageKind::Generic);
    assert_eq!(damage_kind_of(DamageType(DMG_SONIC)), DamageKind::Generic);
    assert_eq!(damage_kind_of(DamageType(DMG_ENERGYBEAM)), DamageKind::Generic);
    assert_eq!(damage_kind_of(DamageType(DMG_PARALYZE)), DamageKind::Generic);
    assert_eq!(damage_kind_of(DamageType(DMG_SLOWBURN)), DamageKind::Generic);
    assert_eq!(damage_kind_of(DamageType(DMG_SLOWFREEZE)), DamageKind::Generic);
}

#[test]
fn damage_type_of_then_damage_kind_of_is_the_identity() {
    let all = [
        DamageKind::Generic,
        DamageKind::Fall,
        DamageKind::Drown,
        DamageKind::Burn,
        DamageKind::Freeze,
        DamageKind::Shock,
        DamageKind::Acid,
        DamageKind::Radiation,
        DamageKind::Chemical,
        DamageKind::Crush,
        DamageKind::Blast,
    ];
    for kind in all {
        assert_eq!(damage_kind_of(damage_type_of(kind)), kind, "{kind:?}");
    }
}

#[test]
fn each_kind_maps_to_its_own_published_bit() {
    assert_eq!(damage_type_of(DamageKind::Fall), DamageType(0x20));
    assert_eq!(damage_type_of(DamageKind::Chemical), DamageType(0x20000));
    assert_eq!(damage_type_of(DamageKind::Generic), DamageType(0));
    assert_eq!(damage_kind_of(DamageType(DMG_NERVEGAS)), DamageKind::Chemical);
}

#[test]
fn the_fall_bit_outranks_every_other_classified_bit() {
    let everything = DamageType(0xFFFF_FFFF);
    assert_eq!(damage_kind_of(everything), DamageKind::Fall);
    assert_eq!(
        damage_kind_of(DamageType(DMG_DROWN | DMG_BLAST | DMG_CRUSH)),
        DamageKind::Drown
    );
}

#[test]
fn a_mask_contains_exactly_its_own_bits() {
    let mask = DamageType(DMG_BURN | DMG_SHOCK);
    assert!(mask.contains(DamageType(DMG_BURN)));
    assert!(mask.contains(DamageType(DMG_BURN | DMG_SHOCK)));
    assert!(!mask.contains(DamageType(DMG_FREEZE)));
    assert!(mask.contains(DamageType(DMG_NONE)));
}
