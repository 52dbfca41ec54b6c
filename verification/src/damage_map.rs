//! The mapping between the player-systems damage classification
//! ([`DamageKind`], a closed eleven-variant set used for fall damage,
//! drowning, `trigger_hurt` and the HEV suit reactions) and the composable
//! damage mask ([`DamageType`], the single damage vocabulary for everything
//! a weapon, projectile or explosion produces).
//!
//! Chemical damage is folded from both nerve gas and poison, and maps back
//! to the poison bit as its single representative.

use vstd::prelude::*;

verus! {

/// A composable damage mask: each named bit is one damage flavour, and a
/// mask may carry several at once.
#[derive(Debug, Clone, Copy, PartialEq, Eq, Structural)]
pub struct DamageType(pub u32);

/// The closed player-systems damage classification.
#[derive(Debug, Clone, Copy, PartialEq, Eq, Structural)]
pub enum DamageKind {
    Generic,
    Fall,
    Drown,
    Burn,
    Freeze,
    Shock,
    Acid,
    Radiation,
    Chemical,
    Crush,
    Blast,
}

/// The empty mask.
pub const DMG_NONE: u32 = 0;
/// Generic damage names no bit at all.
pub const DMG_GENERIC: u32 = 0;
pub const DMG_CRUSH: u32 = 0x1;
pub const DMG_BULLET: u32 = 0x2;
pub const DMG_SLASH: u32 = 0x4;
pub const DMG_BURN: u32 = 0x8;
pub const DMG_FREEZE: u32 = 0x10;
pub const DMG_FALL: u32 = 0x20;
pub const DMG_BLAST: u32 = 0x40;
pub const DMG_CLUB: u32 = 0x80;
pub const DMG_SHOCK: u32 = 0x100;
pub const DMG_SONIC: u32 = 0x200;
pub const DMG_ENERGYBEAM: u32 = 0x400;
pub const DMG_DROWN: u32 = 0x4000;
pub const DMG_PARALYZE: u32 = 0x8000;
pub const DMG_NERVEGAS: u32 = 0x10000;
pub const DMG_POISON: u32 = 0x20000;
pub const DMG_RADIATION: u32 = 0x40000;
pub const DMG_ACID: u32 = 0x100000;
pub const DMG_SLOWBURN: u32 = 0x200000;
pub const DMG_SLOWFREEZE: u32 = 0x400000;

/// Whether `mask` carries every bit of `bits`.
pub open spec fn has_bits(mask: u32, bits: u32) -> bool {
    mask & bits == bits
}

/// The classification a mask reduces to: the first bit of the fixed
/// precedence order fall, drown, blast, crush, burn, freeze, shock, acid,
/// radiation, nerve gas or poison that the mask carries, and generic when
/// it carries none of them.
pub open spec fn spec_kind_of(mask: u32) -> DamageKind {
    if has_bits(mask, DMG_FALL) {
        DamageKind::Fall
    } else if has_bits(mask, DMG_DROWN) {
        DamageKind::Drown
    } else if has_bits(mask, DMG_BLAST) {
        DamageKind::Blast
    } else if has_bits(mask, DMG_CRUSH) {
        DamageKind::Crush
    } else if has_bits(mask, DMG_BURN) {
        DamageKind::Burn
    } else if has_bits(mask, DMG_FREEZE) {
        DamageKind::Freeze
    } else if has_bits(mask, DMG_SHOCK) {
        DamageKind::Shock
    } else if has_bits(mask, DMG_ACID) {
        DamageKind::Acid
    } else if has_bits(mask, DMG_RADIATION) {
        DamageKind::Radiation
    } else if has_bits(mask, DMG_NERVEGAS) || has_bits(mask, DMG_POISON) {
        DamageKind::Chemical
    } else {
        DamageKind::Generic
    }
}

/// The single representative bit of each classification.
pub open spec fn spec_type_of(kind: DamageKind) -> u32 {
    match kind {
        DamageKind::Generic => DMG_GENERIC,
        DamageKind::Fall => DMG_FALL,
        DamageKind::Drown => DMG_DROWN,
        DamageKind::Burn => DMG_BURN,
        DamageKind::Freeze => DMG_FREEZE,
        DamageKind::Shock => DMG_SHOCK,
        DamageKind::Acid => DMG_ACID,
        DamageKind::Radiation => DMG_RADIATION,
        DamageKind::Chemical => DMG_POISON,
        DamageKind::Crush => DMG_CRUSH,
        DamageKind::Blast => DMG_BLAST,
    }
}

/// The bits a [`DamageKind`] can be read from: a mask carrying none of
/// these reduces to [`DamageKind::Generic`].
pub open spec fn classified_bits() -> u32 {
    DMG_FALL | DMG_DROWN | DMG_BLAST | DMG_CRUSH | DMG_BURN | DMG_FREEZE | DMG_SHOCK | DMG_ACID
        | DMG_RADIATION | DMG_NERVEGAS | DMG_POISON
}

impl DamageType {
    /// Whether this mask carries every bit of `other`.
    pub fn contains(self, other: DamageType) -> (r: bool)
        ensures
            r == has_bits(self.0, other.0),
    {
        self.0 & other.0 == other.0
    }

    /// The union of two masks.
    pub fn union(self, other: DamageType) -> (r: DamageType)
        ensures
            r.0 == self.0 | other.0,
    {
        DamageType(self.0 | other.0)
    }
}

/// The [`DamageType`] bit a player-systems [`DamageKind`] stands for.
pub fn damage_type_of(kind: DamageKind) -> (mask: DamageType)
    ensures
        mask.0 == spec_type_of(kind),
{
    match kind {
        DamageKind::Generic => DamageType(DMG_GENERIC),
        DamageKind::Fall => DamageType(DMG_FALL),
        DamageKind::Drown => DamageType(DMG_DROWN),
        DamageKind::Burn => DamageType(DMG_BURN),
        DamageKind::Freeze => DamageType(DMG_FREEZE),
        DamageKind::Shock => DamageType(DMG_SHOCK),
        DamageKind::Acid => DamageType(DMG_ACID),
        DamageKind::Radiation => DamageType(DMG_RADIATION),
        DamageKind::Chemical => DamageType(DMG_POISON),
        DamageKind::Crush => DamageType(DMG_CRUSH),
        DamageKind::Blast => DamageType(DMG_BLAST),
    }
}

/// The player-systems [`DamageKind`] a [`DamageType`] mask reduces to, by
/// testing the fixed order of [`spec_kind_of`] and taking the first match.
pub fn damage_kind_of(mask: DamageType) -> (kind: DamageKind)
    ensures
        kind == spec_kind_of(mask.0),
{
    if mask.contains(DamageType(DMG_FALL)) {
        DamageKind::Fall
    } else if mask.contains(DamageType(DMG_DROWN)) {
        DamageKind::Drown
    } else if mask.contains(DamageType(DMG_BLAST)) {
        DamageKind::Blast
    } else if mask.contains(DamageType(DMG_CRUSH)) {
        DamageKind::Crush
    } else if mask.contains(DamageType(DMG_BURN)) {
        DamageKind::Burn
    } else if mask.contains(DamageType(DMG_FREEZE)) {
        DamageKind::Freeze
    } else if mask.contains(DamageType(DMG_SHOCK)) {
        DamageKind::Shock
    } else if mask.contains(DamageType(DMG_ACID)) {
        DamageKind::Acid
    } else if mask.contains(DamageType(DMG_RADIATION)) {
        DamageKind::Radiation
    } else if mask.contains(DamageType(DMG_NERVEGAS)) || mask.contains(DamageType(DMG_POISON)) {
        DamageKind::Chemical
    } else {
        DamageKind::Generic
    }
}

/// Every classification survives the trip to its representative bit and
/// back: `damage_kind_of(damage_type_of(kind)) == kind`.
pub proof fn lemma_type_then_kind_is_identity(kind: DamageKind)
    ensures
        spec_kind_of(spec_type_of(kind)) == kind,
{
    assert(0u32 & 0x20u32 != 0x20u32) by (bit_vector);
    assert(0u32 & 0x4000u32 != 0x4000u32) by (bit_vector);
    assert(0u32 & 0x40u32 != 0x40u32) by (bit_vector);
    assert(0u32 & 0x1u32 != 0x1u32) by (bit_vector);
    assert(0u32 & 0x8u32 != 0x8u32) by (bit_vector);
    assert(0u32 & 0x10u32 != 0x10u32) by (bit_vector);
    assert(0u32 & 0x100u32 != 0x100u32) by (bit_vector);
    assert(0u32 & 0x100000u32 != 0x100000u32) by (bit_vector);
    assert(0u32 & 0x40000u32 != 0x40000u32) by (bit_vector);
    assert(0u32 & 0x10000u32 != 0x10000u32) by (bit_vector);
    assert(0u32 & 0x20000u32 != 0x20000u32) by (bit_vector);
    assert(forall|b: u32, c: u32| #![auto] (b == 0x20u32 || b == 0x4000u32 || b == 0x40u32
        || b == 0x1u32 || b == 0x8u32 || b == 0x10u32 || b == 0x100u32 || b == 0x100000u32
        || b == 0x40000u32 || b == 0x10000u32 || b == 0x20000u32) && (c == 0x20u32 || c
        == 0x4000u32 || c == 0x40u32 || c == 0x1u32 || c == 0x8u32 || c == 0x10u32 || c
        == 0x100u32 || c == 0x100000u32 || c == 0x40000u32 || c == 0x10000u32 || c
        == 0x20000u32) ==> ((b & c == c) <==> b == c)) by (bit_vector);
}

/// The classification never depends on the order a mask was built in:
/// `a | b` and `b | a` reduce to the same [`DamageKind`].
pub proof fn lemma_kind_of_is_order_independent(a: u32, b: u32)
    ensures
        spec_kind_of(a | b) == spec_kind_of(b | a),
{
    assert(a | b == b | a) by (bit_vector);
}

/// A mask carrying none of the classified bits (the empty mask, or only
/// bullet, slash, club, sonic, energy-beam, paralyse, slow-burn or
/// slow-freeze bits) reduces to [`DamageKind::Generic`].
pub proof fn lemma_unclassified_masks_are_generic(mask: u32)
    requires
        mask & classified_bits() == 0,
    ensures
        spec_kind_of(mask) == DamageKind::Generic,
{
    assert(mask & (0x20u32 | 0x4000u32 | 0x40u32 | 0x1u32 | 0x8u32 | 0x10u32 | 0x100u32
        | 0x100000u32 | 0x40000u32 | 0x10000u32 | 0x20000u32) == 0 ==> mask & 0x20u32 != 0x20u32
        && mask & 0x4000u32 != 0x4000u32 && mask & 0x40u32 != 0x40u32 && mask & 0x1u32 != 0x1u32
        && mask & 0x8u32 != 0x8u32 && mask & 0x10u32 != 0x10u32 && mask & 0x100u32 != 0x100u32
        && mask & 0x100000u32 != 0x100000u32 && mask & 0x40000u32 != 0x40000u32 && mask
        & 0x10000u32 != 0x10000u32 && mask & 0x20000u32 != 0x20000u32) by (bit_vector);
}

/// Burn outranks freeze: a mask carrying both reduces to
/// [`DamageKind::Burn`] whatever else (below burn in the order) it holds.
pub proof fn lemma_burn_outranks_freeze(mask: u32)
    requires
        mask & (DMG_FALL | DMG_DROWN | DMG_BLAST | DMG_CRUSH) == 0,
    ensures
        spec_kind_of(mask | DMG_BURN | DMG_FREEZE) == DamageKind::Burn,
{
    assert(mask & (0x20u32 | 0x4000u32 | 0x40u32 | 0x1u32) == 0 ==> {
        let m = mask | 0x8u32 | 0x10u32;
        &&& m & 0x20u32 != 0x20u32
        &&& m & 0x4000u32 != 0x4000u32
        &&& m & 0x40u32 != 0x40u32
        &&& m & 0x1u32 != 0x1u32
        &&& m & 0x8u32 == 0x8u32
    }) by (bit_vector);
}

} // verus!
