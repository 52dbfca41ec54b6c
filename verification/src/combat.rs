//! The engine's reserve-ammo ledger and the carried-inventory byte blob.
//!
//! The weapon inventory's own ammo pools only ever grow, so the engine
//! keeps its own [`AmmoBank`] as the single source of truth for how much
//! reserve ammo is actually left; every slot is capped at its ammo type's
//! carry capacity.
//!
//! [`capture_carry`] lays owned weapons (and their clips), reserve ammo,
//! the HEV suit and the long jump module into an opaque blob carried
//! across a level change or a save: per weapon one owned byte and the clip
//! as four little-endian bytes, then every ammo reserve as four
//! little-endian bytes, then a suit byte and a long-jump byte.
//! [`restore_carry`] reads it back, and a short or malformed blob simply
//! stops yielding fields where it runs out rather than failing.

use crate::save_state::WeaponSnapshot;
use vstd::prelude::*;

verus! {

/// The engine's own reserve-ammo ledger: one slot per ammo type, each
/// capped at that type's carry capacity.
#[derive(Debug, Clone)]
pub struct AmmoBank {
    current: Vec<u32>,
    capacity: Vec<u32>,
}

impl AmmoBank {
    /// The reserve held in each slot.
    pub closed spec fn amounts(&self) -> Seq<u32> {
        self.current@
    }

    /// Each slot's carry capacity.
    pub closed spec fn capacities(&self) -> Seq<u32> {
        self.capacity@
    }

    /// One slot per capacity, and no slot above its capacity.
    pub closed spec fn wf(&self) -> bool {
        &&& self.current@.len() == self.capacity@.len()
        &&& forall|i: int| 0 <= i < self.current@.len() ==> self.current@[i] <= self.capacity@[i]
    }

    /// An empty bank with one slot per entry of `capacity`, that slot's
    /// carry cap.
    pub fn new(capacity: Vec<u32>) -> (bank: Self)
        ensures
            bank.wf(),
            bank.capacities() == capacity@,
            bank.amounts() == Seq::new(capacity@.len(), |i: int| 0u32),
    {
        let mut current: Vec<u32> = Vec::new();
        let mut i: usize = 0;
        while i < capacity.len()
            invariant
                i <= capacity@.len(),
                current@ == Seq::new(i as nat, |k: int| 0u32),
            decreases capacity@.len() - i,
        {
            current.push(0);
            i = i + 1;
        }
        AmmoBank { current, capacity }
    }

    /// How many slots the bank tracks.
    pub fn slots(&self) -> (n: usize)
        ensures
            n == self.amounts().len(),
    {
        self.current.len()
    }

    /// The reserve left in `slot`.
    pub fn current(&self, slot: usize) -> (amount: u32)
        requires
            slot < self.amounts().len(),
        ensures
            amount == self.amounts()[slot as int],
    {
        self.current[slot]
    }

    /// Adds `amount` to `slot`, clamped to its carry cap, and returns how
    /// much was actually added.
    pub fn add(&mut self, slot: usize, amount: u32) -> (added: u32)
        requires
            old(self).wf(),
            slot < old(self).amounts().len(),
        ensures
            final(self).wf(),
            final(self).capacities() == old(self).capacities(),
            added == if amount <= old(self).capacities()[slot as int] - old(self).amounts()[slot as int] {
                amount as int
            } else {
                old(self).capacities()[slot as int] - old(self).amounts()[slot as int]
            },
            final(self).amounts() == old(self).amounts().update(
                slot as int,
                (old(self).amounts()[slot as int] + added) as u32,
            ),
    {
        let cap = self.capacity[slot];
        let have = self.current[slot];
        let room = cap - have;
        let added = if amount <= room { amount } else { room };
        self.current.set(slot, have + added);
        added
    }

    /// Sets `slot` to `value`, clamped to its carry cap.
    pub fn set(&mut self, slot: usize, value: u32)
        requires
            old(self).wf(),
            slot < old(self).amounts().len(),
        ensures
            final(self).wf(),
            final(self).capacities() == old(self).capacities(),
            final(self).amounts() == old(self).amounts().update(
                slot as int,
                if value <= old(self).capacities()[slot as int] {
                    value
                } else {
                    old(self).capacities()[slot as int]
                },
            ),
    {
        let cap = self.capacity[slot];
        let clamped = if value <= cap { value } else { cap };
        self.current.set(slot, clamped);
    }
}

/// Byte `j` (`0..4`) of `x`'s little-endian encoding.
pub open spec fn le_byte(x: u32, j: int) -> u8 {
    if j == 0 {
        (x & 0xff) as u8
    } else if j == 1 {
        ((x >> 8) & 0xff) as u8
    } else if j == 2 {
        ((x >> 16) & 0xff) as u8
    } else {
        ((x >> 24) & 0xff) as u8
    }
}

/// The `u32` four little-endian bytes encode.
pub open spec fn le_value(b0: u8, b1: u8, b2: u8, b3: u8) -> u32 {
    (b0 as u32) | ((b1 as u32) << 8) | ((b2 as u32) << 16) | ((b3 as u32) << 24)
}

/// The byte a flag is stored as.
pub open spec fn flag_byte(flag: bool) -> u8 {
    if flag {
        1
    } else {
        0
    }
}

/// Byte `k` (`0..5`) of one weapon's entry: the owned byte, then the clip.
pub open spec fn weapon_entry_byte(weapon: WeaponSnapshot, k: int) -> u8 {
    if k == 0 {
        flag_byte(weapon.owned)
    } else {
        le_byte(weapon.clip, k - 1)
    }
}

/// Every weapon's five-byte entry, in order.
pub open spec fn weapons_bytes(weapons: Seq<WeaponSnapshot>) -> Seq<u8> {
    Seq::new(5 * weapons.len(), |k: int| weapon_entry_byte(weapons[k / 5], k % 5))
}

/// Every reserve's four little-endian bytes, in order.
pub open spec fn ammo_bytes(ammo: Seq<u32>) -> Seq<u8> {
    Seq::new(4 * ammo.len(), |k: int| le_byte(ammo[k / 4], k % 4))
}

/// The whole carried-inventory blob.
pub open spec fn carry_bytes(
    weapons: Seq<WeaponSnapshot>,
    ammo: Seq<u32>,
    has_suit: bool,
    has_long_jump: bool,
) -> Seq<u8> {
    weapons_bytes(weapons) + ammo_bytes(ammo) + seq![flag_byte(has_suit), flag_byte(has_long_jump)]
}

/// What a carried-inventory blob yields: only the entries it holds in full,
/// in order, stopping at the first one it runs out within.
#[derive(Debug, Clone, PartialEq, Eq)]
pub struct CarryBlob {
    /// One entry per complete weapon record, in weapon order.
    pub weapons: Vec<WeaponSnapshot>,
    /// One entry per complete ammo record, in ammo-type order; empty unless
    /// every weapon record was complete.
    pub ammo: Vec<u32>,
    /// The suit flag, when every weapon and ammo record precedes it.
    pub has_suit: Option<bool>,
    /// The long-jump flag, when the suit byte precedes it.
    pub has_long_jump: Option<bool>,
}

/// The weapon record `i` of `bytes` holds.
pub open spec fn decoded_weapon(bytes: Seq<u8>, i: int) -> WeaponSnapshot {
    WeaponSnapshot {
        owned: bytes[5 * i] != 0,
        clip: le_value(bytes[5 * i + 1], bytes[5 * i + 2], bytes[5 * i + 3], bytes[5 * i + 4]),
    }
}

/// The reserve record `j` of `bytes` holds, past `weapon_count` weapon
/// records.
pub open spec fn decoded_ammo(bytes: Seq<u8>, weapon_count: int, j: int) -> u32 {
    let at = 5 * weapon_count + 4 * j;
    le_value(bytes[at], bytes[at + 1], bytes[at + 2], bytes[at + 3])
}

/// How many complete records of `width` bytes, at most `wanted`, fit in
/// `available` bytes.
pub open spec fn complete_records(available: int, width: int, wanted: int) -> int {
    if available / width < wanted {
        available / width
    } else {
        wanted
    }
}

/// Exactly what [`restore_carry`] yields for `bytes`.
pub open spec fn carry_blob_of(
    bytes: Seq<u8>,
    weapon_count: int,
    ammo_count: int,
) -> (Seq<WeaponSnapshot>, Seq<u32>, Option<bool>, Option<bool>) {
    let len = bytes.len() as int;
    let weapons_end = 5 * weapon_count;
    let ammo_end = weapons_end + 4 * ammo_count;
    let weapons = Seq::new(
        complete_records(len, 5, weapon_count) as nat,
        |i: int| decoded_weapon(bytes, i),
    );
    let ammo = if len >= weapons_end {
        Seq::new(
            complete_records(len - weapons_end, 4, ammo_count) as nat,
            |j: int| decoded_ammo(bytes, weapon_count, j),
        )
    } else {
        Seq::empty()
    };
    let suit = if len >= ammo_end + 1 {
        Some(bytes[ammo_end] != 0)
    } else {
        None
    };
    let long_jump = if len >= ammo_end + 2 {
        Some(bytes[ammo_end + 1] != 0)
    } else {
        None
    };
    (weapons, ammo, suit, long_jump)
}

/// A bank never holds more in a slot than that slot's carry cap.
pub proof fn lemma_bank_within_caps(bank: AmmoBank)
    requires
        bank.wf(),
    ensures
        bank.amounts().len() == bank.capacities().len(),
        forall|i: int| 0 <= i < bank.amounts().len() ==> bank.amounts()[i] <= bank.capacities()[i],
{
}

/// Four little-endian bytes decode back to the `u32` they encode.
pub proof fn lemma_le_round_trip(x: u32)
    ensures
        le_value(le_byte(x, 0), le_byte(x, 1), le_byte(x, 2), le_byte(x, 3)) == x,
{
    assert(((x & 0xff) as u8 as u32) | ((((x >> 8) & 0xff) as u8 as u32) << 8) | ((((x >> 16)
        & 0xff) as u8 as u32) << 16) | ((((x >> 24) & 0xff) as u8 as u32) << 24) == x)
        by (bit_vector);
}

/// Pushes `x`'s four little-endian bytes.
fn push_le(bytes: &mut Vec<u8>, x: u32)
    ensures
        final(bytes)@ == old(bytes)@ + seq![le_byte(x, 0), le_byte(x, 1), le_byte(x, 2), le_byte(x, 3)],
{
    bytes.push((x & 0xff) as u8);
    bytes.push(((x >> 8) & 0xff) as u8);
    bytes.push(((x >> 16) & 0xff) as u8);
    bytes.push(((x >> 24) & 0xff) as u8);
}

/// Reads four little-endian bytes at `at`.
fn read_le(bytes: &[u8], at: usize) -> (x: u32)
    requires
        at + 4 <= bytes@.len(),
    ensures
        x == le_value(bytes@[at as int], bytes@[at + 1], bytes@[at + 2], bytes@[at + 3]),
{
    (bytes[at] as u32) | ((bytes[at + 1] as u32) << 8) | ((bytes[at + 2] as u32) << 16) | ((
    bytes[at + 3] as u32) << 24)
}

/// Serializes owned weapons (and their clips), reserve ammo, the HEV suit
/// and the long jump module into the carried-inventory blob.
pub fn capture_carry(
    weapons: &[WeaponSnapshot],
    ammo: &[u32],
    has_suit: bool,
    has_long_jump: bool,
) -> (bytes: Vec<u8>)
    ensures
        bytes@ == carry_bytes(weapons@, ammo@, has_suit, has_long_jump),
{
    let mut bytes: Vec<u8> = Vec::new();
    let mut i: usize = 0;
    while i < weapons.len()
        invariant
            i <= weapons@.len(),
            bytes@ == weapons_bytes(weapons@.take(i as int)),
        decreases weapons@.len() - i,
    {
        let ghost before = bytes@;
        let weapon = weapons[i];
        bytes.push(if weapon.owned { 1u8 } else { 0u8 });
        push_le(&mut bytes, weapon.clip);
        proof {
            let next = weapons@.take(i + 1);
            assert forall|k: int| 0 <= k < 5 * (i + 1) implies bytes@[k] == weapon_entry_byte(
                next[k / 5],
                k % 5,
            ) by {
                if k < 5 * i {
                    assert(next[k / 5] == weapons@.take(i as int)[k / 5]);
                }
            }
            assert(bytes@ =~= weapons_bytes(next));
        }
        i = i + 1;
    }
    assert(weapons@.take(weapons@.len() as int) =~= weapons@);
    let ghost weapons_part = bytes@;
    let mut j: usize = 0;
    while j < ammo.len()
        invariant
            j <= ammo@.len(),
            weapons_part == weapons_bytes(weapons@),
            bytes@ == weapons_part + ammo_bytes(ammo@.take(j as int)),
        decreases ammo@.len() - j,
    {
        push_le(&mut bytes, ammo[j]);
        proof {
            let next = ammo@.take(j + 1);
            assert forall|k: int| 0 <= k < 4 * (j + 1) implies ammo_bytes(next)[k] == le_byte(
                next[k / 4],
                k % 4,
            ) by {}
            assert forall|k: int| 0 <= k < 4 * j implies ammo_bytes(next)[k] == ammo_bytes(
                ammo@.take(j as int),
            )[k] by {
                assert(next[k / 4] == ammo@.take(j as int)[k / 4]);
            }
            assert(ammo_bytes(next) =~= ammo_bytes(ammo@.take(j as int)) + seq![
                le_byte(ammo@[j as int], 0),
                le_byte(ammo@[j as int], 1),
                le_byte(ammo@[j as int], 2),
                le_byte(ammo@[j as int], 3),
            ]);
            assert(bytes@ =~= weapons_part + ammo_bytes(next));
        }
        j = j + 1;
    }
    assert(ammo@.take(ammo@.len() as int) =~= ammo@);
    bytes.push(if has_suit { 1u8 } else { 0u8 });
    bytes.push(if has_long_jump { 1u8 } else { 0u8 });
    assert(bytes@ =~= carry_bytes(weapons@, ammo@, has_suit, has_long_jump));
    bytes
}

/// Reads back what [`capture_carry`] serialized, for an inventory of
/// `weapon_count` weapons and `ammo_count` ammo types. A short or
/// otherwise malformed blob stops yielding fields at the first record it
/// runs out within.
pub fn restore_carry(bytes: &[u8], weapon_count: usize, ammo_count: usize) -> (blob: CarryBlob)
    ensures
        (blob.weapons@, blob.ammo@, blob.has_suit, blob.has_long_jump) == carry_blob_of(
            bytes@,
            weapon_count as int,
            ammo_count as int,
        ),
{
    let ghost len = bytes@.len() as int;
    let mut weapons: Vec<WeaponSnapshot> = Vec::new();
    let mut cursor: usize = 0;
    let mut i: usize = 0;
    while i < weapon_count && bytes.len() - cursor >= 5
        invariant
            i <= weapon_count,
            cursor == 5 * i,
            cursor <= bytes@.len(),
            weapons@ == Seq::new(i as nat, |k: int| decoded_weapon(bytes@, k)),
        decreases weapon_count - i,
    {
        let owned = bytes[cursor] != 0;
        let clip = read_le(bytes, cursor + 1);
        weapons.push(WeaponSnapshot { owned, clip });
        assert(weapons@ =~= Seq::new((i + 1) as nat, |k: int| decoded_weapon(bytes@, k)));
        cursor = cursor + 5;
        i = i + 1;
    }
    let ghost expected = carry_blob_of(bytes@, weapon_count as int, ammo_count as int);
    assert(i == complete_records(len, 5, weapon_count as int)) by (nonlinear_arith)
        requires
            i <= weapon_count,
            cursor == 5 * i,
            cursor <= len,
            !(i < weapon_count && len - cursor >= 5),
    ;
    assert(weapons@ =~= expected.0);
    let mut ammo: Vec<u32> = Vec::new();
    if i < weapon_count {
        return CarryBlob { weapons, ammo, has_suit: None, has_long_jump: None };
    }
    let mut j: usize = 0;
    while j < ammo_count && bytes.len() - cursor >= 4
        invariant
            i == weapon_count,
            j <= ammo_count,
            cursor == 5 * weapon_count + 4 * j,
            cursor <= bytes@.len(),
            ammo@ == Seq::new(j as nat, |k: int| decoded_ammo(bytes@, weapon_count as int, k)),
        decreases ammo_count - j,
    {
        let amount = read_le(bytes, cursor);
        ammo.push(amount);
        assert(ammo@ =~= Seq::new(
            (j + 1) as nat,
            |k: int| decoded_ammo(bytes@, weapon_count as int, k),
        ));
        cursor = cursor + 4;
        j = j + 1;
    }
    assert(j == complete_records(len - 5 * weapon_count, 4, ammo_count as int)) by (nonlinear_arith)
        requires
            j <= ammo_count,
            cursor == 5 * weapon_count + 4 * j,
            cursor <= len,
            !(j < ammo_count && len - cursor >= 4),
    ;
    assert(ammo@ =~= expected.1);
    if j < ammo_count {
        return CarryBlob { weapons, ammo, has_suit: None, has_long_jump: None };
    }
    if cursor >= bytes.len() {
        return CarryBlob { weapons, ammo, has_suit: None, has_long_jump: None };
    }
    let has_suit = Some(bytes[cursor] != 0);
    if cursor + 1 >= bytes.len() {
        return CarryBlob { weapons, ammo, has_suit, has_long_jump: None };
    }
    let has_long_jump = Some(bytes[cursor + 1] != 0);
    CarryBlob { weapons, ammo, has_suit, has_long_jump }
}

/// What [`capture_carry`] writes, [`restore_carry`] reads back unchanged:
/// every weapon, every reserve and both flags.
pub proof fn lemma_carry_round_trip(
    weapons: Seq<WeaponSnapshot>,
    ammo: Seq<u32>,
    has_suit: bool,
    has_long_jump: bool,
)
    ensures
        carry_blob_of(
            carry_bytes(weapons, ammo, has_suit, has_long_jump),
            weapons.len() as int,
            ammo.len() as int,
        ) == (weapons, ammo, Some(has_suit), Some(has_long_jump)),
{
    let bytes = carry_bytes(weapons, ammo, has_suit, has_long_jump);
    let wc = weapons.len() as int;
    let ac = ammo.len() as int;
    let blob = carry_blob_of(bytes, wc, ac);
    assert(bytes.len() == 5 * wc + 4 * ac + 2);
    assert(complete_records(bytes.len() as int, 5, wc) == wc) by (nonlinear_arith)
        requires
            bytes.len() == 5 * wc + 4 * ac + 2,
            wc >= 0,
            ac >= 0,
    ;
    assert(complete_records(bytes.len() - 5 * wc, 4, ac) == ac) by (nonlinear_arith)
        requires
            bytes.len() == 5 * wc + 4 * ac + 2,
            wc >= 0,
            ac >= 0,
    ;
    assert forall|i: int| 0 <= i < wc implies decoded_weapon(bytes, i) == weapons[i] by {
        assert((5 * i) / 5 == i && (5 * i + 1) / 5 == i && (5 * i + 2) / 5 == i && (5 * i + 3)
            / 5 == i && (5 * i + 4) / 5 == i);
        assert((5 * i) % 5 == 0 && (5 * i + 1) % 5 == 1 && (5 * i + 2) % 5 == 2 && (5 * i + 3)
            % 5 == 3 && (5 * i + 4) % 5 == 4);
        lemma_le_round_trip(weapons[i].clip);
    }
    assert forall|j: int| 0 <= j < ac implies decoded_ammo(bytes, wc, j) == ammo[j] by {
        let at = 5 * wc + 4 * j;
        assert(bytes[at] == ammo_bytes(ammo)[4 * j]);
        assert(bytes[at + 1] == ammo_bytes(ammo)[4 * j + 1]);
        assert(bytes[at + 2] == ammo_bytes(ammo)[4 * j + 2]);
        assert(bytes[at + 3] == ammo_bytes(ammo)[4 * j + 3]);
        assert((4 * j) / 4 == j && (4 * j + 1) / 4 == j && (4 * j + 2) / 4 == j && (4 * j + 3)
            / 4 == j);
        assert((4 * j) % 4 == 0 && (4 * j + 1) % 4 == 1 && (4 * j + 2) % 4 == 2 && (4 * j + 3)
            % 4 == 3);
        lemma_le_round_trip(ammo[j]);
    }
    assert(blob.0 =~= weapons);
    assert(blob.1 =~= ammo);
    assert(bytes[5 * wc + 4 * ac] == flag_byte(has_suit));
    assert(bytes[5 * wc + 4 * ac + 1] == flag_byte(has_long_jump));
}

} // verus!
