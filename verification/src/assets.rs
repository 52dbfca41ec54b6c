//! Where a level's bytes come from.
//!
//! Paths are GoldSrc-style, forward-slashed and mod-relative (for example
//! `maps/foo.bsp`). Every lookup returns `None`/empty rather than an error:
//! a missing asset is an ordinary condition (an incomplete payload, an
//! optional model) that the caller degrades over.

use vstd::prelude::*;

verus! {

/// The read-only, game-relative asset lookup a game needs.
pub trait AssetSource {
    /// What the source publishes under `asset_path`: the asset's bytes, or
    /// `None` when it publishes nothing there.
    spec fn published(&self, asset_path: Seq<char>) -> Option<Seq<u8>>;

    /// Reads one asset in full, or `None` when it is not published.
    fn read(&self, asset_path: &str) -> (bytes: Option<Vec<u8>>)
        ensures
            match bytes {
                Some(b) => self.published(asset_path@) == Some(b@),
                None => self.published(asset_path@) is None,
            },
    ;

    /// Resolves a worldspawn `wad` value to the texture packages it names.
    ///
    /// The default implementation resolves nothing, which leaves externally
    /// stored textures on their placeholder.
    fn resolve_wads(&self, worldspawn_wad_value: &str) -> (wads: Vec<Vec<u8>>)
        default_ensures
            wads@.len() == 0,
    {
        Vec::new()
    }
}

/// `c` mapped to its ASCII lower-case equivalent: `'A'..='Z'` become
/// `'a'..='z'`, every other character is unchanged.
pub open spec fn ascii_lower_char(c: char) -> char {
    if 'A' <= c && c <= 'Z' {
        ((c as u32) + 32) as char
    } else {
        c
    }
}

/// `s` with every character mapped by [`ascii_lower_char`].
pub open spec fn ascii_lower(s: Seq<char>) -> Seq<char> {
    s.map_values(|c: char| ascii_lower_char(c))
}

/// `str::to_ascii_lowercase`: a copy of `s` whose ASCII letters
/// `'A'..='Z'` are mapped to `'a'..='z'`, every other character unchanged
/// (as the standard library documents it).
#[verifier::external_body]
pub(crate) fn to_ascii_lowercase(s: &str) -> (lower: String)
    ensures
        lower@ == ascii_lower(s@),
{
    s.to_ascii_lowercase()
}

/// Whether `c` and `d` are the same character once ASCII letters are
/// lower-cased.
fn same_ignoring_ascii_case(c: char, d: char) -> (same: bool)
    ensures
        same == (ascii_lower_char(c) == ascii_lower_char(d)),
{
    let x = c as u32;
    let y = d as u32;
    let c_upper = 'A' <= c && c <= 'Z';
    let d_upper = 'A' <= d && d <= 'Z';
    proof {
        if c_upper {
            assert((((c as u32) + 32) as char) as u32 == (c as u32) + 32);
        }
        if d_upper {
            assert((((d as u32) + 32) as char) as u32 == (d as u32) + 32);
        }
        assert(ascii_lower_char(c) == ascii_lower_char(d) <==> ascii_lower_char(c) as u32
            == ascii_lower_char(d) as u32);
    }
    x == y || (c_upper && x + 32 == y) || (d_upper && y + 32 == x)
}

/// Whether `a` and `b` are equal once their ASCII letters are lower-cased,
/// as `str::eq_ignore_ascii_case` decides it.
pub(crate) fn eq_ignore_ascii_case(a: &str, b: &str) -> (same: bool)
    ensures
        same == (ascii_lower(a@) == ascii_lower(b@)),
{
    let n = a.unicode_len();
    if n != b.unicode_len() {
        proof {
            assert(ascii_lower(a@).len() != ascii_lower(b@).len());
        }
        return false;
    }
    let mut i: usize = 0;
    while i < n
        invariant
            n == a@.len(),
            n == b@.len(),
            i <= n,
            forall|j: int| 0 <= j < i ==> ascii_lower_char(#[trigger] a@[j]) == ascii_lower_char(b@[j]),
        decreases n - i,
    {
        if !same_ignoring_ascii_case(a.get_char(i), b.get_char(i)) {
            proof {
                assert(ascii_lower(a@)[i as int] != ascii_lower(b@)[i as int]);
            }
            return false;
        }
        i = i + 1;
    }
    proof {
        assert(ascii_lower(a@) =~= ascii_lower(b@));
    }
    true
}

/// An [`AssetSource`] backed by an in-memory table, for tests and hosts that
/// have already staged the bytes themselves. Paths are matched
/// case-insensitively over ASCII letters.
#[derive(Debug)]
pub struct MemoryAssets {
    entries: Vec<(String, Vec<u8>)>,
}

impl MemoryAssets {
    /// The table as a map from lower-cased path to bytes.
    pub closed spec fn table(&self) -> Map<Seq<char>, Seq<u8>> {
        Map::new(
            |key: Seq<char>| exists|i: int| 0 <= i < self.entries@.len() && self.entries@[i].0@ == key,
            |key: Seq<char>| {
                let i = choose|i: int| 0 <= i < self.entries@.len() && self.entries@[i].0@ == key;
                self.entries@[i].1@
            },
        )
    }

    /// No path is stored twice.
    #[verifier::type_invariant]
    spec fn wf(&self) -> bool {
        forall|i: int, j: int|
            0 <= i < j < self.entries@.len() ==> self.entries@[i].0@ != self.entries@[j].0@
    }

    /// An empty table.
    pub fn new() -> (assets: Self)
        ensures
            assets.table() == Map::<Seq<char>, Seq<u8>>::empty(),
    {
        let assets = MemoryAssets { entries: Vec::new() };
        assert(assets.table() =~= Map::<Seq<char>, Seq<u8>>::empty());
        assets
    }

    /// The slot holding `key`, if any.
    fn find(&self, key: &String) -> (slot: Option<usize>)
        ensures
            match slot {
                Some(i) => i < self.entries@.len() && self.entries@[i as int].0@ == key@,
                None => !self.table().dom().contains(key@),
            },
    {
        proof {
            use_type_invariant(self);
        }
        let mut i: usize = 0;
        while i < self.entries.len()
            invariant
                i <= self.entries@.len(),
                forall|j: int| 0 <= j < i ==> self.entries@[j].0@ != key@,
            decreases self.entries@.len() - i,
        {
            if self.entries[i].0 == *key {
                return Some(i);
            }
            i = i + 1;
        }
        None
    }

    /// The slot of `entries` holding `key`, if any.
    fn find_in(&self, entries: &Vec<(String, Vec<u8>)>, key: &String) -> (slot: Option<usize>)
        ensures
            match slot {
                Some(i) => i < entries@.len() && entries@[i as int].0@ == key@,
                None => forall|j: int| 0 <= j < entries@.len() ==> entries@[j].0@ != key@,
            },
    {
        let mut i: usize = 0;
        while i < entries.len()
            invariant
                i <= entries@.len(),
                forall|j: int| 0 <= j < i ==> entries@[j].0@ != key@,
            decreases entries@.len() - i,
        {
            if entries[i].0 == *key {
                return Some(i);
            }
            i = i + 1;
        }
        None
    }

    /// Inserts (or replaces) one asset, under its path lower-cased.
    pub fn insert(&mut self, asset_path: &str, bytes: Vec<u8>)
        ensures
            final(self).table() == old(self).table().insert(ascii_lower(asset_path@), bytes@),
    {
        proof {
            use_type_invariant(&*self);
        }
        let key = to_ascii_lowercase(asset_path);
        let ghost before = self.entries@;
        let mut entries: Vec<(String, Vec<u8>)> = Vec::new();
        std::mem::swap(&mut entries, &mut self.entries);
        assert(entries@ == before);
        match self.find_in(&entries, &key) {
            Some(i) => {
                entries.set(i, (key, bytes));
                proof {
                    assert forall|a: int, b: int|
                        0 <= a < b < entries@.len() implies entries@[a].0@ != entries@[b].0@ by {
                        if a != i && b != i {
                            assert(before[a] == entries@[a] && before[b] == entries@[b]);
                        }
                    }
                }
                self.entries = entries;
                proof {
                    assert forall|k: Seq<char>| #![auto]
                        self.table().dom().contains(k) == old(self).table().insert(
                            ascii_lower(asset_path@),
                            bytes@,
                        ).dom().contains(k) by {
                        if k != ascii_lower(asset_path@) {
                            if old(self).table().dom().contains(k) {
                                let j = choose|j: int|
                                    0 <= j < before.len() && before[j].0@ == k;
                                assert(self.entries@[j].0@ == k);
                            }
                            if self.table().dom().contains(k) {
                                let j = choose|j: int|
                                    0 <= j < self.entries@.len() && self.entries@[j].0@ == k;
                                assert(before[j].0@ == k);
                            }
                        } else {
                            assert(self.entries@[i as int].0@ == k);
                        }
                    }
                    assert forall|k: Seq<char>| #![auto]
                        self.table().dom().contains(k) implies self.table()[k] == old(
                            self,
                        ).table().insert(ascii_lower(asset_path@), bytes@)[k] by {
                        let j = choose|j: int|
                            0 <= j < self.entries@.len() && self.entries@[j].0@ == k;
                        if k == ascii_lower(asset_path@) {
                            assert(j == i);
                        } else {
                            let j0 = choose|j0: int| 0 <= j0 < before.len() && before[j0].0@ == k;
                            assert(before[j].0@ == k);
                            assert(j0 == j);
                        }
                    }
                    assert(self.table() =~= old(self).table().insert(
                        ascii_lower(asset_path@),
                        bytes@,
                    ));
                }
            },
            None => {
                entries.push((key, bytes));
                proof {
                    assert forall|a: int, b: int|
                        0 <= a < b < entries@.len() implies entries@[a].0@ != entries@[b].0@ by {
                        if b == before.len() {
                            assert(before[a].0@ != key@);
                        } else {
                            assert(before[a] == entries@[a] && before[b] == entries@[b]);
                        }
                    }
                }
                self.entries = entries;
                proof {
                    let n = before.len() as int;
                    assert forall|k: Seq<char>| #![auto]
                        self.table().dom().contains(k) == old(self).table().insert(
                            ascii_lower(asset_path@),
                            bytes@,
                        ).dom().contains(k) by {
                        if old(self).table().dom().contains(k) {
                            let j = choose|j: int| 0 <= j < before.len() && before[j].0@ == k;
                            assert(self.entries@[j].0@ == k);
                        }
                        if k == ascii_lower(asset_path@) {
                            assert(self.entries@[n].0@ == k);
                        }
                        if self.table().dom().contains(k) && k != ascii_lower(asset_path@) {
                            let j = choose|j: int|
                                0 <= j < self.entries@.len() && self.entries@[j].0@ == k;
                            assert(j < n);
                            assert(before[j].0@ == k);
                        }
                    }
                    assert forall|k: Seq<char>| #![auto]
                        self.table().dom().contains(k) implies self.table()[k] == old(
                            self,
                        ).table().insert(ascii_lower(asset_path@), bytes@)[k] by {
                        let j = choose|j: int|
                            0 <= j < self.entries@.len() && self.entries@[j].0@ == k;
                        if k == ascii_lower(asset_path@) {
                            assert(j == n);
                        } else {
                            let j0 = choose|j0: int| 0 <= j0 < before.len() && before[j0].0@ == k;
                            assert(before[j].0@ == k);
                            assert(j0 == j);
                        }
                    }
                    assert(self.table() =~= old(self).table().insert(
                        ascii_lower(asset_path@),
                        bytes@,
                    ));
                }
            },
        }
    }

    /// The bytes stored under `asset_path` lower-cased, or `None`.
    pub fn get(&self, asset_path: &str) -> (bytes: Option<Vec<u8>>)
        ensures
            match bytes {
                Some(b) => self.table().dom().contains(ascii_lower(asset_path@)) && b@ == self.table()[ascii_lower(asset_path@)],
                None => !self.table().dom().contains(ascii_lower(asset_path@)),
            },
    {
        proof {
            use_type_invariant(self);
        }
        let key = to_ascii_lowercase(asset_path);
        match self.find(&key) {
            Some(i) => {
                let b = self.entries[i].1.clone();
                proof {
                    let j = choose|j: int|
                        0 <= j < self.entries@.len() && self.entries@[j].0@ == key@;
                    assert(j == i as int);
                    assert(b@ =~= self.entries@[i as int].1@);
                }
                Some(b)
            },
            None => None,
        }
    }
}

impl Clone for MemoryAssets {
    /// A copy holding the same table.
    fn clone(&self) -> (copy: Self)
        ensures
            copy.table() == self.table(),
    {
        proof {
            use_type_invariant(self);
        }
        let mut entries: Vec<(String, Vec<u8>)> = Vec::new();
        let mut i: usize = 0;
        while i < self.entries.len()
            invariant
                i <= self.entries@.len(),
                entries@.len() == i,
                forall|j: int|
                    0 <= j < i ==> (#[trigger] entries@[j]).0@ == self.entries@[j].0@
                        && entries@[j].1@ == self.entries@[j].1@,
            decreases self.entries@.len() - i,
        {
            let key = self.entries[i].0.clone();
            let bytes = self.entries[i].1.clone();
            proof {
                assert(bytes@ =~= self.entries@[i as int].1@);
            }
            entries.push((key, bytes));
            i = i + 1;
        }
        proof {
            assert forall|a: int, b: int|
                0 <= a < b < entries@.len() implies entries@[a].0@ != entries@[b].0@ by {
                assert(entries@[a].0@ == self.entries@[a].0@);
                assert(entries@[b].0@ == self.entries@[b].0@);
            }
        }
        let copy = MemoryAssets { entries };
        proof {
            assert forall|k: Seq<char>| #![auto]
                copy.table().dom().contains(k) == self.table().dom().contains(k) by {
                if copy.table().dom().contains(k) {
                    let j = choose|j: int|
                        0 <= j < copy.entries@.len() && copy.entries@[j].0@ == k;
                    assert(copy.entries@[j].0@ == self.entries@[j].0@);
                }
                if self.table().dom().contains(k) {
                    let j = choose|j: int|
                        0 <= j < self.entries@.len() && self.entries@[j].0@ == k;
                    assert(copy.entries@[j].0@ == self.entries@[j].0@);
                }
            }
            assert forall|k: Seq<char>| #![auto]
                copy.table().dom().contains(k) implies copy.table()[k] == self.table()[k] by {
                let j = choose|j: int| 0 <= j < copy.entries@.len() && copy.entries@[j].0@ == k;
                let j0 = choose|j0: int|
                    0 <= j0 < self.entries@.len() && self.entries@[j0].0@ == k;
                assert(copy.entries@[j].0@ == self.entries@[j].0@);
                assert(copy.entries@[j0].0@ == self.entries@[j0].0@);
                assert(j == j0);
            }
            assert(copy.table() =~= self.table());
        }
        copy
    }
}

impl Default for MemoryAssets {
    fn default() -> (assets: Self)
        ensures
            assets.table() == Map::<Seq<char>, Seq<u8>>::empty(),
    {
        MemoryAssets::new()
    }
}

impl AssetSource for MemoryAssets {
    /// The table's entry for `asset_path` lower-cased.
    open spec fn published(&self, asset_path: Seq<char>) -> Option<Seq<u8>> {
        if self.table().dom().contains(ascii_lower(asset_path)) {
            Some(self.table()[ascii_lower(asset_path)])
        } else {
            None
        }
    }

    fn read(&self, asset_path: &str) -> (bytes: Option<Vec<u8>>)
        ensures
            match bytes {
                Some(b) => self.table().dom().contains(ascii_lower(asset_path@)) && b@ == self.table()[ascii_lower(asset_path@)],
                None => !self.table().dom().contains(ascii_lower(asset_path@)),
            },
    {
        self.get(asset_path)
    }
}

/// A read gives back what the last insert wrote: after bytes are inserted
/// under `path`, a read of any path equal to it up to ASCII case finds
/// exactly those bytes, and a read of any other path finds what it found
/// before.
pub proof fn lemma_read_after_insert(
    before: MemoryAssets,
    after: MemoryAssets,
    path: Seq<char>,
    bytes: Seq<u8>,
    query: Seq<char>,
)
    requires
        after.table() == before.table().insert(ascii_lower(path), bytes),
    ensures
        ascii_lower(query) == ascii_lower(path) ==> after.table().dom().contains(
            ascii_lower(query),
        ) && after.table()[ascii_lower(query)] == bytes,
        ascii_lower(query) != ascii_lower(path) ==> (after.table().dom().contains(
            ascii_lower(query),
        ) == before.table().dom().contains(ascii_lower(query))) && (before.table().dom().contains(
            ascii_lower(query),
        ) ==> after.table()[ascii_lower(query)] == before.table()[ascii_lower(query)]),
{
}

} // verus!
