//! The rules a level load applies to the entities a map declares: which
//! classnames carry a studio model and which a sprite, where a model's
//! external texture file lives, which asset key an entity's model or
//! sprite resolves to, how the load caches the assets it has already tried
//! (at most [`MAX_STUDIO_MODELS`] distinct models and
//! [`MAX_SPRITE_ASSETS`] distinct sprites), and how a placement's numeric
//! keyvalues are read.
//!
//! Reading and parsing the model files is the host's; each decision here
//! takes the outcome as a plain value.

use crate::assets::{ascii_lower, eq_ignore_ascii_case, to_ascii_lowercase, AssetSource};
use crate::error::EngineError;
use vstd::prelude::*;
use vstd::string::*;

verus! {

/// The largest number of distinct studio models one level loads, so a map
/// full of props cannot make level loading unbounded.
pub const MAX_STUDIO_MODELS: usize = 96;

/// The largest number of distinct sprite assets one level loads, for the
/// same reason.
pub const MAX_SPRITE_ASSETS: usize = 96;

/// The asset path a map named `map` (a bare name such as `c0a0`) is
/// published under.
pub open spec fn map_path(map: Seq<char>) -> Seq<char> {
    "maps/"@ + map + ".bsp"@
}

/// The asset path of the map named `map`: `maps/<map>.bsp`.
pub fn map_asset_path(map: &str) -> (path: String)
    ensures
        path@ == map_path(map@),
{
    let mut path = "maps/".to_owned();
    path.append(map);
    path.append(".bsp");
    path
}

/// A map's bytes as the source answered the read of its path: the bytes
/// when it published them, [`EngineError::MapNotFound`] when it did not.
pub fn map_bytes(read: Option<Vec<u8>>) -> (bytes: Result<Vec<u8>, EngineError>)
    ensures
        match read {
            Some(b) => bytes == Ok::<Vec<u8>, EngineError>(b),
            None => bytes == Err::<Vec<u8>, EngineError>(EngineError::MapNotFound),
        },
{
    match read {
        Some(b) => Ok(b),
        None => Err(EngineError::MapNotFound),
    }
}

/// Reads the map named `map` through `source`, from `maps/<map>.bsp`: its
/// bytes, or [`EngineError::MapNotFound`] when the source publishes no
/// such asset.
pub fn read_map<S: AssetSource>(source: &S, map: &str) -> (bytes: Result<Vec<u8>, EngineError>)
    ensures
        match source.published(map_path(map@)) {
            Some(b) => bytes matches Ok(v) && v@ == b,
            None => bytes == Err::<Vec<u8>, EngineError>(EngineError::MapNotFound),
        },
{
    let path = map_asset_path(map);
    map_bytes(source.read(path.as_str()))
}

/// Whether `a` and `b` hold the same text.
fn same_text(a: &str, b: &str) -> (same: bool)
    ensures
        same == (a@ == b@),
{
    a.to_owned() == b.to_owned()
}

/// The classnames that name a sprite rather than a studio model, even when
/// they carry a `.mdl` `model` keyvalue.
pub open spec fn is_sprite_only_class(classname: Seq<char>) -> bool {
    classname == "env_sprite"@ || classname == "env_glow"@ || classname == "cycler_sprite"@
}

/// Whether `classname`'s `model` keyvalue (when it names a `.mdl` asset)
/// should be loaded and placed as a studio model: every classname but the
/// sprite-only ones.
pub fn wants_studio_model(classname: &str) -> (wanted: bool)
    ensures
        wanted == !is_sprite_only_class(classname@),
{
    !(same_text(classname, "env_sprite") || same_text(classname, "env_glow") || same_text(
        classname,
        "cycler_sprite",
    ))
}

/// Whether `key` ends with `.mdl`.
pub open spec fn ends_with_mdl(key: Seq<char>) -> bool {
    key.len() >= 4 && key.subrange(key.len() - 4, key.len() as int) == ".mdl"@
}

/// The companion file a studio model's textures live in when the model
/// stores them externally: the same path with `t` before `.mdl`
/// (`models/foo.mdl` -> `models/foot.mdl`). `None` when `key` does not end
/// with `.mdl`.
pub fn external_texture_path(key: &str) -> (path: Option<String>)
    ensures
        match path {
            Some(p) => ends_with_mdl(key@) && p@ == key@.subrange(0, key@.len() - 4) + "t.mdl"@,
            None => !ends_with_mdl(key@),
        },
{
    proof {
        reveal_strlit(".mdl");
        reveal_strlit("t.mdl");
    }
    let n = key.unicode_len();
    if n < 4 {
        return None;
    }
    let tail = key.substring_char(n - 4, n);
    if !same_text(tail, ".mdl") {
        return None;
    }
    let stem = key.substring_char(0, n - 4);
    let mut path = stem.to_owned();
    path.append("t.mdl");
    Some(path)
}

/// Whether `key` is a plain relative or rooted path whose file name ends
/// in a `.` followed by its last `n` characters: no backslash or colon
/// anywhere (so no drive, share or device prefix on any platform), no
/// leading `//`, those `n` characters free of `.` and `/`, and at least one
/// character of the file name before that `.`.
pub open spec fn plain_path_suffix(key: Seq<char>, n: int) -> bool {
    &&& 1 <= n
    &&& key.len() >= n + 2
    &&& key[key.len() - n - 1] == '.'
    &&& key[key.len() - n - 2] != '/'
    &&& forall|i: int|
        key.len() - n <= i < key.len() ==> #[trigger] key[i] != '.' && key[i] != '/'
    &&& forall|i: int| 0 <= i < key.len() ==> #[trigger] key[i] != '\\' && key[i] != ':'
    &&& !(key[0] == '/' && key[1] == '/')
}

/// Whether `key` is a simple path with no extension on any platform: no
/// backslash or colon anywhere, no leading `//`, and a file name (its last
/// `/`-separated part, starting at `start`) that holds some character other
/// than `.` and no `.` past its first character.
pub open spec fn plain_path_without_extension(key: Seq<char>) -> bool {
    &&& forall|i: int| 0 <= i < key.len() ==> #[trigger] key[i] != '\\' && key[i] != ':'
    &&& !(key.len() >= 2 && key[0] == '/' && key[1] == '/')
    &&& exists|start: int|
        #![trigger key[start - 1]]
        0 <= start <= key.len() && (start == 0 || key[start - 1] == '/') && (forall|i: int|
            start <= i < key.len() ==> #[trigger] key[i] != '/') && (exists|i: int|
            start <= i < key.len() && #[trigger] key[i] != '.') && (forall|i: int|
            start < i < key.len() ==> #[trigger] key[i] != '.')
}

/// `Path::extension` of `key`, as text: the part of the path's file name
/// after its final `.`. The standard library documents `None` for a path
/// with no file name, a file name with no embedded `.`, or one that begins
/// with `.` and has no other `.`, and otherwise the part of the file name
/// after its final `.`. Claimed here: whatever it returns is a stretch of
/// `key` directly after a `.`; and for a plain path (see
/// [`plain_path_suffix`]), whose file name is its last `/`-separated part
/// on every platform, it returns the text after that file name's final
/// `.`; for a simple path whose file name has no `.` past its first
/// character (see [`plain_path_without_extension`]) it returns `None`. What
/// it returns for paths with a drive, share or device prefix, or a
/// backslash, is platform-dependent and left unsaid.
#[verifier::external_body]
fn path_extension<'a>(key: &'a str) -> (ext: Option<&'a str>)
    ensures
        ext matches Some(e) ==> exists|i: int|
            0 <= i && i + 1 + e@.len() <= key@.len() && key@[i] == '.' && key@.subrange(
                i + 1,
                i + 1 + e@.len(),
            ) == e@,
        ext is Some || forall|n: int| !#[trigger] plain_path_suffix(key@, n),
        ext matches Some(e) ==> forall|n: int|
            #[trigger] plain_path_suffix(key@, n) ==> e@ == key@.subrange(
                key@.len() - n,
                key@.len() as int,
            ),
        plain_path_without_extension(key@) ==> ext is None,
{
    std::path::Path::new(key).extension().and_then(|e| e.to_str())
}

/// Whether `classname` starts with `monster_`.
pub open spec fn is_monster_class(classname: Seq<char>) -> bool {
    classname.len() >= 8 && classname.subrange(0, 8) == "monster_"@
}

/// Whether `classname` starts with `monster_`.
fn starts_with_monster(classname: &str) -> (r: bool)
    ensures
        r == is_monster_class(classname@),
{
    proof {
        reveal_strlit("monster_");
    }
    let n = classname.unicode_len();
    if n < 8 {
        return false;
    }
    same_text(classname.substring_char(0, 8), "monster_")
}

/// An entity's `model` keyvalue, as the map declares it.
#[derive(Debug, Clone, PartialEq, Eq)]
pub enum ModelKeyvalue {
    /// An inline brush model (`*N`).
    Brush,
    /// An asset path.
    Asset(String),
}

/// The model path an entity names before lower-casing: its own asset path
/// when it has one; for a `monster_` classname with no `model` keyvalue at
/// all, the default model of its monster kind (`default_model`, when the
/// kind has one); otherwise nothing. Sprite-only classnames name nothing.
pub open spec fn model_candidate(
    classname: Seq<char>,
    model: Option<ModelKeyvalue>,
    default_model: Option<Seq<char>>,
) -> Option<Seq<char>> {
    if is_sprite_only_class(classname) {
        None
    } else {
        match model {
            Some(ModelKeyvalue::Asset(path)) => Some(path@),
            None => if is_monster_class(classname) {
                default_model
            } else {
                None
            },
            Some(ModelKeyvalue::Brush) => None,
        }
    }
}

/// The text an optional string holds.
pub open spec fn text_of(text: Option<&str>) -> Option<Seq<char>> {
    match text {
        Some(t) => Some(t@),
        None => None,
    }
}

/// The text an optional owned string holds.
pub open spec fn string_text(text: Option<String>) -> Option<Seq<char>> {
    match text {
        Some(t) => Some(t@),
        None => None,
    }
}

/// `key` is what a studio-model key resolves to from `candidate` (see
/// [`model_candidate`]): nothing without a candidate; otherwise, when
/// there is a key, the candidate lower-cased, with an `mdl` extension (any
/// case). For a plain candidate path (see [`plain_path_suffix`]) there is
/// a key exactly when its lower-cased form ends in `.mdl`, and for a
/// simple path with no extension (see [`plain_path_without_extension`])
/// there is none.
pub open spec fn model_key_law(candidate: Option<Seq<char>>, key: Option<Seq<char>>) -> bool {
    &&& candidate is None ==> key is None
    &&& key matches Some(k) ==> {
        &&& candidate matches Some(c) && k == ascii_lower(c)
        &&& exists|i: int|
            0 <= i && i + 4 <= k.len() && k[i] == '.' && ascii_lower(k.subrange(i + 1, i + 4))
                == "mdl"@
    }
    &&& match candidate {
        Some(c) => {
            &&& forall|n: int|
                #[trigger] plain_path_suffix(ascii_lower(c), n) ==> (key is Some <==> (n == 3
                    && ascii_lower(c).subrange(ascii_lower(c).len() - 3, ascii_lower(c).len() as int)
                    == "mdl"@))
            &&& plain_path_without_extension(ascii_lower(c)) ==> key is None
        },
        None => true,
    }
}

/// The lower-cased asset key of the studio model an entity of `classname`
/// with `model` draws, falling back to `default_model` (its monster kind's
/// own model) as [`model_candidate`] says, or `None`: see
/// [`model_key_law`].
pub fn studio_model_key(
    classname: &str,
    model: &Option<ModelKeyvalue>,
    default_model: Option<&str>,
) -> (key: Option<String>)
    ensures
        model_key_law(model_candidate(classname@, *model, text_of(default_model)), string_text(key)),
{
    if !wants_studio_model(classname) {
        return None;
    }
    let path: &str = match model {
        Some(ModelKeyvalue::Asset(path)) => path.as_str(),
        None => {
            if !starts_with_monster(classname) {
                return None;
            }
            match default_model {
                Some(d) => d,
                None => {
                    return None;
                },
            }
        },
        Some(ModelKeyvalue::Brush) => {
            return None;
        },
    };
    let key = to_ascii_lowercase(path);
    proof {
        reveal_strlit("mdl");
        assert(ascii_lower("mdl"@) =~= "mdl"@);
        assert("mdl"@.len() == 3);
        assert(model_candidate(classname@, *model, text_of(default_model)) == Some(path@));
    }
    let found = has_extension(key.as_str(), "mdl");
    proof {
        assert forall|n: int| #[trigger] plain_path_suffix(ascii_lower(path@), n) implies (found
            <==> (n == 3 && ascii_lower(path@).subrange(
            ascii_lower(path@).len() - 3,
            ascii_lower(path@).len() as int,
        ) == "mdl"@)) by {
            assert(plain_path_suffix(key@, n));
            lemma_lower_tail(path@, n);
        }
    }
    if found {
        proof {
            let i = choose|i: int|
                0 <= i && i + 1 + "mdl"@.len() <= key@.len() && key@[i] == '.' && ascii_lower(
                    key@.subrange(i + 1, i + 1 + "mdl"@.len()),
                ) == ascii_lower("mdl"@);
            assert(ascii_lower(key@.subrange(i + 1, i + 4)) == "mdl"@);
            assert(exists|i: int|
                0 <= i && i + 4 <= key@.len() && key@[i] == '.' && ascii_lower(
                    key@.subrange(i + 1, i + 4),
                ) == "mdl"@);
            assert(string_text(Some(key)) == Some(key@));
            assert(model_key_law(Some(path@), Some(key@)));
        }
        Some(key)
    } else {
        proof {
            assert(model_key_law(Some(path@), None));
        }
        None
    }
}

/// Whether `key`'s path extension is `ext`, compared without regard to
/// ASCII case. For a plain path (see [`plain_path_suffix`]) this is exactly
/// whether the characters after its file name's final `.` are `ext`.
fn has_extension(key: &str, ext: &str) -> (found: bool)
    ensures
        found ==> exists|i: int|
            0 <= i && i + 1 + ext@.len() <= key@.len() && key@[i] == '.' && ascii_lower(
                key@.subrange(i + 1, i + 1 + ext@.len()),
            ) == ascii_lower(ext@),
        forall|n: int|
            #[trigger] plain_path_suffix(key@, n) ==> found == (n == ext@.len() && ascii_lower(
                key@.subrange(key@.len() - n, key@.len() as int),
            ) == ascii_lower(ext@)),
        plain_path_without_extension(key@) ==> !found,
{
    match path_extension(key) {
        Some(found) => {
            let same = eq_ignore_ascii_case(found, ext);
            proof {
                assert forall|n: int| #[trigger] plain_path_suffix(key@, n) implies same == (n
                    == ext@.len() && ascii_lower(key@.subrange(key@.len() - n, key@.len() as int))
                    == ascii_lower(ext@)) by {
                    assert(found@ == key@.subrange(key@.len() - n, key@.len() as int));
                    assert(ascii_lower(found@).len() == found@.len());
                    assert(ascii_lower(ext@).len() == ext@.len());
                }
            }
            if same {
                proof {
                    let i = choose|i: int|
                        0 <= i && i + 1 + found@.len() <= key@.len() && key@[i] == '.'
                            && key@.subrange(i + 1, i + 1 + found@.len()) == found@;
                    assert(found@.len() == ascii_lower(found@).len());
                    assert(ext@.len() == ascii_lower(ext@).len());
                    assert(key@.subrange(i + 1, i + 1 + ext@.len()) == found@);
                }
                true
            } else {
                false
            }
        },
        None => false,
    }
}

/// Lower-casing twice is lower-casing once.
proof fn lemma_lower_idempotent(s: Seq<char>)
    ensures
        ascii_lower(ascii_lower(s)) == ascii_lower(s),
{
    assert forall|i: int| 0 <= i < s.len() implies #[trigger] ascii_lower(ascii_lower(s))[i]
        == ascii_lower(s)[i] by {
        let c = s[i];
        if 'A' <= c && c <= 'Z' {
            assert((((c as u32) + 32) as char) as u32 == (c as u32) + 32);
        }
    }
    assert(ascii_lower(ascii_lower(s)) =~= ascii_lower(s));
}

/// The last `n` characters of a lower-cased path, lower-cased again, are
/// themselves.
proof fn lemma_lower_tail(c: Seq<char>, n: int)
    requires
        0 <= n <= c.len(),
    ensures
        ascii_lower(ascii_lower(c).subrange(c.len() - n, c.len() as int)) == ascii_lower(c).subrange(
            c.len() - n,
            c.len() as int,
        ),
{
    let tail = c.subrange(c.len() - n, c.len() as int);
    assert(ascii_lower(c).subrange(c.len() - n, c.len() as int) =~= ascii_lower(tail));
    lemma_lower_idempotent(tail);
}

/// The lower-cased asset key of the sprite an entity of `classname` with
/// `model` draws: only a sprite-only classname whose `model` keyvalue names
/// an asset with the `spr` extension (any case) has one; for a plain path
/// (see [`plain_path_suffix`]) that is exactly when its lower-cased form
/// ends in `.spr`, and a simple path with no extension (see
/// [`plain_path_without_extension`]) has none.
pub fn sprite_key(classname: &str, model: &Option<ModelKeyvalue>) -> (key: Option<String>)
    ensures
        !is_sprite_only_class(classname@) ==> key is None,
        !(model matches Some(ModelKeyvalue::Asset(_))) ==> key is None,
        key matches Some(k) ==> {
            &&& model matches Some(ModelKeyvalue::Asset(path)) && k@ == ascii_lower(path@)
            &&& exists|i: int|
                0 <= i && i + 4 <= k@.len() && k@[i] == '.' && ascii_lower(
                    k@.subrange(i + 1, i + 4),
                ) == "spr"@
        },
        match *model {
            Some(ModelKeyvalue::Asset(path)) => {
                &&& is_sprite_only_class(classname@) ==> forall|n: int|
                    #[trigger] plain_path_suffix(ascii_lower(path@), n) ==> (key is Some <==> (n
                        == 3 && ascii_lower(path@).subrange(
                        ascii_lower(path@).len() - 3,
                        ascii_lower(path@).len() as int,
                    ) == "spr"@))
                &&& plain_path_without_extension(ascii_lower(path@)) ==> key is None
            },
            _ => true,
        },
{
    proof {
        reveal_strlit("spr");
        assert(ascii_lower("spr"@) =~= "spr"@);
        assert("spr"@.len() == 3);
    }
    if wants_studio_model(classname) {
        return None;
    }
    match model {
        Some(ModelKeyvalue::Asset(path)) => {
            let key = to_ascii_lowercase(path.as_str());
            let found = has_extension(key.as_str(), "spr");
            proof {
                assert forall|n: int| #[trigger] plain_path_suffix(ascii_lower(path@), n) implies (
                found <==> (n == 3 && ascii_lower(path@).subrange(
                    ascii_lower(path@).len() - 3,
                    ascii_lower(path@).len() as int,
                ) == "spr"@)) by {
                    assert(plain_path_suffix(key@, n));
                    lemma_lower_tail(path@, n);
                }
            }
            if found {
                proof {
                    let i = choose|i: int|
                        0 <= i && i + 1 + "spr"@.len() <= key@.len() && key@[i] == '.'
                            && ascii_lower(key@.subrange(i + 1, i + 1 + "spr"@.len()))
                            == ascii_lower("spr"@);
                    assert(ascii_lower(key@.subrange(i + 1, i + 4)) == "spr"@);
                    assert(exists|i: int|
                        0 <= i && i + 4 <= key@.len() && key@[i] == '.' && ascii_lower(
                            key@.subrange(i + 1, i + 4),
                        ) == "spr"@);
                }
                Some(key)
            } else {
                None
            }
        },
        _ => None,
    }
}

/// The first index at which `keys` holds `key`, if any.
pub open spec fn position_of(keys: Seq<Seq<char>>, key: Seq<char>) -> Option<int>
    decreases keys.len(),
{
    if keys.len() == 0 {
        None
    } else {
        match position_of(keys.drop_last(), key) {
            Some(i) => Some(i),
            None => if keys.last() == key {
                Some(keys.len() - 1)
            } else {
                None
            },
        }
    }
}

/// A position found in a prefix is the position in the whole sequence.
proof fn lemma_position_in_prefix(keys: Seq<Seq<char>>, key: Seq<char>, n: int)
    requires
        0 <= n <= keys.len(),
        position_of(keys.take(n), key) is Some,
    ensures
        position_of(keys, key) == position_of(keys.take(n), key),
    decreases keys.len() - n,
{
    if n < keys.len() {
        assert(keys.take(n + 1).drop_last() =~= keys.take(n));
        lemma_position_in_prefix(keys, key, n + 1);
    } else {
        assert(keys.take(n) =~= keys);
    }
}

/// `position_of` names an index holding the key, and no earlier one does.
proof fn lemma_position_found(keys: Seq<Seq<char>>, key: Seq<char>)
    ensures
        position_of(keys, key) matches Some(i) ==> 0 <= i < keys.len() && keys[i] == key,
        position_of(keys, key) is None ==> forall|j: int| 0 <= j < keys.len() ==> keys[j] != key,
    decreases keys.len(),
{
    if keys.len() > 0 {
        lemma_position_found(keys.drop_last(), key);
        assert forall|j: int| 0 <= j < keys.len() - 1 implies keys[j] == keys.drop_last()[j] by {}
    }
}

/// Where an asset path stands in a level's asset cache.
#[derive(Debug, Clone, Copy, PartialEq, Eq, Structural)]
pub enum CacheSlot {
    /// Already tried: its slot, or `None` when it could not be loaded.
    Cached(Option<usize>),
    /// Not yet tried, and there is room for one more asset: read and parse
    /// it, then [`AssetCache::record`] the outcome.
    Load,
    /// Not yet tried, but the cache already holds as many assets as its
    /// cap: record it as missing.
    Full,
}

/// The larger of two counts.
pub open spec fn larger(a: int, b: int) -> int {
    if a < b {
        b
    } else {
        a
    }
}

/// The slot of `keys` holding `key`, if any.
fn find_key(keys: &Vec<String>, key: &str) -> (slot: Option<usize>)
    ensures
        match slot {
            Some(j) => j < keys@.len() && keys@[j as int]@ == key@,
            None => forall|x: int| 0 <= x < keys@.len() ==> keys@[x]@ != key@,
        },
{
    let mut j: usize = 0;
    while j < keys.len()
        invariant
            j <= keys@.len(),
            forall|x: int| 0 <= x < j ==> keys@[x]@ != key@,
        decreases keys@.len() - j,
    {
        if same_text(keys[j].as_str(), key) {
            return Some(j);
        }
        j = j + 1;
    }
    None
}

/// The assets (studio models, sprites) a level has tried to load, keyed by
/// lower-cased asset path: every path is tried once, a path that loads gets
/// the next slot, and no asset is loaded once the cache holds as many as
/// its cap.
pub struct AssetCache {
    keys: Vec<String>,
    slots: Vec<Option<usize>>,
    paths: Vec<String>,
    cap: usize,
    seeded: usize,
}

impl AssetCache {
    /// Every path tried, in the order first tried.
    pub closed spec fn tried(&self) -> Seq<Seq<char>> {
        self.keys@.map_values(|k: String| k@)
    }

    /// The outcome for each tried path: its slot, or `None` when it could
    /// not be loaded.
    pub closed spec fn outcomes(&self) -> Seq<Option<usize>> {
        self.slots@
    }

    /// The path of each loaded asset, by slot.
    pub closed spec fn loaded(&self) -> Seq<Seq<char>> {
        self.paths@.map_values(|p: String| p@)
    }

    /// How many assets the cache loads at most.
    pub closed spec fn cap(&self) -> int {
        self.cap as int
    }

    /// How many loaded assets the cache started from.
    pub closed spec fn seeded(&self) -> int {
        self.seeded as int
    }

    /// The cache's invariant: one outcome per tried path, no path tried
    /// twice, each loaded slot naming its own path, and no more assets than
    /// the larger of its cap and what it started from.
    pub closed spec fn wf(&self) -> bool {
        &&& self.keys@.len() == self.slots@.len()
        &&& forall|a: int, b: int|
            0 <= a < b < self.keys@.len() ==> self.keys@[a]@ != self.keys@[b]@
        &&& forall|i: int|
            0 <= i < self.slots@.len() ==> (#[trigger] self.slots@[i] matches Some(s) ==> s
                < self.paths@.len() && self.paths@[s as int]@ == self.keys@[i]@)
        &&& self.paths@.len() <= larger(self.cap as int, self.seeded as int)
    }

    /// An empty cache that loads at most `cap` assets.
    pub fn new(cap: usize) -> (cache: Self)
        ensures
            cache.wf(),
            cache.tried() == Seq::<Seq<char>>::empty(),
            cache.outcomes() == Seq::<Option<usize>>::empty(),
            cache.loaded() == Seq::<Seq<char>>::empty(),
            cache.cap() == cap,
            cache.seeded() == 0,
    {
        let cache = AssetCache {
            keys: Vec::new(),
            slots: Vec::new(),
            paths: Vec::new(),
            cap,
            seeded: 0,
        };
        assert(cache.tried() =~= Seq::<Seq<char>>::empty());
        assert(cache.loaded() =~= Seq::<Seq<char>>::empty());
        cache
    }

    /// A cache that already holds the assets loaded from `paths`, in slot
    /// order, and loads at most `cap` assets in all: each of those paths is
    /// cached with the last slot that holds it; no other path has been
    /// tried.
    pub fn from_loaded(paths: &[String], cap: usize) -> (cache: Self)
        ensures
            cache.wf(),
            cache.loaded() == paths@.map_values(|p: String| p@),
            cache.cap() == cap,
            cache.seeded() == paths@.len(),
            forall|k: Seq<char>|
                #![trigger position_of(cache.tried(), k)]
                match position_of(cache.tried(), k) {
                    Some(i) => exists|s: int|
                        0 <= s < paths@.len() && paths@[s]@ == k && cache.outcomes()[i] == Some(
                            s as usize,
                        ) && forall|t: int| s < t < paths@.len() ==> paths@[t]@ != k,
                    None => forall|s: int| 0 <= s < paths@.len() ==> paths@[s]@ != k,
                },
    {
        let mut keys: Vec<String> = Vec::new();
        let mut slots: Vec<Option<usize>> = Vec::new();
        let mut loaded: Vec<String> = Vec::new();
        let mut i: usize = 0;
        while i < paths.len()
            invariant
                i <= paths@.len(),
                keys@.len() == slots@.len(),
                loaded@ == paths@.take(i as int),
                forall|a: int, b: int| 0 <= a < b < keys@.len() ==> keys@[a]@ != keys@[b]@,
                forall|j: int|
                    0 <= j < slots@.len() ==> (#[trigger] slots@[j] matches Some(s) && s < i
                        && paths@[s as int]@ == keys@[j]@ && forall|t: int|
                        s < t < i ==> paths@[t]@ != keys@[j]@),
                forall|s: int|
                    0 <= s < i ==> exists|j: int|
                        0 <= j < keys@.len() && #[trigger] keys@[j]@ == (#[trigger] paths@[s])@,
            decreases paths@.len() - i,
        {
            let path = paths[i].as_str();
            let ghost keys_before = keys@;
            let ghost slots_before = slots@;
            let ghost mut witness: int = 0;
            match find_key(&keys, path) {
                Some(j) => {
                    slots.set(j, Some(i));
                    proof {
                        witness = j as int;
                    }
                    proof {
                        assert forall|x: int| 0 <= x < slots@.len() implies (#[trigger] slots@[x]
                            matches Some(s) && s < i + 1 && paths@[s as int]@ == keys@[x]@
                            && forall|t: int| s < t < i + 1 ==> paths@[t]@ != keys@[x]@) by {
                            if x != j {
                                assert(slots@[x] == slots_before[x]);
                                assert(keys@[x]@ != keys@[j as int]@);
                            }
                        }
                    }
                },
                None => {
                    keys.push(path.to_owned());
                    slots.push(Some(i));
                    proof {
                        witness = keys_before.len() as int;
                        assert forall|a: int, b: int| 0 <= a < b < keys@.len() implies keys@[a]@
                            != keys@[b]@ by {
                            if b < keys_before.len() {
                                assert(keys@[a] == keys_before[a] && keys@[b] == keys_before[b]);
                            } else {
                                assert(keys@[a] == keys_before[a]);
                            }
                        }
                        assert forall|x: int| 0 <= x < slots@.len() implies (#[trigger] slots@[x]
                            matches Some(s) && s < i + 1 && paths@[s as int]@ == keys@[x]@
                            && forall|t: int| s < t < i + 1 ==> paths@[t]@ != keys@[x]@) by {
                            if x < slots_before.len() {
                                assert(slots@[x] == slots_before[x]);
                                assert(keys@[x] == keys_before[x]);
                            }
                        }
                    }
                },
            }
            loaded.push(paths[i].clone());
            proof {
                assert(loaded@ =~= paths@.take(i + 1));
                assert forall|s: int| 0 <= s < i + 1 implies exists|j: int|
                    0 <= j < keys@.len() && #[trigger] keys@[j]@ == (#[trigger] paths@[s])@ by {
                    if s < i {
                        let j = choose|j: int|
                            0 <= j < keys_before.len() && keys_before[j]@ == paths@[s]@;
                        assert(keys@[j] == keys_before[j]);
                    } else {
                        assert(0 <= witness < keys@.len() && keys@[witness]@ == paths@[s]@);
                    }
                }
            }
            i = i + 1;
        }
        let cache = AssetCache { keys, slots, paths: loaded, cap, seeded: paths.len() };
        proof {
            assert(loaded@ =~= paths@);
            assert forall|k: Seq<char>|
                #![trigger position_of(cache.tried(), k)]
                match position_of(cache.tried(), k) {
                    Some(x) => exists|s: int|
                        0 <= s < paths@.len() && paths@[s]@ == k && cache.outcomes()[x] == Some(
                            s as usize,
                        ) && forall|t: int| s < t < paths@.len() ==> paths@[t]@ != k,
                    None => forall|s: int| 0 <= s < paths@.len() ==> paths@[s]@ != k,
                } by {
                lemma_position_found(cache.tried(), k);
                match position_of(cache.tried(), k) {
                    Some(x) => {
                        assert(cache.tried()[x] == cache.keys@[x]@);
                        let s = cache.slots@[x]->0;
                        assert(paths@[s as int]@ == k);
                    },
                    None => {
                        assert forall|s: int| 0 <= s < paths@.len() implies paths@[s]@ != k by {
                            let j = choose|j: int|
                                0 <= j < cache.keys@.len() && cache.keys@[j]@ == paths@[s]@;
                            assert(cache.tried()[j] == cache.keys@[j]@);
                        }
                    },
                }
            }
        }
        cache
    }

    /// The first slot holding the asset loaded from `path` (compared
    /// lower-cased), if any.
    pub fn find_loaded(&self, path: &str) -> (slot: Option<usize>)
        ensures
            match slot {
                Some(s) => position_of(self.loaded(), ascii_lower(path@)) == Some(s as int),
                None => position_of(self.loaded(), ascii_lower(path@)) is None,
            },
    {
        let needle = to_ascii_lowercase(path);
        let mut i: usize = 0;
        while i < self.paths.len()
            invariant
                i <= self.paths@.len(),
                needle@ == ascii_lower(path@),
                position_of(self.loaded().take(i as int), needle@) is None,
            decreases self.paths@.len() - i,
        {
            proof {
                assert(self.loaded().take(i + 1).drop_last() =~= self.loaded().take(i as int));
                assert(self.loaded().take(i + 1).last() == self.paths@[i as int]@);
            }
            if self.paths[i] == needle {
                proof {
                    lemma_position_in_prefix(self.loaded(), needle@, i + 1);
                }
                return Some(i);
            }
            i = i + 1;
        }
        proof {
            assert(self.loaded().take(i as int) =~= self.loaded());
        }
        None
    }

    /// How many assets are loaded.
    pub fn loaded_count(&self) -> (n: usize)
        ensures
            n == self.loaded().len(),
    {
        self.paths.len()
    }

    /// How many paths have been tried.
    pub fn tried_count(&self) -> (n: usize)
        requires
            self.wf(),
        ensures
            n == self.tried().len(),
            n == self.outcomes().len(),
    {
        self.keys.len()
    }

    /// Where `key` stands: its cached outcome when already tried,
    /// otherwise [`CacheSlot::Load`] while there is room for another asset
    /// and [`CacheSlot::Full`] once there is not.
    pub fn lookup(&self, key: &str) -> (slot: CacheSlot)
        requires
            self.wf(),
        ensures
            slot == match position_of(self.tried(), key@) {
                Some(i) => CacheSlot::Cached(self.outcomes()[i]),
                None => if self.loaded().len() >= self.cap() {
                    CacheSlot::Full
                } else {
                    CacheSlot::Load
                },
            },
    {
        let mut i: usize = 0;
        while i < self.keys.len()
            invariant
                i <= self.keys@.len(),
                self.wf(),
                position_of(self.tried().take(i as int), key@) is None,
            decreases self.keys@.len() - i,
        {
            proof {
                assert(self.tried().take(i + 1).drop_last() =~= self.tried().take(i as int));
                assert(self.tried().take(i + 1).last() == self.keys@[i as int]@);
            }
            if same_text(self.keys[i].as_str(), key) {
                proof {
                    lemma_position_in_prefix(self.tried(), key@, i + 1);
                }
                return CacheSlot::Cached(self.slots[i]);
            }
            i = i + 1;
        }
        proof {
            assert(self.tried().take(i as int) =~= self.tried());
        }
        if self.paths.len() >= self.cap {
            CacheSlot::Full
        } else {
            CacheSlot::Load
        }
    }

    /// Records the outcome for a path not tried before: the next slot when
    /// the asset loaded and there is room for it, otherwise `None` (a
    /// missing asset). Returns the slot recorded.
    pub fn record(&mut self, key: &str, loaded: bool) -> (slot: Option<usize>)
        requires
            old(self).wf(),
            position_of(old(self).tried(), key@) is None,
        ensures
            final(self).wf(),
            final(self).cap() == old(self).cap(),
            final(self).seeded() == old(self).seeded(),
            slot == if loaded && old(self).loaded().len() < old(self).cap() {
                Some(old(self).loaded().len() as usize)
            } else {
                None::<usize>
            },
            final(self).tried() == old(self).tried().push(key@),
            final(self).outcomes() == old(self).outcomes().push(slot),
            final(self).loaded() == if slot is Some {
                old(self).loaded().push(key@)
            } else {
                old(self).loaded()
            },
    {
        proof {
            lemma_position_found(self.tried(), key@);
        }
        let slot = if loaded && self.paths.len() < self.cap {
            let s = self.paths.len();
            self.paths.push(key.to_owned());
            Some(s)
        } else {
            None
        };
        let ghost keys_before = self.keys@;
        let ghost slots_before = self.slots@;
        self.keys.push(key.to_owned());
        self.slots.push(slot);
        proof {
            assert(self.tried() =~= old(self).tried().push(key@));
            assert(self.loaded() =~= if slot is Some {
                old(self).loaded().push(key@)
            } else {
                old(self).loaded()
            });
            assert forall|a: int, b: int| 0 <= a < b < self.keys@.len() implies self.keys@[a]@
                != self.keys@[b]@ by {
                if b == keys_before.len() {
                    assert(old(self).tried()[a] == keys_before[a]@);
                } else {
                    assert(self.keys@[a] == keys_before[a] && self.keys@[b] == keys_before[b]);
                }
            }
            assert forall|i: int| 0 <= i < self.slots@.len() implies (#[trigger] self.slots@[i]
                matches Some(s) ==> s < self.paths@.len() && self.paths@[s as int]@
                == self.keys@[i]@) by {
                if i < slots_before.len() {
                    assert(self.slots@[i] == slots_before[i]);
                    assert(self.keys@[i] == keys_before[i]);
                    if let Some(s) = slots_before[i] {
                        assert(self.paths@[s as int] == old(self).paths@[s as int]);
                    }
                }
            }
        }
        slot
    }

    /// Settles one entity's asset at `key`, `loaded` telling whether the
    /// asset there reads and parses (consulted only when `key` is untried
    /// and there is room for it, the [`CacheSlot::Load`] case). An already
    /// tried path keeps its outcome and counts as nothing new; an untried
    /// one is recorded as [`AssetCache::record`] does. Returns the slot the
    /// entity draws with and whether it counts as a newly missing asset.
    pub fn settle(&mut self, key: &str, loaded: bool) -> (r: (Option<usize>, bool))
        requires
            old(self).wf(),
        ensures
            final(self).wf(),
            final(self).cap() == old(self).cap(),
            final(self).seeded() == old(self).seeded(),
            match position_of(old(self).tried(), key@) {
                Some(i) => {
                    &&& r == (old(self).outcomes()[i], false)
                    &&& final(self).tried() == old(self).tried()
                    &&& final(self).outcomes() == old(self).outcomes()
                    &&& final(self).loaded() == old(self).loaded()
                },
                None => {
                    &&& r.0 == if loaded && old(self).loaded().len() < old(self).cap() {
                        Some(old(self).loaded().len() as usize)
                    } else {
                        None::<usize>
                    }
                    &&& r.1 == r.0 is None
                    &&& final(self).tried() == old(self).tried().push(key@)
                    &&& final(self).outcomes() == old(self).outcomes().push(r.0)
                    &&& final(self).loaded() == if r.0 is Some {
                        old(self).loaded().push(key@)
                    } else {
                        old(self).loaded()
                    }
                },
            },
    {
        match self.lookup(key) {
            CacheSlot::Cached(slot) => (slot, false),
            CacheSlot::Full => {
                let slot = self.record(key, false);
                (slot, true)
            },
            CacheSlot::Load => {
                let slot = self.record(key, loaded);
                (slot, slot.is_none())
            },
        }
    }
}

/// A level's asset cache tries every path once, never loads an asset once
/// it holds as many as its cap (beyond those it started from), and each
/// loaded slot names the path it was loaded from.
pub proof fn lemma_cache_tries_each_path_once(cache: AssetCache)
    requires
        cache.wf(),
    ensures
        cache.tried().len() == cache.outcomes().len(),
        forall|a: int, b: int| 0 <= a < b < cache.tried().len() ==> cache.tried()[a] != cache.tried()[b],
        cache.loaded().len() <= larger(cache.cap(), cache.seeded()),
        forall|i: int|
            0 <= i < cache.outcomes().len() ==> (#[trigger] cache.outcomes()[i] matches Some(s) ==> s
                < cache.loaded().len() && cache.loaded()[s as int] == cache.tried()[i]),
{
}

/// Characters the Unicode `White_Space` property covers.
pub open spec fn is_white_space(c: char) -> bool {
    ||| ('\u{9}' <= c && c <= '\u{d}')
    ||| c == ' '
    ||| c == '\u{85}'
    ||| c == '\u{a0}'
    ||| c == '\u{1680}'
    ||| ('\u{2000}' <= c && c <= '\u{200a}')
    ||| c == '\u{2028}'
    ||| c == '\u{2029}'
    ||| c == '\u{202f}'
    ||| c == '\u{205f}'
    ||| c == '\u{3000}'
}

/// `s` without its leading white space.
pub open spec fn trim_start(s: Seq<char>) -> Seq<char>
    decreases s.len(),
{
    if s.len() > 0 && is_white_space(s[0]) {
        trim_start(s.subrange(1, s.len() as int))
    } else {
        s
    }
}

/// `s` without its trailing white space.
pub open spec fn trim_end(s: Seq<char>) -> Seq<char>
    decreases s.len(),
{
    if s.len() > 0 && is_white_space(s.last()) {
        trim_end(s.drop_last())
    } else {
        s
    }
}

/// `s` without leading and trailing white space.
pub open spec fn trimmed(s: Seq<char>) -> Seq<char> {
    trim_end(trim_start(s))
}

/// Whether `c` is white space in the sense of [`is_white_space`].
fn white_space(c: char) -> (r: bool)
    ensures
        r == is_white_space(c),
{
    ('\u{9}' <= c && c <= '\u{d}') || c == ' ' || c == '\u{85}' || c == '\u{a0}' || c == '\u{1680}'
        || ('\u{2000}' <= c && c <= '\u{200a}') || c == '\u{2028}' || c == '\u{2029}' || c
        == '\u{202f}' || c == '\u{205f}' || c == '\u{3000}'
}

/// `s` with leading and trailing white space removed, white space being
/// the characters of the Unicode `White_Space` property, as `str::trim`
/// removes it.
pub(crate) fn trim(s: &str) -> (t: &str)
    ensures
        t@ == trimmed(s@),
{
    let n = s.unicode_len();
    let mut start: usize = 0;
    proof {
        assert(s@.subrange(0, n as int) =~= s@);
    }
    while start < n && white_space(s.get_char(start))
        invariant
            n == s@.len(),
            start <= n,
            trim_start(s@) == trim_start(s@.subrange(start as int, n as int)),
        decreases n - start,
    {
        proof {
            let rest = s@.subrange(start as int, n as int);
            assert(rest.subrange(1, rest.len() as int) =~= s@.subrange(start + 1, n as int));
        }
        start = start + 1;
    }
    proof {
        let rest = s@.subrange(start as int, n as int);
        assert(trim_start(rest) == rest);
        assert(s@.subrange(start as int, n as int) =~= rest);
    }
    let mut end: usize = n;
    while end > start && white_space(s.get_char(end - 1))
        invariant
            n == s@.len(),
            start <= end <= n,
            trim_start(s@) == s@.subrange(start as int, n as int),
            trim_end(s@.subrange(start as int, n as int)) == trim_end(
                s@.subrange(start as int, end as int),
            ),
        decreases end - start,
    {
        proof {
            let part = s@.subrange(start as int, end as int);
            assert(part.drop_last() =~= s@.subrange(start as int, end - 1));
            assert(part.last() == s@[end - 1]);
        }
        end = end - 1;
    }
    proof {
        let part = s@.subrange(start as int, end as int);
        assert(trim_end(part) == part);
    }
    s.substring_char(start, end)
}

/// Whether every character of `s` is an ASCII digit.
pub open spec fn all_digits(s: Seq<char>) -> bool {
    forall|i: int| 0 <= i < s.len() ==> '0' <= #[trigger] s[i] && s[i] <= '9'
}

/// The value of the decimal digits `s`.
pub open spec fn digits_value(s: Seq<char>) -> int
    decreases s.len(),
{
    if s.len() == 0 {
        0
    } else {
        digits_value(s.drop_last()) * 10 + (s.last() as int - '0' as int)
    }
}

/// The unsigned number `s` spells, when it is one no larger than `max`: an
/// optional `+`, then one or more ASCII digits.
pub open spec fn parsed_unsigned(s: Seq<char>, max: int) -> Option<int> {
    let digits = if s.len() > 0 && s[0] == '+' {
        s.subrange(1, s.len() as int)
    } else {
        s
    };
    if digits.len() > 0 && all_digits(digits) && digits_value(digits) <= max {
        Some(digits_value(digits))
    } else {
        None
    }
}

/// A longer run of digits is worth at least as much as its prefix.
proof fn lemma_digits_grow(s: Seq<char>, k: int)
    requires
        0 <= k <= s.len(),
        all_digits(s),
    ensures
        digits_value(s.take(k)) <= digits_value(s),
        digits_value(s) >= 0,
    decreases s.len() - k,
{
    if k < s.len() {
        lemma_digits_grow(s, k + 1);
        assert(s.take(k + 1).drop_last() =~= s.take(k));
        assert('0' <= s[k] && s[k] <= '9');
        lemma_digits_nonneg(s.take(k));
    } else {
        assert(s.take(k) =~= s);
        lemma_digits_nonneg(s);
    }
}

proof fn lemma_digits_nonneg(s: Seq<char>)
    requires
        all_digits(s),
    ensures
        digits_value(s) >= 0,
    decreases s.len(),
{
    if s.len() > 0 {
        assert(all_digits(s.drop_last()));
        lemma_digits_nonneg(s.drop_last());
        assert('0' <= s[s.len() - 1]);
    }
}

/// Parses the unsigned number `text` spells, as [`parsed_unsigned`] says.
pub(crate) fn parse_unsigned(text: &str, max: u64) -> (n: Option<u64>)
    ensures
        match n {
            Some(v) => parsed_unsigned(text@, max as int) == Some(v as int),
            None => parsed_unsigned(text@, max as int) is None,
        },
{
    let len = text.unicode_len();
    let start: usize = if len > 0 && text.get_char(0) == '+' {
        1
    } else {
        0
    };
    let ghost digits = text@.subrange(start as int, len as int);
    proof {
        assert(digits =~= if text@.len() > 0 && text@[0] == '+' {
            text@.subrange(1, text@.len() as int)
        } else {
            text@
        });
    }
    if start >= len {
        return None;
    }
    let mut value: u64 = 0;
    let mut i: usize = start;
    while i < len
        invariant
            start <= i <= len,
            len == text@.len(),
            digits == text@.subrange(start as int, len as int),
            digits == if text@.len() > 0 && text@[0] == '+' {
                text@.subrange(1, text@.len() as int)
            } else {
                text@
            },
            digits.len() > 0,
            all_digits(digits.take(i - start)),
            value == digits_value(digits.take(i - start)),
            value <= max,
        decreases len - i,
    {
        let c = text.get_char(i);
        proof {
            assert(digits.take(i + 1 - start).drop_last() =~= digits.take(i - start));
            assert(digits.take(i + 1 - start).last() == c);
        }
        if c < '0' || c > '9' {
            proof {
                assert(!('0' <= digits[i - start] && digits[i - start] <= '9'));
            }
            return None;
        }
        let d: u64 = (c as u64) - ('0' as u64);
        if d > max || value > (max - d) / 10 {
            proof {
                assert(all_digits(digits.take(i + 1 - start)));
                assert(digits_value(digits.take(i + 1 - start)) == value * 10 + d);
                assert(value * 10 + d > max) by (nonlinear_arith)
                    requires
                        d > max || value > (max - d) / 10,
                        d <= 9,
                ;
                if all_digits(digits) {
                    lemma_digits_grow(digits, i + 1 - start);
                }
            }
            return None;
        }
        proof {
            assert(value * 10 + d <= max) by (nonlinear_arith)
                requires
                    value <= (max - d) / 10,
                    d <= max,
            ;
        }
        value = value * 10 + d;
        i = i + 1;
    }
    proof {
        assert(digits.take(len - start) =~= digits);
    }
    Some(value)
}

/// The number a numeric placement keyvalue (`sequence`, `skin`) reads as:
/// the value, trimmed of white space, when it spells an unsigned number
/// that fits a `usize`; otherwise (or when absent) `0`.
pub fn keyvalue_index(value: Option<&str>) -> (n: usize)
    ensures
        n == match value {
            Some(v) => match parsed_unsigned(trimmed(v@), usize::MAX as int) {
                Some(k) => k,
                None => 0,
            },
            None => 0,
        },
{
    match value {
        Some(v) => match parse_unsigned(trim(v), usize::MAX as u64) {
            Some(k) => k as usize,
            None => 0,
        },
        None => 0,
    }
}

/// The number the `body` placement keyvalue reads as: the value, trimmed of
/// white space, when it spells an unsigned number that fits a `u32`;
/// otherwise (or when absent) `0`.
pub fn keyvalue_body(value: Option<&str>) -> (n: u32)
    ensures
        n == match value {
            Some(v) => match parsed_unsigned(trimmed(v@), u32::MAX as int) {
                Some(k) => k,
                None => 0,
            },
            None => 0,
        },
{
    match value {
        Some(v) => match parse_unsigned(trim(v), u32::MAX as u64) {
            Some(k) => k as u32,
            None => 0,
        },
        None => 0,
    }
}


/// How many of `outcomes` are `None`: paths whose asset could not be
/// loaded.
pub open spec fn none_count(outcomes: Seq<Option<usize>>) -> nat
    decreases outcomes.len(),
{
    if outcomes.len() == 0 {
        0
    } else {
        none_count(outcomes.drop_last()) + if outcomes.last() is None {
            1nat
        } else {
            0nat
        }
    }
}

/// No more paths are missing than were tried.
proof fn lemma_none_count_bound(outcomes: Seq<Option<usize>>)
    ensures
        none_count(outcomes) <= outcomes.len(),
    decreases outcomes.len(),
{
    if outcomes.len() > 0 {
        lemma_none_count_bound(outcomes.drop_last());
    }
}

/// One studio-model pass over consecutive entity definitions, the first
/// numbered `base`: it places each definition's model through the level's
/// asset cache, pairing every placed definition's index with its model
/// slot, and counts the assets that could not be loaded.
pub struct ModelPlacer {
    cache: AssetCache,
    def_indices: Vec<usize>,
    slots: Vec<usize>,
    missing: usize,
    base: usize,
    next: usize,
    start: Ghost<int>,
}

impl ModelPlacer {
    /// The level's asset cache as the pass has left it so far.
    pub closed spec fn cache(&self) -> AssetCache {
        self.cache
    }

    /// The index of each placed definition, in placement order.
    pub closed spec fn def_indices(&self) -> Seq<usize> {
        self.def_indices@
    }

    /// The model slot of each placed definition, in placement order.
    pub closed spec fn slots(&self) -> Seq<usize> {
        self.slots@
    }

    /// How many assets this pass found missing.
    pub closed spec fn missing(&self) -> int {
        self.missing as int
    }

    /// The index of the first definition.
    pub closed spec fn base(&self) -> int {
        self.base as int
    }

    /// How many definitions the pass has gone through.
    pub closed spec fn next(&self) -> int {
        self.next as int
    }

    /// How many paths the cache had tried before this pass.
    pub closed spec fn start(&self) -> int {
        self.start@
    }

    /// The pass's invariant: placements pair one to one with definitions
    /// taken in order (strictly increasing indices, each among those gone
    /// through), every slot names a loaded asset, and the missing count is
    /// the number of paths this pass tried whose asset could not be loaded.
    pub closed spec fn wf(&self) -> bool {
        &&& self.cache.wf()
        &&& 0 <= self.start@ <= self.cache.tried().len()
        &&& self.def_indices@.len() == self.slots@.len()
        &&& self.base + self.next <= usize::MAX
        &&& forall|j: int|
            0 <= j < self.def_indices@.len() ==> self.base <= #[trigger] self.def_indices@[j]
                < self.base + self.next
        &&& forall|j: int, k: int|
            0 <= j < k < self.def_indices@.len() ==> #[trigger] self.def_indices@[j]
                < #[trigger] self.def_indices@[k]
        &&& forall|j: int|
            0 <= j < self.slots@.len() ==> #[trigger] self.slots@[j] < self.cache.loaded().len()
        &&& self.missing == none_count(self.cache.outcomes().skip(self.start@))
    }

    /// A pass over definitions numbered from `base`, through `cache`.
    pub fn new(cache: AssetCache, base: usize) -> (placer: Self)
        requires
            cache.wf(),
        ensures
            placer.wf(),
            placer.cache() == cache,
            placer.def_indices() == Seq::<usize>::empty(),
            placer.slots() == Seq::<usize>::empty(),
            placer.missing() == 0,
            placer.base() == base,
            placer.next() == 0,
            placer.start() == cache.tried().len(),
    {
        proof {
            lemma_cache_tries_each_path_once(cache);
            assert(cache.outcomes().skip(cache.tried().len() as int) =~= Seq::<Option<usize>>::empty());
        }
        ModelPlacer {
            cache,
            def_indices: Vec::new(),
            slots: Vec::new(),
            missing: 0,
            base,
            next: 0,
            start: Ghost(cache.tried().len() as int),
        }
    }

    /// Whether the asset at `key` must be read and parsed before
    /// [`ModelPlacer::place`] settles it: `key` is untried and the cache
    /// has room for another asset.
    pub fn needs_load(&self, key: &str) -> (r: bool)
        requires
            self.wf(),
        ensures
            r == (position_of(self.cache().tried(), key@) is None && self.cache().loaded().len()
                < self.cache().cap()),
    {
        match self.cache.lookup(key) {
            CacheSlot::Load => true,
            _ => false,
        }
    }

    /// Places the next definition (`classname`, its `model` keyvalue and
    /// its monster kind's `default_model`): resolves its studio-model key,
    /// settles the asset there (`loaded` telling whether it reads and
    /// parses, consulted only when [`ModelPlacer::needs_load`] says so),
    /// pairs the definition's index with the slot when it has one, and
    /// counts a newly missing asset. Returns the key, resolved as
    /// [`studio_model_key`] resolves it (see [`model_key_law`]), and the
    /// slot.
    pub fn place(
        &mut self,
        classname: &str,
        model: &Option<ModelKeyvalue>,
        default_model: Option<&str>,
        loaded: bool,
    ) -> (r: (Option<String>, Option<usize>))
        requires
            old(self).wf(),
            old(self).base() + old(self).next() < usize::MAX,
        ensures
            final(self).wf(),
            final(self).base() == old(self).base(),
            final(self).start() == old(self).start(),
            final(self).next() == old(self).next() + 1,
            final(self).cache().cap() == old(self).cache().cap(),
            final(self).cache().seeded() == old(self).cache().seeded(),
            old(self).cache().loaded().is_prefix_of(final(self).cache().loaded()),
            is_sprite_only_class(classname@) ==> r.0 is None,
            model_key_law(model_candidate(classname@, *model, text_of(default_model)), string_text(r.0)),
            match r.0 {
                None => {
                    &&& r.1 is None
                    &&& final(self).cache() == old(self).cache()
                    &&& final(self).missing() == old(self).missing()
                },
                Some(k) => match position_of(old(self).cache().tried(), k@) {
                    Some(i) => {
                        &&& r.1 == old(self).cache().outcomes()[i]
                        &&& final(self).cache().tried() == old(self).cache().tried()
                        &&& final(self).cache().outcomes() == old(self).cache().outcomes()
                        &&& final(self).cache().loaded() == old(self).cache().loaded()
                        &&& final(self).missing() == old(self).missing()
                    },
                    None => {
                        &&& r.1 == if loaded && old(self).cache().loaded().len() < old(
                            self,
                        ).cache().cap() {
                            Some(old(self).cache().loaded().len() as usize)
                        } else {
                            None::<usize>
                        }
                        &&& final(self).cache().tried() == old(self).cache().tried().push(k@)
                        &&& final(self).cache().outcomes() == old(self).cache().outcomes().push(
                            r.1,
                        )
                        &&& final(self).cache().loaded() == if r.1 is Some {
                            old(self).cache().loaded().push(k@)
                        } else {
                            old(self).cache().loaded()
                        }
                        &&& final(self).missing() == old(self).missing() + if r.1 is None {
                            1int
                        } else {
                            0
                        }
                    },
                },
            },
            match r.1 {
                Some(slot) => {
                    &&& final(self).def_indices() == old(self).def_indices().push(
                        (old(self).base() + old(self).next()) as usize,
                    )
                    &&& final(self).slots() == old(self).slots().push(slot)
                },
                None => {
                    &&& final(self).def_indices() == old(self).def_indices()
                    &&& final(self).slots() == old(self).slots()
                },
            },
    {
        let index = self.base + self.next;
        let key = studio_model_key(classname, model, default_model);
        proof {
            if is_sprite_only_class(classname@) {
                assert(model_candidate(classname@, *model, text_of(default_model)) is None);
            }
        }
        let slot = match &key {
            None => None,
            Some(k) => {
                let ghost before = self.cache;
                let (slot, newly_missing) = self.cache.settle(k.as_str(), loaded);
                let tried = self.cache.tried_count();
                proof {
                    lemma_cache_tries_each_path_once(before);
                    lemma_cache_tries_each_path_once(self.cache);
                    lemma_position_found(before.tried(), k@);
                    let now = self.cache.outcomes().skip(self.start@);
                    lemma_none_count_bound(now);
                    if position_of(before.tried(), k@) is None {
                        let was = before.outcomes().skip(self.start@);
                        assert(now =~= was.push(slot));
                        assert(now.drop_last() =~= was);
                        assert(none_count(now) == none_count(was) + if slot is None {
                            1nat
                        } else {
                            0nat
                        });
                    }
                    assert(now.len() <= tried);
                    if let Some(s) = slot {
                        if let Some(i) = position_of(before.tried(), k@) {
                            assert(before.outcomes()[i] matches Some(x) ==> x < before.loaded().len());
                        }
                        assert(s < self.cache.loaded().len());
                    }
                    assert(before.loaded().len() <= self.cache.loaded().len());
                }
                if newly_missing {
                    self.missing = self.missing + 1;
                }
                slot
            },
        };
        let ghost old_indices = self.def_indices@;
        match slot {
            Some(s) => {
                self.def_indices.push(index);
                self.slots.push(s);
            },
            None => {},
        }
        self.next = self.next + 1;
        proof {
            assert forall|j: int| 0 <= j < self.def_indices@.len() implies self.base
                <= #[trigger] self.def_indices@[j] < self.base + self.next by {
                if j < old_indices.len() {
                    assert(self.def_indices@[j] == old_indices[j]);
                }
            }
            assert forall|j: int, k: int|
                0 <= j < k < self.def_indices@.len() implies #[trigger] self.def_indices@[j]
                < #[trigger] self.def_indices@[k] by {
                if k < old_indices.len() {
                    assert(self.def_indices@[j] == old_indices[j]);
                    assert(self.def_indices@[k] == old_indices[k]);
                } else {
                    assert(self.def_indices@[j] == old_indices[j]);
                }
            }
            assert forall|j: int| 0 <= j < self.slots@.len() implies #[trigger] self.slots@[j]
                < self.cache.loaded().len() by {
                if j < old(self).slots@.len() {
                    assert(self.slots@[j] == old(self).slots@[j]);
                }
            }
        }
        (key, slot)
    }

    /// The finished pass: the cache, each placed definition's index and
    /// model slot (paired by position), and how many assets were missing.
    pub fn finish(self) -> (r: (AssetCache, Vec<usize>, Vec<usize>, usize))
        requires
            self.wf(),
        ensures
            r.0 == self.cache(),
            r.0.wf(),
            r.1@ == self.def_indices(),
            r.2@ == self.slots(),
            r.3 == self.missing(),
    {
        (self.cache, self.def_indices, self.slots, self.missing)
    }
}

/// A studio-model pass pairs its placements one to one with the
/// definitions it went through, in strictly increasing index order within
/// `base..base + next`; every placement's slot names a loaded asset; the
/// missing count is exactly the number of paths the pass newly tried whose
/// asset could not be loaded; and the cache never holds more assets than
/// the larger of its cap and what it started from.
pub proof fn lemma_placement_is_consistent(placer: ModelPlacer)
    requires
        placer.wf(),
    ensures
        placer.def_indices().len() == placer.slots().len(),
        forall|j: int|
            0 <= j < placer.def_indices().len() ==> placer.base() <= #[trigger] placer.def_indices()[j]
                < placer.base() + placer.next(),
        forall|j: int, k: int|
            0 <= j < k < placer.def_indices().len() ==> #[trigger] placer.def_indices()[j]
                < #[trigger] placer.def_indices()[k],
        forall|j: int|
            0 <= j < placer.slots().len() ==> #[trigger] placer.slots()[j]
                < placer.cache().loaded().len(),
        placer.missing() == none_count(placer.cache().outcomes().skip(placer.start())),
        placer.cache().loaded().len() <= larger(placer.cache().cap(), placer.cache().seeded()),
{
    lemma_cache_tries_each_path_once(placer.cache());
}

} // verus!
