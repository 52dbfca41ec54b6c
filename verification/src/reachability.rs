//! The bounded, round-by-round reachability report built on
//! [`crate::walk::GridWalk`].
//!
//! Each round walks the grid from the spawn point, classifies the brushes
//! on the unreached frontier by classname (how many distinct entities, and
//! whether any of them could be opened by use, by damage or by pushing),
//! and lists the brushes to detach before the next round: closed doors
//! within use reach of a reached cell, breakables openable by damage (only
//! when an armed player is assumed) and pushables. The report runs at most
//! [`ReachabilityConfig::max_rounds`] rounds (at least one), and stops as
//! soon as a round finds nothing to open.
//!
//! Every field this module reports is a classname, an aggregate count, or
//! a distance rounded to whole multiples of ten units.

use crate::walk::GridWalk;
use vstd::prelude::*;
use vstd::utf8::encode_utf8;

verus! {

/// Bounds how much work one walk (and so one round) can do.
#[derive(Debug, Clone, Copy, PartialEq, Eq, Structural)]
pub struct ReachabilityConfig {
    /// The largest number of distinct grid cells one round's walk visits.
    pub cell_cap: usize,
    /// The largest number of door-opening rounds the report runs.
    pub max_rounds: usize,
    /// Treats an intact, damageable breakable on the frontier as openable
    /// by damage between rounds: an assumption that the player carries a
    /// weapon capable of breaking it.
    pub assume_armed: bool,
    /// Adds the long-jump edge to the walk: an assumption that the player
    /// owns the long jump module.
    pub assume_longjump: bool,
}

impl Default for ReachabilityConfig {
    fn default() -> (config: Self)
        ensures
            config.cell_cap == 40_000,
            config.max_rounds == 6,
            !config.assume_armed,
            !config.assume_longjump,
    {
        ReachabilityConfig {
            cell_cap: 40_000,
            max_rounds: 6,
            assume_armed: false,
            assume_longjump: false,
        }
    }
}

/// One brush on a round's unreached frontier, as the host found it: its
/// entity's classname, and the facts about that entity the round-advance
/// edges depend on.
#[derive(Debug, Clone, PartialEq, Eq)]
pub struct FrontierBrush {
    /// The brush.
    pub brush: u64,
    /// Its entity's `classname`.
    pub classname: String,
    /// Whether its entity is a closed door within use reach of a cell the
    /// round's walk reached.
    pub use_openable: bool,
    /// Whether its entity is a breakable with health left, not
    /// trigger-only and not yet broken.
    pub breakable_intact: bool,
    /// Whether its entity is a pushable.
    pub pushable: bool,
}

/// One brush-entity classname found on a round's unreached frontier.
#[derive(Debug, Clone, PartialEq, Eq)]
pub struct FrontierClass {
    /// The blocking entities' `classname` (for example `func_door`).
    pub classname: String,
    /// How many frontier brushes carry this classname.
    pub instance_count: usize,
    /// Whether at least one of them could be opened by use from a reached
    /// cell.
    pub use_openable: bool,
    /// Whether at least one of them is openable by damage next round (only
    /// ever with an armed player assumed).
    pub damage_openable: bool,
    /// Whether at least one of them is a pushable.
    pub push_openable: bool,
}

/// A round's frontier, classified.
#[derive(Debug, Clone, PartialEq, Eq)]
pub struct ClassifiedFrontier {
    /// One entry per classname, ordered by classname.
    pub classes: Vec<FrontierClass>,
    /// Closed, use-openable doors, in frontier order.
    pub openable_doors: Vec<u64>,
    /// Breakables openable by damage, in frontier order.
    pub openable_breakables: Vec<u64>,
    /// Pushables, in frontier order.
    pub openable_pushables: Vec<u64>,
}

/// The bytes a classname is ordered and grouped by.
pub open spec fn name_key(name: String) -> Seq<u8> {
    encode_utf8(name@)
}

/// Byte-wise lexicographic order: `a` sorts strictly before `b`.
pub open spec fn lex_lt(a: Seq<u8>, b: Seq<u8>) -> bool
    decreases a.len(),
{
    if a.len() == 0 {
        b.len() > 0
    } else if b.len() == 0 {
        false
    } else if a[0] != b[0] {
        a[0] < b[0]
    } else {
        lex_lt(a.drop_first(), b.drop_first())
    }
}

/// The order is a strict total order.
pub proof fn lemma_lex_total(a: Seq<u8>, b: Seq<u8>)
    ensures
        lex_lt(a, b) || a == b || lex_lt(b, a),
        !(lex_lt(a, b) && lex_lt(b, a)),
        !lex_lt(a, a),
    decreases a.len(),
{
    if a.len() > 0 && b.len() > 0 {
        lemma_lex_total(a.drop_first(), b.drop_first());
        if a[0] == b[0] && a.drop_first() == b.drop_first() {
            assert forall|k: int| 0 <= k < a.len() implies a[k] == b[k] by {
                if k > 0 {
                    assert(a[k] == a.drop_first()[k - 1]);
                    assert(b[k] == b.drop_first()[k - 1]);
                }
            }
            assert(a =~= b);
        }
    } else if a.len() == 0 && b.len() == 0 {
        assert(a =~= b);
    }
    if a.len() > 0 {
        lemma_lex_total(a.drop_first(), a.drop_first());
    }
}

/// The order is transitive.
pub proof fn lemma_lex_transitive(a: Seq<u8>, b: Seq<u8>, c: Seq<u8>)
    requires
        lex_lt(a, b),
        lex_lt(b, c),
    ensures
        lex_lt(a, c),
    decreases a.len(),
{
    if a.len() > 0 && b.len() > 0 && c.len() > 0 && a[0] == b[0] && b[0] == c[0] {
        lemma_lex_transitive(a.drop_first(), b.drop_first(), c.drop_first());
    }
}

/// Compares two byte strings lexicographically: negative, zero or positive
/// as `a` sorts before, equal to, or after `b`.
fn compare_bytes(a: &[u8], b: &[u8]) -> (r: i8)
    ensures
        (r < 0) == lex_lt(a@, b@),
        (r == 0) == (a@ == b@),
        (r > 0) == lex_lt(b@, a@),
{
    let mut i: usize = 0;
    assert(a@.skip(0) =~= a@);
    assert(b@.skip(0) =~= b@);
    while i < a.len() && i < b.len() && a[i] == b[i]
        invariant
            i <= a@.len(),
            i <= b@.len(),
            a@.subrange(0, i as int) == b@.subrange(0, i as int),
            lex_lt(a@, b@) == lex_lt(a@.skip(i as int), b@.skip(i as int)),
            lex_lt(b@, a@) == lex_lt(b@.skip(i as int), a@.skip(i as int)),
        decreases a@.len() - i,
    {
        assert(a@.skip(i as int).drop_first() =~= a@.skip(i + 1));
        assert(b@.skip(i as int).drop_first() =~= b@.skip(i + 1));
        assert(a@.subrange(0, i + 1) =~= a@.subrange(0, i as int).push(a@[i as int]));
        assert(b@.subrange(0, i + 1) =~= b@.subrange(0, i as int).push(b@[i as int]));
        i = i + 1;
    }
    proof {
        lemma_lex_total(a@, b@);
    }
    if i < a.len() && i < b.len() {
        assert(a@.skip(i as int)[0] == a@[i as int]);
        assert(b@.skip(i as int)[0] == b@[i as int]);
        assert(a@[i as int] != b@[i as int]);
        if a[i] < b[i] {
            -1
        } else {
            1
        }
    } else if i < b.len() {
        assert(a@.skip(i as int).len() == 0);
        assert(a@ != b@);
        -1
    } else if i < a.len() {
        assert(b@.skip(i as int).len() == 0);
        assert(a@ != b@);
        1
    } else {
        assert(a@ =~= a@.subrange(0, i as int));
        assert(b@ =~= b@.subrange(0, i as int));
        0
    }
}

/// How many of `brushes` carry classname `key`.
pub open spec fn class_count(brushes: Seq<FrontierBrush>, key: Seq<u8>) -> nat
    decreases brushes.len(),
{
    if brushes.len() == 0 {
        0
    } else {
        class_count(brushes.drop_last(), key) + if name_key(brushes.last().classname) == key {
            1nat
        } else {
            0nat
        }
    }
}

/// Whether some brush of classname `key` satisfies `pred`.
pub open spec fn class_any(
    brushes: Seq<FrontierBrush>,
    key: Seq<u8>,
    pred: spec_fn(FrontierBrush) -> bool,
) -> bool {
    exists|k: int| 0 <= k < brushes.len() && name_key(brushes[k].classname) == key && pred(brushes[k])
}

/// The brushes of `brushes` satisfying `pred`, in order.
pub open spec fn brushes_where(
    brushes: Seq<FrontierBrush>,
    pred: spec_fn(FrontierBrush) -> bool,
) -> Seq<u64>
    decreases brushes.len(),
{
    if brushes.len() == 0 {
        Seq::empty()
    } else {
        let head = brushes_where(brushes.drop_last(), pred);
        if pred(brushes.last()) {
            head.push(brushes.last().brush)
        } else {
            head
        }
    }
}

/// A use-openable door.
pub open spec fn is_use_openable() -> spec_fn(FrontierBrush) -> bool {
    |b: FrontierBrush| b.use_openable
}

/// A breakable openable by damage, given the armed assumption.
pub open spec fn is_damage_openable(assume_armed: bool) -> spec_fn(FrontierBrush) -> bool {
    |b: FrontierBrush| assume_armed && b.breakable_intact
}

/// A pushable.
pub open spec fn is_pushable() -> spec_fn(FrontierBrush) -> bool {
    |b: FrontierBrush| b.pushable
}

/// `classes` describes `brushes` exactly: one entry per classname, in
/// strictly increasing classname order, each with that classname's count
/// and openability.
pub open spec fn classes_describe(
    classes: Seq<FrontierClass>,
    brushes: Seq<FrontierBrush>,
    assume_armed: bool,
) -> bool {
    &&& forall|i: int, j: int|
        0 <= i < j < classes.len() ==> lex_lt(
            name_key(#[trigger] classes[i].classname),
            name_key(#[trigger] classes[j].classname),
        )
    &&& forall|i: int|
        #![trigger classes[i]]
        0 <= i < classes.len() ==> {
            let key = name_key(classes[i].classname);
            &&& classes[i].instance_count == class_count(brushes, key)
            &&& classes[i].instance_count > 0
            &&& classes[i].use_openable == class_any(brushes, key, is_use_openable())
            &&& classes[i].damage_openable == class_any(
                brushes,
                key,
                is_damage_openable(assume_armed),
            )
            &&& classes[i].push_openable == class_any(brushes, key, is_pushable())
        }
    &&& forall|k: int|
        0 <= k < brushes.len() ==> has_class(classes, name_key(#[trigger] brushes[k].classname))
}

/// Some entry of `classes` carries classname `key`.
pub open spec fn has_class(classes: Seq<FrontierClass>, key: Seq<u8>) -> bool {
    exists|i: int| 0 <= i < classes.len() && name_key(classes[i].classname) == key
}

proof fn lemma_class_count_bound(brushes: Seq<FrontierBrush>, key: Seq<u8>)
    ensures
        class_count(brushes, key) <= brushes.len(),
    decreases brushes.len(),
{
    if brushes.len() > 0 {
        lemma_class_count_bound(brushes.drop_last(), key);
    }
}

proof fn lemma_class_count_zero(brushes: Seq<FrontierBrush>, key: Seq<u8>)
    requires
        forall|k: int| 0 <= k < brushes.len() ==> name_key(brushes[k].classname) != key,
    ensures
        class_count(brushes, key) == 0,
    decreases brushes.len(),
{
    if brushes.len() > 0 {
        lemma_class_count_zero(brushes.drop_last(), key);
    }
}

/// The position in `classes` where `key` belongs: the first entry not
/// sorting before it.
fn class_position(classes: &Vec<FrontierClass>, key: &[u8]) -> (r: (usize, bool))
    requires
        forall|i: int, j: int|
            0 <= i < j < classes@.len() ==> lex_lt(
                name_key(#[trigger] classes@[i].classname),
                name_key(#[trigger] classes@[j].classname),
            ),
    ensures
        r.0 <= classes@.len(),
        forall|i: int| 0 <= i < r.0 ==> lex_lt(name_key(#[trigger] classes@[i].classname), key@),
        r.1 ==> r.0 < classes@.len() && name_key(classes@[r.0 as int].classname) == key@,
        !r.1 ==> r.0 < classes@.len() ==> lex_lt(key@, name_key(classes@[r.0 as int].classname)),
{
    let mut i: usize = 0;
    while i < classes.len()
        invariant
            i <= classes@.len(),
            forall|k: int| 0 <= k < i ==> lex_lt(name_key(#[trigger] classes@[k].classname), key@),
        decreases classes@.len() - i,
    {
        let c = compare_bytes(classes[i].classname.as_str().as_bytes(), key);
        if c == 0 {
            return (i, true);
        }
        if c > 0 {
            return (i, false);
        }
        i = i + 1;
    }
    (i, false)
}

/// Whether a brush classified as matching `c` by `pred` is seen among
/// `brushes.push(b)` exactly when among `brushes`, or `b` itself.
proof fn lemma_class_any_push(
    brushes: Seq<FrontierBrush>,
    b: FrontierBrush,
    c: Seq<u8>,
    pred: spec_fn(FrontierBrush) -> bool,
)
    ensures
        class_any(brushes.push(b), c, pred) == (class_any(brushes, c, pred) || (name_key(
            b.classname,
        ) == c && pred(b))),
{
    let after = brushes.push(b);
    if class_any(after, c, pred) {
        let k = choose|k: int|
            0 <= k < after.len() && name_key(after[k].classname) == c && pred(after[k]);
        if k < brushes.len() {
            assert(name_key(brushes[k].classname) == c && pred(brushes[k]));
        }
    }
    if class_any(brushes, c, pred) {
        let k = choose|k: int|
            0 <= k < brushes.len() && name_key(brushes[k].classname) == c && pred(brushes[k]);
        assert(name_key(after[k].classname) == c && pred(after[k]));
    }
    if name_key(b.classname) == c && pred(b) {
        assert(name_key(after[brushes.len() as int].classname) == c && pred(
            after[brushes.len() as int],
        ));
    }
}

proof fn lemma_class_count_push(brushes: Seq<FrontierBrush>, b: FrontierBrush, key: Seq<u8>)
    ensures
        class_count(brushes.push(b), key) == class_count(brushes, key) + if name_key(b.classname)
            == key {
            1nat
        } else {
            0nat
        },
{
    assert(brushes.push(b).drop_last() =~= brushes);
}

/// Folds one more frontier brush into `classes`.
fn add_brush(
    classes: &mut Vec<FrontierClass>,
    b: &FrontierBrush,
    assume_armed: bool,
    Ghost(before): Ghost<Seq<FrontierBrush>>,
)
    requires
        classes_describe(old(classes)@, before, assume_armed),
        before.len() < usize::MAX,
    ensures
        classes_describe(final(classes)@, before.push(*b), assume_armed),
{
    let ghost after = before.push(*b);
    let ghost key = name_key(b.classname);
    let damage = assume_armed && b.breakable_intact;
    let (p, found) = class_position(classes, b.classname.as_str().as_bytes());
    let ghost old_classes = classes@;
    proof {
        assert forall|c: Seq<u8>| #![auto]
            class_count(after, c) == class_count(before, c) + if key == c {
                1nat
            } else {
                0nat
            } by {
            lemma_class_count_push(before, *b, c);
        }
        assert forall|c: Seq<u8>| #![auto]
            class_any(after, c, is_use_openable()) == (class_any(before, c, is_use_openable()) || (key == c && b.use_openable)) by {
            lemma_class_any_push(before, *b, c, is_use_openable());
        }
        assert forall|c: Seq<u8>| #![auto]
            class_any(after, c, is_damage_openable(assume_armed)) == (class_any(before, c, is_damage_openable(assume_armed)) || (key == c && damage)) by {
            lemma_class_any_push(before, *b, c, is_damage_openable(assume_armed));
        }
        assert forall|c: Seq<u8>| #![auto]
            class_any(after, c, is_pushable()) == (class_any(before, c, is_pushable()) || (key == c && b.pushable)) by {
            lemma_class_any_push(before, *b, c, is_pushable());
        }
    }
    if found {
        let old = &classes[p];
        proof {
            lemma_class_count_bound(before, key);
        }
        let updated = FrontierClass {
            classname: old.classname.clone(),
            instance_count: old.instance_count + 1,
            use_openable: old.use_openable || b.use_openable,
            damage_openable: old.damage_openable || damage,
            push_openable: old.push_openable || b.pushable,
        };
        classes.set(p, updated);
        proof {
            assert forall|x: int|
                #![trigger classes@[x]]
                0 <= x < classes@.len() implies name_key(classes@[x].classname) == name_key(
                    old_classes[x].classname,
                ) && (x != p ==> classes@[x] == old_classes[x]) by {}
            assert forall|x: int, y: int|
                0 <= x < y < classes@.len() implies lex_lt(
                name_key(#[trigger] classes@[x].classname),
                name_key(#[trigger] classes@[y].classname),
            ) by {
                assert(lex_lt(name_key(old_classes[x].classname), name_key(old_classes[y].classname)));
            }
            assert forall|x: int|
                #![trigger classes@[x]]
                0 <= x < classes@.len() && x != p implies name_key(classes@[x].classname) != key by {
                if x < p {
                    lemma_lex_total(name_key(old_classes[x].classname), key);
                } else {
                    lemma_lex_total(name_key(old_classes[p as int].classname), name_key(old_classes[x].classname));
                }
            }
            assert forall|k: int|
                0 <= k < after.len() implies has_class(classes@, name_key(#[trigger] after[k].classname)) by {
                if k < before.len() {
                    assert(before[k] == after[k]);
                    assert(has_class(old_classes, name_key(before[k].classname)));
                    let x = choose|x: int|
                        0 <= x < old_classes.len() && name_key(old_classes[x].classname)
                            == name_key(before[k].classname);
                    assert(name_key(classes@[x].classname) == name_key(after[k].classname));
                } else {
                    assert(name_key(classes@[p as int].classname) == name_key(after[k].classname));
                }
            }
            assert forall|x: int|
                #![trigger classes@[x]]
                0 <= x < classes@.len() implies {
                    let k2 = name_key(classes@[x].classname);
                    &&& classes@[x].instance_count == class_count(after, k2)
                    &&& classes@[x].instance_count > 0
                    &&& classes@[x].use_openable == class_any(after, k2, is_use_openable())
                    &&& classes@[x].damage_openable == class_any(
                        after,
                        k2,
                        is_damage_openable(assume_armed),
                    )
                    &&& classes@[x].push_openable == class_any(after, k2, is_pushable())
                } by {
                let k2 = name_key(classes@[x].classname);
                assert(k2 == name_key(old_classes[x].classname));
                assert(class_count(after, k2) == class_count(before, k2) + if key == k2 {
                    1nat
                } else {
                    0nat
                });
                assert(class_any(after, k2, is_use_openable()) == (class_any(before, k2, is_use_openable()) || (key == k2 && b.use_openable)));
                assert(class_any(after, k2, is_damage_openable(assume_armed)) == (class_any(before, k2, is_damage_openable(assume_armed)) || (key == k2 && damage)));
                assert(class_any(after, k2, is_pushable()) == (class_any(before, k2, is_pushable()) || (key == k2 && b.pushable)));
                if x == p {
                    assert(k2 == key);
                    assert(classes@[x].instance_count == old_classes[x].instance_count + 1);
                } else {
                    assert(k2 != key);
                    assert(classes@[x] == old_classes[x]);
                }
            }
            let cs = classes@;
            assert(forall|i: int, j: int|
                0 <= i < j < cs.len() ==> lex_lt(
                    name_key(#[trigger] cs[i].classname),
                    name_key(#[trigger] cs[j].classname),
                ));
            assert(classes_describe(classes@, after, assume_armed));
        }
    } else {
        let fresh = FrontierClass {
            classname: b.classname.clone(),
            instance_count: 1,
            use_openable: b.use_openable,
            damage_openable: damage,
            push_openable: b.pushable,
        };
        proof {
            assert forall|x: int| 0 <= x < old_classes.len() implies name_key(
                #[trigger] old_classes[x].classname,
            ) != key by {
                if x < p {
                    lemma_lex_total(name_key(old_classes[x].classname), key);
                } else {
                    lemma_lex_total(key, name_key(old_classes[p as int].classname));
                    if x > p {
                        lemma_lex_transitive(
                            key,
                            name_key(old_classes[p as int].classname),
                            name_key(old_classes[x].classname),
                        );
                    }
                    lemma_lex_total(key, name_key(old_classes[x].classname));
                }
            }
            assert forall|k: int| 0 <= k < before.len() implies name_key(
                #[trigger] before[k].classname,
            ) != key by {
                assert(has_class(old_classes, name_key(before[k].classname)));
                let x = choose|x: int|
                    0 <= x < old_classes.len() && name_key(old_classes[x].classname)
                        == name_key(before[k].classname);
            }
            lemma_class_count_zero(before, key);
        }
        classes.insert(p, fresh);
        proof {
            let n = classes@;
            assert forall|x: int, y: int|
                0 <= x < y < n.len() implies lex_lt(
                name_key(#[trigger] n[x].classname),
                name_key(#[trigger] n[y].classname),
            ) by {
                if y < p {
                    assert(n[x] == old_classes[x] && n[y] == old_classes[y]);
                } else if y == p {
                    assert(n[x] == old_classes[x]);
                } else if x == p {
                    assert(n[y] == old_classes[y - 1]);
                    if y - 1 > p {
                        lemma_lex_transitive(
                            key,
                            name_key(old_classes[p as int].classname),
                            name_key(old_classes[y - 1].classname),
                        );
                    }
                } else if x < p {
                    assert(n[x] == old_classes[x] && n[y] == old_classes[y - 1]);
                } else {
                    assert(n[x] == old_classes[x - 1] && n[y] == old_classes[y - 1]);
                }
            }
            assert forall|x: int|
                #![trigger n[x]]
                0 <= x < n.len() && x != p implies name_key(n[x].classname) != key by {
                if x < p {
                    assert(n[x] == old_classes[x]);
                } else {
                    assert(n[x] == old_classes[x - 1]);
                }
            }
            assert forall|x: int|
                #![trigger n[x]]
                0 <= x < n.len() && x != p implies (if x < p {
                    n[x] == old_classes[x]
                } else {
                    n[x] == old_classes[x - 1]
                }) by {}
            assert forall|k: int|
                0 <= k < after.len() implies has_class(n, name_key(#[trigger] after[k].classname)) by {
                if k < before.len() {
                    assert(before[k] == after[k]);
                    assert(has_class(old_classes, name_key(before[k].classname)));
                    let x = choose|x: int|
                        0 <= x < old_classes.len() && name_key(old_classes[x].classname)
                            == name_key(before[k].classname);
                    if x < p {
                        assert(n[x] == old_classes[x]);
                    } else {
                        assert(n[x + 1] == old_classes[x]);
                    }
                } else {
                    assert(name_key(n[p as int].classname) == name_key(after[k].classname));
                }
            }
            assert(n[p as int] == fresh);
            assert(classes_describe(classes@, after, assume_armed));
        }
    }
}

/// Classifies a round's frontier brushes by classname and by which
/// round-advance edge (door, breakable, pushable) each one offers. A
/// breakable counts as openable only when `assume_armed` holds.
pub fn classify_frontier(brushes: &[FrontierBrush], assume_armed: bool) -> (classified:
    ClassifiedFrontier)
    ensures
        classes_describe(classified.classes@, brushes@, assume_armed),
        classified.openable_doors@ == brushes_where(brushes@, is_use_openable()),
        classified.openable_breakables@ == brushes_where(
            brushes@,
            is_damage_openable(assume_armed),
        ),
        classified.openable_pushables@ == brushes_where(brushes@, is_pushable()),
{
    let mut classes: Vec<FrontierClass> = Vec::new();
    let mut doors: Vec<u64> = Vec::new();
    let mut breakables: Vec<u64> = Vec::new();
    let mut pushables: Vec<u64> = Vec::new();
    let mut i: usize = 0;
    assert(brushes@.take(0) =~= Seq::<FrontierBrush>::empty());
    while i < brushes.len()
        invariant
            i <= brushes@.len(),
            classes_describe(classes@, brushes@.take(i as int), assume_armed),
            doors@ == brushes_where(brushes@.take(i as int), is_use_openable()),
            breakables@ == brushes_where(brushes@.take(i as int), is_damage_openable(assume_armed)),
            pushables@ == brushes_where(brushes@.take(i as int), is_pushable()),
        decreases brushes@.len() - i,
    {
        let b = &brushes[i];
        assert(brushes@.take(i + 1) =~= brushes@.take(i as int).push(*b));
        assert(brushes@.take(i + 1).drop_last() =~= brushes@.take(i as int));
        if b.use_openable {
            doors.push(b.brush);
        }
        if assume_armed && b.breakable_intact {
            breakables.push(b.brush);
        }
        if b.pushable {
            pushables.push(b.brush);
        }
        add_brush(&mut classes, b, assume_armed, Ghost(brushes@.take(i as int)));
        i = i + 1;
    }
    assert(brushes@.take(brushes@.len() as int) =~= brushes@);
    ClassifiedFrontier {
        classes,
        openable_doors: doors,
        openable_breakables: breakables,
        openable_pushables: pushables,
    }
}

/// Whether a level-change trigger was reached this round, and how far the
/// nearest one sits from spawn.
#[derive(Debug, Clone, Copy, PartialEq, Eq, Structural)]
pub struct ChangeLevelStatus {
    /// At least one level-change volume overlapped a reached cell.
    pub reachable: bool,
    /// The nearest level-change volume's straight-line distance from
    /// spawn, rounded to the nearest ten units. `None` when the map
    /// declares no level change at all.
    pub distance_rounded: Option<i64>,
}

/// One round's aggregate results.
#[derive(Debug, Clone, PartialEq, Eq)]
pub struct RoundReport {
    /// How many rounds of opening preceded this one (`0` is the walk from
    /// spawn with nothing yet opened).
    pub round: usize,
    /// How many distinct grid cells this round's walk reached.
    pub reachable_cells: usize,
    /// Brush-entity classnames on this round's unreached frontier, ordered
    /// by classname.
    pub frontier_classes: Vec<FrontierClass>,
    /// Whether a level change was reached this round.
    pub changelevel: ChangeLevelStatus,
    /// How many reached cells were first reached by a long fall.
    pub long_drop_cells: usize,
    /// How many reached cells were reached only by the long-jump edge
    /// (always `0` without the long-jump assumption).
    pub long_jump_cells: usize,
    /// How many doors this round found and opened for the next round (`0`
    /// on the last round, since nothing further needed opening).
    pub doors_opened: usize,
    /// How many breakables this round broke for the next round (`0`
    /// without the armed assumption).
    pub breakables_opened: usize,
    /// How many pushables this round pushed aside for the next round.
    pub pushables_opened: usize,
    /// Whether this round's walk stopped at its cell cap.
    pub capped: bool,
}

/// The whole bounded walk's results: one [`RoundReport`] per round, in
/// order.
#[derive(Debug, Clone, PartialEq, Eq)]
pub struct ReachabilityReport {
    /// Per-round results, oldest first.
    pub rounds: Vec<RoundReport>,
}

/// Whether a round opened anything for the next one.
pub open spec fn opened_any(round: RoundReport) -> bool {
    round.doors_opened + round.breakables_opened + round.pushables_opened > 0
}

/// How many rounds a report runs at most: `max_rounds`, but at least one.
pub open spec fn round_limit(config: ReachabilityConfig) -> int {
    if config.max_rounds == 0 {
        1
    } else {
        config.max_rounds as int
    }
}

/// The report for a map with no collision hulls to walk: a single empty
/// round.
pub fn report_without_collision() -> (report: ReachabilityReport)
    ensures
        report.rounds@.len() == 1,
        report.rounds@[0].round == 0,
        report.rounds@[0].reachable_cells == 0,
        report.rounds@[0].frontier_classes@.len() == 0,
        report.rounds@[0].changelevel == (ChangeLevelStatus { reachable: false, distance_rounded: None }),
        report.rounds@[0].long_drop_cells == 0,
        report.rounds@[0].long_jump_cells == 0,
        report.rounds@[0].doors_opened == 0,
        report.rounds@[0].breakables_opened == 0,
        report.rounds@[0].pushables_opened == 0,
        !report.rounds@[0].capped,
{
    let mut rounds: Vec<RoundReport> = Vec::new();
    rounds.push(
        RoundReport {
            round: 0,
            reachable_cells: 0,
            frontier_classes: Vec::new(),
            changelevel: ChangeLevelStatus { reachable: false, distance_rounded: None },
            long_drop_cells: 0,
            long_jump_cells: 0,
            doors_opened: 0,
            breakables_opened: 0,
            pushables_opened: 0,
            capped: false,
        },
    );
    ReachabilityReport { rounds }
}

/// `classes` is ordered strictly by classname, and every entry counts at
/// least one brush.
pub open spec fn classes_ordered(classes: Seq<FrontierClass>) -> bool {
    &&& forall|i: int, j: int|
        0 <= i < j < classes.len() ==> lex_lt(
            name_key(#[trigger] classes[i].classname),
            name_key(#[trigger] classes[j].classname),
        )
    &&& forall|i: int| 0 <= i < classes.len() ==> #[trigger] classes[i].instance_count > 0
}

/// Without the armed assumption a round breaks nothing, and no frontier
/// class counts as openable by damage.
pub open spec fn unarmed_round(round: RoundReport) -> bool {
    &&& round.breakables_opened == 0
    &&& forall|c: int|
        0 <= c < round.frontier_classes@.len() ==> !(#[trigger] round.frontier_classes@[c]).damage_openable
}

/// Builds a report round by round, deciding after each round whether
/// another one runs.
pub struct ReportBuilder {
    rounds: Vec<RoundReport>,
    limit: usize,
    done: bool,
    assume_armed: bool,
    assume_longjump: bool,
}

impl ReportBuilder {
    /// The rounds recorded so far.
    pub closed spec fn recorded(&self) -> Seq<RoundReport> {
        self.rounds@
    }

    /// The most rounds the report runs.
    pub closed spec fn limit(&self) -> int {
        self.limit as int
    }

    /// Whether the report is complete.
    pub closed spec fn is_done(&self) -> bool {
        self.done
    }

    /// Whether breakables count as openable by damage.
    pub closed spec fn armed_assumed(&self) -> bool {
        self.assume_armed
    }

    /// Whether the walks take the long-jump edge.
    pub closed spec fn long_jump_assumed(&self) -> bool {
        self.assume_longjump
    }

    /// Never more rounds than the limit, every round numbered by its
    /// position, a further round only after one that opened something, a
    /// finished report holds at least one round and its last round opened
    /// no door, every round's classes are ordered, and the assumptions not
    /// made leave their counts at zero.
    pub closed spec fn wf(&self) -> bool {
        &&& 1 <= self.limit
        &&& self.rounds@.len() <= self.limit
        &&& (!self.done ==> self.rounds@.len() < self.limit)
        &&& (self.done ==> self.rounds@.len() >= 1)
        &&& (self.done ==> self.rounds@.last().doors_opened == 0)
        &&& forall|i: int| 0 <= i < self.rounds@.len() ==> #[trigger] self.rounds@[i].round == i
        &&& forall|i: int|
            0 <= i < self.rounds@.len() && (i + 1 < self.rounds@.len() || !self.done) ==> opened_any(
                #[trigger] self.rounds@[i],
            )
        &&& forall|i: int|
            0 <= i < self.rounds@.len() ==> classes_ordered(#[trigger] self.rounds@[i].frontier_classes@)
        &&& (!self.assume_armed ==> forall|i: int|
            0 <= i < self.rounds@.len() ==> unarmed_round(#[trigger] self.rounds@[i]))
        &&& (!self.assume_longjump ==> forall|i: int|
            0 <= i < self.rounds@.len() ==> #[trigger] self.rounds@[i].long_jump_cells == 0)
    }

    /// An empty report under `config`.
    pub fn new(config: &ReachabilityConfig) -> (builder: Self)
        ensures
            builder.wf(),
            builder.recorded().len() == 0,
            builder.limit() == round_limit(*config),
            builder.armed_assumed() == config.assume_armed,
            builder.long_jump_assumed() == config.assume_longjump,
            !builder.is_done(),
    {
        let limit = if config.max_rounds == 0 { 1 } else { config.max_rounds };
        ReportBuilder {
            rounds: Vec::new(),
            limit,
            done: false,
            assume_armed: config.assume_armed,
            assume_longjump: config.assume_longjump,
        }
    }

    /// The number the next round carries.
    pub fn next_round(&self) -> (round: usize)
        ensures
            round == self.recorded().len(),
    {
        self.rounds.len()
    }

    /// Summarizes the round just walked (`walk`, the brushes on its
    /// unreached frontier, classified here, and its level-change status)
    /// and records it. Returns the brushes to detach before the next round
    /// (the openable doors, then breakables, then pushables) and whether a
    /// next round runs: only when something was found openable and the
    /// round limit is not yet reached. After the last round nothing is
    /// detached, and that round reports no door opened, as nothing further
    /// needed opening.
    pub fn record_round(
        &mut self,
        walk: &GridWalk,
        frontier: &[FrontierBrush],
        changelevel: ChangeLevelStatus,
    ) -> (r: (Vec<u64>, bool))
        requires
            old(self).wf(),
            !old(self).is_done(),
            walk.wf(),
            walk.long_jumps_allowed() == old(self).long_jump_assumed(),
        ensures
            final(self).wf(),
            final(self).limit() == old(self).limit(),
            final(self).armed_assumed() == old(self).armed_assumed(),
            final(self).long_jump_assumed() == old(self).long_jump_assumed(),
            final(self).recorded().len() == old(self).recorded().len() + 1,
            final(self).recorded().drop_last() == old(self).recorded(),
            ({
                let report = final(self).recorded().last();
                let armed = old(self).armed_assumed();
                let doors = brushes_where(frontier@, is_use_openable());
                &&& report.round == old(self).recorded().len()
                &&& report.reachable_cells == walk.visited().len()
                &&& classes_describe(report.frontier_classes@, frontier@, armed)
                &&& report.changelevel == changelevel
                &&& report.long_drop_cells == walk.long_drops()
                &&& report.long_jump_cells == walk.long_jumps()
                &&& report.doors_opened == if r.1 { doors.len() } else { 0 }
                &&& report.breakables_opened == brushes_where(
                    frontier@,
                    is_damage_openable(armed),
                ).len()
                &&& report.pushables_opened == brushes_where(frontier@, is_pushable()).len()
                &&& report.capped == (walk.visited().len() >= walk.cap())
            }),
            ({
                let found = brushes_where(frontier@, is_use_openable()) + brushes_where(
                    frontier@,
                    is_damage_openable(old(self).armed_assumed()),
                ) + brushes_where(frontier@, is_pushable());
                &&& r.1 == (found.len() > 0 && final(self).recorded().len() < final(self).limit())
                &&& r.0@ == if r.1 {
                    found
                } else {
                    Seq::<u64>::empty()
                }
            }),
            final(self).is_done() == !r.1,
    {
        let round = self.rounds.len();
        let reachable_cells = walk.cell_count();
        let long_drop_cells = walk.long_drop_cells();
        let long_jump_cells = walk.long_jump_cells();
        let capped = walk.capped();
        let ClassifiedFrontier { classes, openable_doors, openable_breakables, openable_pushables } =
            classify_frontier(frontier, self.assume_armed);
        proof {
            if !self.assume_armed {
                lemma_unarmed_breaks_nothing(frontier@);
            }
        }
        let found_doors = openable_doors.len();
        let breakables_opened = openable_breakables.len();
        let pushables_opened = openable_pushables.len();
        let mut detach: Vec<u64> = Vec::new();
        let mut i: usize = 0;
        while i < openable_doors.len()
            invariant
                i <= openable_doors@.len(),
                detach@ == openable_doors@.take(i as int),
            decreases openable_doors@.len() - i,
        {
            detach.push(openable_doors[i]);
            assert(openable_doors@.take(i + 1) =~= openable_doors@.take(i as int).push(openable_doors@[i as int]));
            i = i + 1;
        }
        assert(openable_doors@.take(openable_doors@.len() as int) =~= openable_doors@);
        let mut j: usize = 0;
        while j < openable_breakables.len()
            invariant
                j <= openable_breakables@.len(),
                detach@ == openable_doors@ + openable_breakables@.take(j as int),
            decreases openable_breakables@.len() - j,
        {
            detach.push(openable_breakables[j]);
            assert(openable_breakables@.take(j + 1) =~= openable_breakables@.take(j as int).push(openable_breakables@[j as int]));
            j = j + 1;
        }
        assert(openable_breakables@.take(openable_breakables@.len() as int) =~= openable_breakables@);
        let mut k: usize = 0;
        while k < openable_pushables.len()
            invariant
                k <= openable_pushables@.len(),
                detach@ == openable_doors@ + openable_breakables@ + openable_pushables@.take(k as int),
            decreases openable_pushables@.len() - k,
        {
            detach.push(openable_pushables[k]);
            assert(openable_pushables@.take(k + 1) =~= openable_pushables@.take(k as int).push(openable_pushables@[k as int]));
            k = k + 1;
        }
        assert(openable_pushables@.take(openable_pushables@.len() as int) =~= openable_pushables@);
        let more = detach.len() > 0 && round + 1 < self.limit;
        let doors_opened = if more { found_doors } else { 0 };
        self.rounds.push(
            RoundReport {
                round,
                reachable_cells,
                frontier_classes: classes,
                changelevel,
                long_drop_cells,
                long_jump_cells,
                doors_opened,
                breakables_opened,
                pushables_opened,
                capped,
            },
        );
        self.done = !more;
        if !more {
            detach = Vec::new();
        }
        proof {
            let rounds = self.rounds@;
            let last = rounds.last();
            assert(rounds.drop_last() =~= old(self).rounds@);
            assert(classes_ordered(last.frontier_classes@));
            assert forall|i: int| 0 <= i < rounds.len() implies #[trigger] rounds[i].round == i by {
                if i < old(self).rounds@.len() {
                    assert(rounds[i] == old(self).rounds@[i]);
                }
            }
            assert forall|i: int|
                0 <= i < rounds.len() && (i + 1 < rounds.len() || !self.done) implies opened_any(
                #[trigger] rounds[i],
            ) by {
                if i < old(self).rounds@.len() {
                    assert(rounds[i] == old(self).rounds@[i]);
                }
            }
            assert forall|i: int| 0 <= i < rounds.len() implies classes_ordered(
                #[trigger] rounds[i].frontier_classes@,
            ) by {
                if i < old(self).rounds@.len() {
                    assert(rounds[i] == old(self).rounds@[i]);
                }
            }
            if !self.assume_armed {
                assert(unarmed_round(last));
                assert forall|i: int| 0 <= i < rounds.len() implies unarmed_round(
                    #[trigger] rounds[i],
                ) by {
                    if i < old(self).rounds@.len() {
                        assert(rounds[i] == old(self).rounds@[i]);
                    }
                }
            }
            if !self.assume_longjump {
                assert forall|i: int| 0 <= i < rounds.len() implies #[trigger] rounds[i].long_jump_cells
                    == 0 by {
                    if i < old(self).rounds@.len() {
                        assert(rounds[i] == old(self).rounds@[i]);
                    }
                }
            }
        }
        (detach, more)
    }

    /// The finished report.
    pub fn finish(self) -> (report: ReachabilityReport)
        requires
            self.is_done(),
        ensures
            report.rounds@ == self.recorded(),
    {
        ReachabilityReport { rounds: self.rounds }
    }
}

/// Without the armed assumption no brush is openable by damage.
proof fn lemma_unarmed_breaks_nothing(brushes: Seq<FrontierBrush>)
    ensures
        brushes_where(brushes, is_damage_openable(false)).len() == 0,
    decreases brushes.len(),
{
    if brushes.len() > 0 {
        lemma_unarmed_breaks_nothing(brushes.drop_last());
    }
}

/// A report never runs more rounds than its limit, numbers every round by
/// its position, and runs a further round only after one that opened
/// something: every round but the last opened at least one brush. A
/// finished report holds at least one round, and its last round opened no
/// door. Every round's frontier classes are ordered by classname and count
/// at least one brush each; without the armed assumption no round breaks
/// anything or counts a class openable by damage, and without the
/// long-jump assumption no round counts a long-jump cell.
pub proof fn lemma_report_is_bounded(builder: ReportBuilder)
    requires
        builder.wf(),
    ensures
        builder.recorded().len() <= builder.limit(),
        forall|i: int| 0 <= i < builder.recorded().len() ==> #[trigger] builder.recorded()[i].round == i,
        forall|i: int|
            0 <= i < builder.recorded().len() - 1 ==> opened_any(#[trigger] builder.recorded()[i]),
        builder.is_done() ==> builder.recorded().len() >= 1,
        builder.is_done() ==> builder.recorded().last().doors_opened == 0,
        forall|i: int|
            0 <= i < builder.recorded().len() ==> classes_ordered(
                #[trigger] builder.recorded()[i].frontier_classes@,
            ),
        !builder.armed_assumed() ==> forall|i: int|
            0 <= i < builder.recorded().len() ==> unarmed_round(#[trigger] builder.recorded()[i]),
        !builder.long_jump_assumed() ==> forall|i: int|
            0 <= i < builder.recorded().len() ==> #[trigger] builder.recorded()[i].long_jump_cells
                == 0,
{
}

} // verus!
