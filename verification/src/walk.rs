//! The breadth-first grid walk the reachability report and the route
//! planner share.
//!
//! The walk steps over a fixed grid from every visited cell in all eight
//! compass directions, in visit order: attempt `k` tries direction `k % 8`
//! from the `k / 8`-th visited cell. Whether an attempt lands (and where),
//! or which brushes stopped it, is a question for the live collision model,
//! which the host asks; it hands the answer back through
//! [`GridWalk::record_landing`] / [`GridWalk::record_blocked`]. Between
//! those answers this module owns every decision the walk makes: which
//! cell is tried next, which landings are new, when the cell cap stops the
//! walk, which cell each newly reached cell was reached from, and which
//! brushes sit on the unreached frontier.
//!
//! A cell is never visited twice, the walk never holds more cells than its
//! cap (beyond the start cell itself), and every cell but the start links
//! back to a cell visited before it, so following the links always ends at
//! the start.

use crate::route_plan::EdgeKind;
use std::collections::HashSet;
use vstd::prelude::*;
use vstd::std_specs::hash::group_hash_axioms;

verus! {

broadcast use group_hash_axioms;

/// One grid cell, quantized from a world position.
#[derive(Debug, Clone, Copy, PartialEq, Eq, Structural)]
pub struct Cell {
    pub x: i32,
    pub y: i32,
    pub z: i32,
}

/// The 128-bit key a cell is stored under: its three coordinates' bit
/// patterns side by side.
pub open spec fn cell_key(c: Cell) -> u128 {
    (((c.x as u32) as u128) << 64u128) | (((c.y as u32) as u128) << 32u128) | ((c.z as u32) as u128)
}

/// Distinct cells have distinct keys.
pub proof fn lemma_cell_key_injective(a: Cell, b: Cell)
    ensures
        cell_key(a) == cell_key(b) ==> a == b,
{
    let (ax, ay, az, bx, by, bz) = (a.x, a.y, a.z, b.x, b.y, b.z);
    assert((((ax as u32) as u128) << 64u128) | (((ay as u32) as u128) << 32u128) | ((az as u32)
        as u128) == (((bx as u32) as u128) << 64u128) | (((by as u32) as u128) << 32u128) | ((bz
        as u32) as u128) ==> ax == bx && ay == by && az == bz) by (bit_vector);
}

fn key_of(c: Cell) -> (k: u128)
    ensures
        k == cell_key(c),
{
    (((c.x as u32) as u128) << 64u128) | (((c.y as u32) as u128) << 32u128) | ((c.z as u32) as u128)
}

/// How one cell was reached: from which earlier cell, by which edge, and
/// whether the walk stepped aside first.
#[derive(Debug, Clone, Copy, PartialEq, Eq, Structural)]
pub struct ParentLink {
    /// The visit index of the cell the edge started from.
    pub from: usize,
    /// The edge that crossed.
    pub kind: EdgeKind,
    /// Whether the walk stepped aside before crossing.
    pub via: bool,
}

/// One attempt the walk asks the host to make: direction `direction` (one
/// of the eight compass directions, in a fixed order) from the `origin`-th
/// visited cell.
#[derive(Debug, Clone, Copy, PartialEq, Eq, Structural)]
pub struct Attempt {
    pub origin: usize,
    pub direction: usize,
}

/// How many compass directions the walk tries from every cell.
pub const DIRECTION_COUNT: usize = 8;

/// `seq` with every entry of `more` appended that is not already present,
/// in order.
pub open spec fn append_unique(seq: Seq<u64>, more: Seq<u64>) -> Seq<u64>
    decreases more.len(),
{
    if more.len() == 0 {
        seq
    } else {
        let head = append_unique(seq, more.drop_last());
        if head.contains(more.last()) {
            head
        } else {
            head.push(more.last())
        }
    }
}

/// Whether `link` is a crossing by the long-jump edge.
pub open spec fn is_long_jump_link(link: Option<ParentLink>) -> bool {
    link matches Some(l) && l.kind == EdgeKind::LongJump
}

/// No entry of `s` occurs twice.
pub open spec fn no_duplicates<T>(s: Seq<T>) -> bool {
    forall|i: int, j: int| 0 <= i < j < s.len() ==> s[i] != s[j]
}

/// The breadth-first grid walk's state.
pub struct GridWalk {
    cells: Vec<Cell>,
    keys: HashSet<u128>,
    parents: Vec<Option<ParentLink>>,
    origin: usize,
    direction: usize,
    pending: Option<usize>,
    cap: usize,
    long_drop_cells: usize,
    long_jump_cells: usize,
    long_jump: bool,
    frontier: Vec<u64>,
    frontier_set: HashSet<u64>,
}

impl GridWalk {
    /// Every visited cell, in visit order; the start cell first.
    pub closed spec fn visited(&self) -> Seq<Cell> {
        self.cells@
    }

    /// Each visited cell's link back to the cell it was reached from
    /// (`None` for the start cell).
    pub closed spec fn links(&self) -> Seq<Option<ParentLink>> {
        self.parents@
    }

    /// The most cells the walk visits (the start cell is always visited).
    pub closed spec fn cap(&self) -> usize {
        self.cap
    }

    /// How many attempts the walk has asked for so far.
    pub closed spec fn attempts(&self) -> int {
        8 * self.origin + self.direction
    }

    /// The attempt whose outcome the walk is waiting for, if any: its
    /// origin cell.
    pub closed spec fn pending(&self) -> Option<usize> {
        self.pending
    }

    /// How many newly reached cells were reached by a fall deeper than the
    /// ordinary drop bound.
    pub closed spec fn long_drops(&self) -> int {
        self.long_drop_cells as int
    }

    /// How many newly reached cells were reached only by the long-jump
    /// edge.
    pub closed spec fn long_jumps(&self) -> int {
        self.long_jump_cells as int
    }

    /// Whether the walk takes the long-jump edge at all.
    pub closed spec fn long_jumps_allowed(&self) -> bool {
        self.long_jump
    }

    /// Every brush that blocked an attempt which reached no new cell, in
    /// first-seen order.
    pub closed spec fn frontier(&self) -> Seq<u64> {
        self.frontier@
    }

    /// The walk's internal consistency.
    pub closed spec fn wf(&self) -> bool {
        &&& self.cells@.len() >= 1
        &&& no_duplicates(self.cells@)
        &&& forall|k: u128| #[trigger]
            self.keys@.contains(k) <==> exists|i: int|
                0 <= i < self.cells@.len() && cell_key(self.cells@[i]) == k
        &&& self.parents@.len() == self.cells@.len()
        &&& self.parents@[0] is None
        &&& forall|i: int|
            0 < i < self.parents@.len() ==> (#[trigger] self.parents@[i] matches Some(link)
                && link.from < i)
        &&& self.direction < 8
        &&& self.origin <= self.cells@.len()
        &&& (self.pending matches Some(o) ==> o < self.cells@.len() && self.cells@.len()
            < self.cap)
        &&& (self.cells@.len() <= self.cap || self.cells@.len() == 1)
        &&& self.long_drop_cells < self.cells@.len()
        &&& self.long_jump_cells < self.cells@.len()
        &&& (!self.long_jump ==> self.long_jump_cells == 0)
        &&& (!self.long_jump ==> forall|i: int|
            0 <= i < self.parents@.len() ==> !is_long_jump_link(#[trigger] self.parents@[i]))
        &&& no_duplicates(self.frontier@)
        &&& forall|b: u64| #[trigger]
            self.frontier_set@.contains(b) <==> self.frontier@.contains(b)
    }

    /// A walk from `start` that visits at most `cap` cells (the start cell
    /// always counts as visited), taking the long-jump edge only when
    /// `long_jump` holds.
    pub fn new(start: Cell, cap: usize, long_jump: bool) -> (walk: Self)
        ensures
            walk.wf(),
            walk.long_jumps_allowed() == long_jump,
            walk.visited() == seq![start],
            walk.links() == seq![None::<ParentLink>],
            walk.cap() == cap,
            walk.attempts() == 0,
            walk.pending() is None,
            walk.long_drops() == 0,
            walk.long_jumps() == 0,
            walk.frontier() == Seq::<u64>::empty(),
    {
        let mut cells: Vec<Cell> = Vec::new();
        cells.push(start);
        let mut keys: HashSet<u128> = HashSet::new();
        keys.insert(key_of(start));
        let mut parents: Vec<Option<ParentLink>> = Vec::new();
        parents.push(None);
        let walk = GridWalk {
            cells,
            keys,
            parents,
            origin: 0,
            direction: 0,
            pending: None,
            cap,
            long_drop_cells: 0,
            long_jump_cells: 0,
            long_jump,
            frontier: Vec::new(),
            frontier_set: HashSet::new(),
        };
        assert forall|k: u128| #[trigger]
            walk.keys@.contains(k) <==> exists|i: int|
                0 <= i < walk.cells@.len() && cell_key(walk.cells@[i]) == k by {
            if walk.keys@.contains(k) {
                assert(cell_key(walk.cells@[0]) == k);
            }
        }
        walk
    }

    /// The edge an attempt tries after `failed` of its edges found no
    /// landing: the plain step, then the running jump, then the long jump,
    /// but only in a walk that takes it; `None` once none is left.
    pub fn edge_to_try(&self, failed: usize) -> (edge: Option<EdgeTry>)
        ensures
            edge == if failed == 0 {
                Some(EdgeTry::Plain)
            } else if failed == 1 {
                Some(EdgeTry::Jump)
            } else if failed == 2 && self.long_jumps_allowed() {
                Some(EdgeTry::LongJump)
            } else {
                None::<EdgeTry>
            },
    {
        if failed == 0 {
            Some(EdgeTry::Plain)
        } else if failed == 1 {
            Some(EdgeTry::Jump)
        } else if failed == 2 && self.long_jump {
            Some(EdgeTry::LongJump)
        } else {
            None
        }
    }

    /// Whether the walk takes the long-jump edge.
    pub fn takes_long_jumps(&self) -> (r: bool)
        ensures
            r == self.long_jumps_allowed(),
    {
        self.long_jump
    }

    /// Whether the walk stopped (or will stop) because it reached its cell
    /// cap rather than exhausting every reachable cell.
    pub fn capped(&self) -> (r: bool)
        ensures
            r == (self.visited().len() >= self.cap()),
    {
        self.cells.len() >= self.cap
    }

    /// How many cells the walk has visited.
    pub fn cell_count(&self) -> (n: usize)
        ensures
            n == self.visited().len(),
    {
        self.cells.len()
    }

    /// The `index`-th visited cell.
    pub fn cell(&self, index: usize) -> (c: Cell)
        requires
            index < self.visited().len(),
        ensures
            c == self.visited()[index as int],
    {
        self.cells[index]
    }

    /// How the `index`-th visited cell was reached.
    pub fn link(&self, index: usize) -> (l: Option<ParentLink>)
        requires
            index < self.links().len(),
        ensures
            l == self.links()[index as int],
    {
        self.parents[index]
    }

    /// How many newly reached cells were reached by a long fall.
    pub fn long_drop_cells(&self) -> (n: usize)
        ensures
            n == self.long_drops(),
    {
        self.long_drop_cells
    }

    /// How many newly reached cells were reached only by the long jump.
    pub fn long_jump_cells(&self) -> (n: usize)
        requires
            self.wf(),
        ensures
            n == self.long_jumps(),
            !self.long_jumps_allowed() ==> n == 0,
    {
        self.long_jump_cells
    }

    /// The frontier brushes, in first-seen order.
    pub fn frontier_brushes(&self) -> (brushes: Vec<u64>)
        ensures
            brushes@ == self.frontier(),
    {
        self.frontier.clone()
    }

    /// The next attempt to make, or `None` once the walk is done: every
    /// visited cell has been tried in every direction, or the walk holds as
    /// many cells as its cap. Attempt `k` is direction `k % 8` from the
    /// `k / 8`-th visited cell.
    pub fn next_attempt(&mut self) -> (attempt: Option<Attempt>)
        requires
            old(self).wf(),
            old(self).pending() is None,
        ensures
            final(self).wf(),
            final(self).visited() == old(self).visited(),
            final(self).links() == old(self).links(),
            final(self).cap() == old(self).cap(),
            final(self).long_drops() == old(self).long_drops(),
            final(self).long_jumps() == old(self).long_jumps(),
            final(self).long_jumps_allowed() == old(self).long_jumps_allowed(),
            final(self).frontier() == old(self).frontier(),
            ({
                let k = old(self).attempts();
                let n = old(self).visited().len();
                if k / 8 < n && n < old(self).cap() {
                    &&& attempt == Some(Attempt { origin: (k / 8) as usize, direction: (k % 8) as usize })
                    &&& final(self).attempts() == k + 1
                    &&& final(self).pending() == Some((k / 8) as usize)
                } else {
                    &&& attempt is None
                    &&& final(self).attempts() == k
                    &&& final(self).pending() is None
                }
            }),
    {
        if self.origin < self.cells.len() && self.cells.len() < self.cap {
            let attempt = Attempt { origin: self.origin, direction: self.direction };
            self.pending = Some(self.origin);
            if self.direction + 1 == DIRECTION_COUNT {
                self.direction = 0;
                self.origin = self.origin + 1;
            } else {
                self.direction = self.direction + 1;
            }
            Some(attempt)
        } else {
            None
        }
    }

    /// Reports that the pending attempt landed in `cell`, by `kind`
    /// (stepping aside first when `via`), falling further than the ordinary
    /// drop bound when `long_drop`. A landing by the long-jump edge, which
    /// only a walk that takes that edge makes, counts as a long-jump cell.
    /// Returns whether `cell` is newly visited; a cell already visited is
    /// left as it was first reached.
    #[verifier::spinoff_prover]
    pub fn record_landing(
        &mut self,
        cell: Cell,
        kind: EdgeKind,
        via: bool,
        long_drop: bool,
    ) -> (new: bool)
        requires
            old(self).wf(),
            old(self).pending() is Some,
            kind == EdgeKind::LongJump ==> old(self).long_jumps_allowed(),
        ensures
            final(self).wf(),
            final(self).pending() is None,
            final(self).cap() == old(self).cap(),
            final(self).attempts() == old(self).attempts(),
            final(self).frontier() == old(self).frontier(),
            final(self).long_jumps_allowed() == old(self).long_jumps_allowed(),
            new == !old(self).visited().contains(cell),
            new ==> {
                &&& final(self).visited() == old(self).visited().push(cell)
                &&& final(self).links() == old(self).links().push(
                    Some(ParentLink { from: old(self).pending()->0, kind, via }),
                )
                &&& final(self).long_drops() == old(self).long_drops() + if long_drop {
                    1int
                } else {
                    0
                }
                &&& final(self).long_jumps() == old(self).long_jumps() + if kind
                    == EdgeKind::LongJump {
                    1int
                } else {
                    0
                }
            },
            !new ==> {
                &&& final(self).visited() == old(self).visited()
                &&& final(self).links() == old(self).links()
                &&& final(self).long_drops() == old(self).long_drops()
                &&& final(self).long_jumps() == old(self).long_jumps()
            },
    {
        let from = match self.pending {
            Some(o) => o,
            None => 0,
        };
        self.pending = None;
        let key = key_of(cell);
        let ghost old_cells = self.cells@;
        proof {
            if old_cells.contains(cell) {
                let i = choose|i: int| 0 <= i < old_cells.len() && old_cells[i] == cell;
                assert(self.keys@.contains(key));
            }
            if self.keys@.contains(key) {
                let i = choose|i: int| 0 <= i < old_cells.len() && cell_key(old_cells[i]) == key;
                lemma_cell_key_injective(old_cells[i], cell);
                assert(old_cells.contains(cell));
            }
        }
        let fresh = self.keys.insert(key);
        if fresh {
            self.cells.push(cell);
            self.parents.push(Some(ParentLink { from, kind, via }));
            if long_drop {
                self.long_drop_cells = self.long_drop_cells + 1;
            }
            if kind == EdgeKind::LongJump {
                self.long_jump_cells = self.long_jump_cells + 1;
            }
            proof {
                let cells = self.cells@;
                assert forall|a: int, b: int| 0 <= a < b < cells.len() implies cells[a]
                    != cells[b] by {
                    if b == old_cells.len() {
                        assert(old_cells[a] == cells[a]);
                    }
                }
                assert forall|k: u128| #[trigger]
                    self.keys@.contains(k) <==> exists|i: int|
                        0 <= i < cells.len() && cell_key(cells[i]) == k by {
                    if self.keys@.contains(k) {
                        if k == key {
                            assert(cell_key(cells[old_cells.len() as int]) == k);
                        } else {
                            let i = choose|i: int|
                                0 <= i < old_cells.len() && cell_key(old_cells[i]) == k;
                            assert(cell_key(cells[i]) == k);
                        }
                    }
                    if exists|i: int| 0 <= i < cells.len() && cell_key(cells[i]) == k {
                        let i = choose|i: int| 0 <= i < cells.len() && cell_key(cells[i]) == k;
                        if i < old_cells.len() {
                            assert(cell_key(old_cells[i]) == k);
                        }
                    }
                }
                assert forall|i: int| 0 < i < self.parents@.len() implies (
                #[trigger] self.parents@[i] matches Some(link) && link.from < i) by {
                    if i < old_cells.len() {
                        assert(self.parents@[i] == old(self).parents@[i]);
                    }
                }
                if !self.long_jump {
                    assert forall|i: int| 0 <= i < self.parents@.len() implies !is_long_jump_link(
                        #[trigger] self.parents@[i],
                    ) by {
                        if i < old_cells.len() {
                            assert(self.parents@[i] == old(self).parents@[i]);
                        }
                    }
                }
            }
        }
        fresh
    }

    /// Reports that the pending attempt reached no new cell, stopped by
    /// `brushes` (possibly none). Each brush not already on the frontier is
    /// appended to it, in order.
    pub fn record_blocked(&mut self, brushes: &[u64])
        requires
            old(self).wf(),
            old(self).pending() is Some,
        ensures
            final(self).wf(),
            final(self).pending() is None,
            final(self).visited() == old(self).visited(),
            final(self).links() == old(self).links(),
            final(self).cap() == old(self).cap(),
            final(self).attempts() == old(self).attempts(),
            final(self).long_drops() == old(self).long_drops(),
            final(self).long_jumps() == old(self).long_jumps(),
            final(self).long_jumps_allowed() == old(self).long_jumps_allowed(),
            final(self).frontier() == append_unique(old(self).frontier(), brushes@),
    {
        self.pending = None;
        let ghost start = self.frontier@;
        let mut i: usize = 0;
        while i < brushes.len()
            invariant
                i <= brushes@.len(),
                self.frontier@ == append_unique(start, brushes@.take(i as int)),
                self.cells@ == old(self).cells@,
                self.keys@ == old(self).keys@,
                self.parents@ == old(self).parents@,
                self.origin == old(self).origin,
                self.direction == old(self).direction,
                self.pending is None,
                self.cap == old(self).cap,
                self.long_drop_cells == old(self).long_drop_cells,
                self.long_jump_cells == old(self).long_jump_cells,
                self.long_jump == old(self).long_jump,
                old(self).wf(),
                no_duplicates(self.frontier@),
                forall|b: u64| #[trigger]
                    self.frontier_set@.contains(b) <==> self.frontier@.contains(b),
            decreases brushes@.len() - i,
        {
            let b = brushes[i];
            assert(brushes@.take(i + 1).drop_last() =~= brushes@.take(i as int));
            if self.frontier_set.insert(b) {
                let ghost before = self.frontier@;
                self.frontier.push(b);
                proof {
                    assert forall|x: int, y: int| 0 <= x < y < self.frontier@.len() implies
                        self.frontier@[x] != self.frontier@[y] by {
                        if y == before.len() {
                            assert(before.contains(before[x]));
                        }
                    }
                    assert forall|c: u64| #[trigger]
                        self.frontier_set@.contains(c) <==> self.frontier@.contains(c) by {
                        if c == b {
                            assert(self.frontier@[before.len() as int] == b);
                        } else if self.frontier@.contains(c) {
                            let j = choose|j: int| 0 <= j < self.frontier@.len() && self.frontier@[j] == c;
                            assert(before[j] == c);
                        }
                        if before.contains(c) {
                            let j = choose|j: int| 0 <= j < before.len() && before[j] == c;
                            assert(self.frontier@[j] == c);
                        }
                    }
                }
            }
            i = i + 1;
        }
        assert(brushes@.take(brushes@.len() as int) =~= brushes@);
    }
}

/// One step of a path back to the start: the visited cell stepped to, the
/// edge crossed, and whether the walk stepped aside first.
#[derive(Debug, Clone, Copy, PartialEq, Eq, Structural)]
pub struct PathStep {
    /// The visit index of the cell this step reaches.
    pub cell: usize,
    /// The edge crossed to reach it.
    pub kind: EdgeKind,
    /// Whether the walk stepped aside before crossing.
    pub via: bool,
}

/// The edges one attempt tries, in order, until one of them lands.
#[derive(Debug, Clone, Copy, PartialEq, Eq, Structural)]
pub enum EdgeTry {
    /// The plain step (a walk, a step up, or a fall).
    Plain,
    /// The ordinary running jump.
    Jump,
    /// The long jump.
    LongJump,
}

/// The edge kind a landing by `edge` records: the plain step's own kind
/// `plain` (a walk, a step up or a drop, as the host measured the
/// landing), the jump, or the long jump.
pub fn landing_kind(edge: EdgeTry, plain: EdgeKind) -> (kind: EdgeKind)
    ensures
        kind == match edge {
            EdgeTry::Plain => plain,
            EdgeTry::Jump => EdgeKind::Jump,
            EdgeTry::LongJump => EdgeKind::LongJump,
        },
{
    match edge {
        EdgeTry::Plain => plain,
        EdgeTry::Jump => EdgeKind::Jump,
        EdgeTry::LongJump => EdgeKind::LongJump,
    }
}

/// The steps from `cell` back toward the start, nearest first, following
/// `links`.
pub open spec fn steps_back(links: Seq<Option<ParentLink>>, cell: int) -> Seq<PathStep>
    decreases cell,
{
    if 0 < cell < links.len() {
        match links[cell] {
            Some(link) => if link.from < cell {
                seq![PathStep { cell: cell as usize, kind: link.kind, via: link.via }]
                    + steps_back(links, link.from as int)
            } else {
                Seq::empty()
            },
            None => Seq::empty(),
        }
    } else {
        Seq::empty()
    }
}

/// The start step every path begins with.
pub open spec fn start_step() -> PathStep {
    PathStep { cell: 0, kind: EdgeKind::Walk, via: false }
}

impl GridWalk {
    /// The path from the start cell to the `goal`-th visited cell: the
    /// start first (as a plain walk step), then every cell the links lead
    /// through, in walking order, ending at `goal`.
    pub fn path_to(&self, goal: usize) -> (path: Vec<PathStep>)
        requires
            self.wf(),
            goal < self.visited().len(),
        ensures
            path@ == seq![start_step()] + steps_back(self.links(), goal as int).reverse(),
    {
        let mut reversed: Vec<PathStep> = Vec::new();
        let mut cell = goal;
        while cell != 0
            invariant
                self.wf(),
                cell < self.cells@.len(),
                reversed@ + steps_back(self.parents@, cell as int) == steps_back(
                    self.parents@,
                    goal as int,
                ),
            decreases cell,
        {
            proof {
                assert(self.parents@[cell as int] is Some);
            }
            let link = self.parents[cell].unwrap();
            let step = PathStep { cell, kind: link.kind, via: link.via };
            proof {
                assert(steps_back(self.parents@, cell as int) == seq![step] + steps_back(
                    self.parents@,
                    link.from as int,
                ));
                assert(reversed@.push(step) + steps_back(self.parents@, link.from as int)
                    =~= reversed@ + (seq![step] + steps_back(self.parents@, link.from as int)));
            }
            reversed.push(step);
            cell = link.from;
        }
        assert(steps_back(self.parents@, cell as int) =~= Seq::<PathStep>::empty());
        assert(reversed@ =~= steps_back(self.parents@, goal as int));
        let mut path: Vec<PathStep> = Vec::new();
        path.push(PathStep { cell: 0, kind: EdgeKind::Walk, via: false });
        let mut k: usize = reversed.len();
        while k > 0
            invariant
                k <= reversed@.len(),
                path@ == seq![start_step()] + reversed@.subrange(k as int, reversed@.len() as int).reverse(),
            decreases k,
        {
            k = k - 1;
            path.push(reversed[k]);
            assert(reversed@.subrange(k as int, reversed@.len() as int) =~= seq![reversed@[k as int]]
                + reversed@.subrange(k + 1, reversed@.len() as int));
            assert(reversed@.subrange(k as int, reversed@.len() as int).reverse() =~= reversed@.subrange(
                k + 1,
                reversed@.len() as int,
            ).reverse().push(reversed@[k as int]));
        }
        assert(reversed@.subrange(0, reversed@.len() as int) =~= reversed@);
        path
    }
}

/// A path found through the links is connected: it starts at the goal
/// (when the goal is not the start), every step's link leads to the next
/// step's cell (or to the start, for the last one), and every cell on it
/// was visited before the one it leads from.
#[verifier::spinoff_prover]
pub proof fn lemma_steps_back_connected(walk: GridWalk, goal: int)
    requires
        walk.wf(),
        0 <= goal < walk.visited().len(),
    ensures
        ({
            let steps = steps_back(walk.links(), goal);
            &&& goal > 0 ==> steps.len() > 0 && steps[0].cell == goal
            &&& forall|k: int|
                0 <= k < steps.len() ==> {
                    &&& 0 < (#[trigger] steps[k]).cell < walk.visited().len()
                    &&& walk.links()[steps[k].cell as int] matches Some(link) && link.kind
                        == steps[k].kind && link.via == steps[k].via
                        && (if k + 1 < steps.len() {
                        link.from == steps[k + 1].cell
                    } else {
                        link.from == 0
                    })
                }
        }),
    decreases goal,
{
    let links = walk.links();
    if goal > 0 {
        let link = links[goal]->0;
        lemma_steps_back_connected(walk, link.from as int);
        let rest = steps_back(links, link.from as int);
        let steps = steps_back(links, goal);
        assert(steps == seq![PathStep { cell: goal as usize, kind: link.kind, via: link.via }]
            + rest);
        assert forall|k: int| 0 <= k < steps.len() implies {
            &&& 0 < (#[trigger] steps[k]).cell < walk.visited().len()
            &&& walk.links()[steps[k].cell as int] matches Some(l) && l.kind == steps[k].kind
                && l.via == steps[k].via && (if k + 1 < steps.len() {
                l.from == steps[k + 1].cell
            } else {
                l.from == 0
            })
        } by {
            if k > 0 {
                assert(steps[k] == rest[k - 1]);
                if k + 1 < steps.len() {
                    assert(steps[k + 1] == rest[k]);
                }
            } else if rest.len() > 0 {
                assert(steps[1] == rest[0]);
            }
        }
    }
}

/// The walk never holds more cells than its cap, beyond the start cell.
pub proof fn lemma_walk_respects_cap(walk: GridWalk)
    requires
        walk.wf(),
    ensures
        walk.visited().len() <= walk.cap() || walk.visited().len() == 1,
        no_duplicates(walk.visited()),
{
}

/// Following links from any visited cell only ever steps to an earlier
/// cell, so it always ends at the start cell.
pub proof fn lemma_links_point_back(walk: GridWalk, i: int)
    requires
        walk.wf(),
        0 < i < walk.visited().len(),
    ensures
        walk.links()[i] matches Some(link) && link.from < i,
{
}

/// A walk that does not take the long-jump edge never crosses it: no step
/// on the way back from any visited cell, and so no step of any path the
/// walk gives, is a long jump.
pub proof fn lemma_no_long_jump_unless_allowed(walk: GridWalk, goal: int)
    requires
        walk.wf(),
        !walk.long_jumps_allowed(),
        0 <= goal < walk.visited().len(),
    ensures
        forall|k: int|
            0 <= k < steps_back(walk.links(), goal).len() ==> (#[trigger] steps_back(
                walk.links(),
                goal,
            )[k]).kind != EdgeKind::LongJump,
        forall|k: int|
            0 <= k < (seq![start_step()] + steps_back(walk.links(), goal).reverse()).len() ==> (
            #[trigger] (seq![start_step()] + steps_back(walk.links(), goal).reverse())[k]).kind
                != EdgeKind::LongJump,
    decreases goal,
{
    let links = walk.links();
    let steps = steps_back(links, goal);
    if goal > 0 {
        let link = links[goal]->0;
        assert(!is_long_jump_link(links[goal]));
        lemma_no_long_jump_unless_allowed(walk, link.from as int);
        let rest = steps_back(links, link.from as int);
        assert(steps == seq![PathStep { cell: goal as usize, kind: link.kind, via: link.via }]
            + rest);
        assert forall|k: int| 0 <= k < steps.len() implies (#[trigger] steps[k]).kind
            != EdgeKind::LongJump by {
            if k > 0 {
                assert(steps[k] == rest[k - 1]);
            }
        }
    }
    let path = seq![start_step()] + steps.reverse();
    assert forall|k: int| 0 <= k < path.len() implies (#[trigger] path[k]).kind
        != EdgeKind::LongJump by {
        if k > 0 {
            assert(path[k] == steps.reverse()[k - 1]);
            assert(steps.reverse()[k - 1] == steps[steps.len() - 1 - (k - 1)]);
        }
    }
}

} // verus!
