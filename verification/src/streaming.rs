use vstd::prelude::*;
use crate::config::MAX_RENDER_DISTANCE;
use crate::position::{dist_sq, in_ball, Position};

verus! {

/// The default render distance, in chunks.
pub const RENDER_DISTANCE: i32 = 12;

/// A load intent: the chunk at this coordinate is required and not yet
/// tracked, so a generation job must be started for it.
#[derive(Copy, Clone, Debug, PartialEq, Eq, Structural)]
pub struct ChunkLoadEvent {
    pub position: Position,
}

/// An unload intent: the chunk at this coordinate is tracked but no longer
/// required, so its entry must be removed and its handle despawned.
#[derive(Copy, Clone, Debug, PartialEq, Eq, Structural)]
pub struct ChunkUnloadEvent {
    pub position: Position,
}

/// The map from a chunk coordinate to the opaque handle of its renderable
/// (or pending-renderable) representation, as the ordered list of its
/// entries. A coordinate is present exactly while a renderable or an
/// in-flight job exists for it.
pub struct LoadedChunks {
    pub entries: Vec<(Position, u64)>,
}

/// The map a list of entries stands for; a later entry for the same key
/// would win, but well-formed lists never hold one.
pub open spec fn entries_map(s: Seq<(Position, u64)>) -> Map<Position, u64>
    decreases s.len(),
{
    if s.len() == 0 {
        Map::empty()
    } else {
        entries_map(s.drop_last()).insert(s.last().0, s.last().1)
    }
}

impl View for LoadedChunks {
    type V = Map<Position, u64>;

    open spec fn view(&self) -> Map<Position, u64> {
        entries_map(self.entries@)
    }
}

/// A key appears in the entry map exactly when some entry carries it.
proof fn lemma_entries_map_contains(s: Seq<(Position, u64)>, p: Position)
    ensures
        entries_map(s).contains_key(p) <==> exists|i: int| 0 <= i < s.len() && s[i].0 == p,
    decreases s.len(),
{
    if s.len() > 0 {
        lemma_entries_map_contains(s.drop_last(), p);
        if s.last().0 != p && entries_map(s).contains_key(p) {
            let i = choose|i: int| 0 <= i < s.drop_last().len() && s.drop_last()[i].0 == p;
            assert(s[i].0 == p);
        }
        if exists|i: int| 0 <= i < s.len() && s[i].0 == p {
            let i = choose|i: int| 0 <= i < s.len() && s[i].0 == p;
            if s.last().0 != p {
                assert(s.drop_last()[i].0 == p);
            }
        }
    }
}

/// Whether all entries carry pairwise distinct keys.
pub open spec fn entries_distinct(s: Seq<(Position, u64)>) -> bool {
    forall|i: int, j: int| 0 <= i < j < s.len()
        ==> (#[trigger] s[i]).0 != (#[trigger] s[j]).0
}

/// With distinct keys, the entry map sends each entry's key to its handle.
proof fn lemma_entries_map_get(s: Seq<(Position, u64)>, i: int)
    requires
        entries_distinct(s),
        0 <= i < s.len(),
    ensures
        entries_map(s).contains_key(s[i].0),
        entries_map(s)[s[i].0] == s[i].1,
    decreases s.len(),
{
    lemma_entries_map_contains(s, s[i].0);
    if i < s.len() - 1 {
        assert(s.drop_last()[i] == s[i]);
        lemma_entries_map_get(s.drop_last(), i);
    }
}

/// Removing one entry removes exactly its key from the entry map.
proof fn lemma_entries_map_remove(s: Seq<(Position, u64)>, i: int)
    requires
        entries_distinct(s),
        0 <= i < s.len(),
    ensures
        entries_map(s.remove(i)) == entries_map(s).remove(s[i].0),
    decreases s.len(),
{
    let p = s[i].0;
    if i == s.len() - 1 {
        assert(s.remove(i) =~= s.drop_last());
        lemma_entries_map_contains(s.drop_last(), p);
        assert(!entries_map(s.drop_last()).contains_key(p));
        assert(entries_map(s).remove(p) =~= entries_map(s.drop_last()));
    } else {
        lemma_entries_map_remove(s.drop_last(), i);
        assert(s.remove(i).drop_last() =~= s.drop_last().remove(i));
        assert(s.remove(i).last() == s.last());
        assert(s.last().0 != p);
        assert(entries_map(s.remove(i)) == entries_map(s.drop_last().remove(i)).insert(
            s.last().0,
            s.last().1,
        ));
        assert(entries_map(s).remove(p) =~= entries_map(s.drop_last()).remove(p).insert(
            s.last().0,
            s.last().1,
        ));
    }
}

/// Appending an entry inserts its key into the entry map.
proof fn lemma_entries_map_push(s: Seq<(Position, u64)>, p: Position, h: u64)
    ensures
        entries_map(s.push((p, h))) == entries_map(s).insert(p, h),
{
    assert(s.push((p, h)).drop_last() =~= s);
    assert(s.push((p, h)).last() == (p, h));
}

impl LoadedChunks {
    /// Well-formedness: one entry per chunk coordinate.
    pub open spec fn wf(&self) -> bool {
        entries_distinct(self.entries@)
    }

    /// An empty loaded-chunk map.
    pub fn new() -> (r: LoadedChunks)
        ensures
            r.wf(),
            r@ == Map::<Position, u64>::empty(),
    {
        LoadedChunks { entries: Vec::new() }
    }

    /// The number of chunk coordinates the map holds.
    pub fn len(&self) -> (n: usize)
        ensures
            n == self.entries@.len(),
    {
        self.entries.len()
    }

    /// The index of the entry for `position`, if one exists.
    fn find(&self, position: &Position) -> (r: Option<usize>)
        ensures
            match r {
                Some(i) => i < self.entries@.len() && self.entries@[i as int].0 == *position,
                None => forall|i: int| 0 <= i < self.entries@.len()
                    ==> (#[trigger] self.entries@[i]).0 != *position,
            },
    {
        let mut i: usize = 0;
        let n = self.entries.len();
        while i < n
            invariant
                i <= n,
                n == self.entries@.len(),
                forall|j: int| 0 <= j < i ==> (#[trigger] self.entries@[j]).0 != *position,
            decreases n - i,
        {
            if self.entries[i].0 == *position {
                return Some(i);
            }
            i = i + 1;
        }
        None
    }

    /// Whether a renderable or pending chunk exists for `position`.
    pub fn contains(&self, position: &Position) -> (r: bool)
        ensures
            r == self@.contains_key(*position),
    {
        proof {
            lemma_entries_map_contains(self.entries@, *position);
        }
        match self.find(position) {
            Some(_) => true,
            None => false,
        }
    }

    /// The handle recorded for `position`, if one exists.
    pub fn get(&self, position: &Position) -> (r: Option<u64>)
        requires
            self.wf(),
        ensures
            self@.contains_key(*position) ==> r == Some(self@[*position]),
            !self@.contains_key(*position) ==> r is None,
    {
        proof {
            lemma_entries_map_contains(self.entries@, *position);
        }
        match self.find(position) {
            Some(i) => {
                proof {
                    lemma_entries_map_get(self.entries@, i as int);
                }
                Some(self.entries[i].1)
            }
            None => None,
        }
    }

    /// Records (or overwrites) the handle for `position`.
    pub fn insert(&mut self, position: Position, handle: u64)
        requires
            old(self).wf(),
        ensures
            final(self).wf(),
            final(self)@ == old(self)@.insert(position, handle),
    {
        proof {
            lemma_entries_map_contains(self.entries@, position);
        }
        match self.find(&position) {
            Some(i) => {
                proof {
                    lemma_entries_map_remove(self.entries@, i as int);
                }
                let ghost removed = self.entries@.remove(i as int);
                self.entries.remove(i);
                proof {
                    lemma_entries_map_push(removed, position, handle);
                    assert(entries_map(removed).insert(position, handle) =~= entries_map(
                        old(self).entries@,
                    ).insert(position, handle));
                    assert forall|a: int, b: int|
                        0 <= a < b < removed.push((position, handle)).len()
                            implies (#[trigger] removed.push((position, handle))[a]).0
                                != (#[trigger] removed.push((position, handle))[b]).0 by {
                        lemma_entries_map_contains(removed, position);
                    }
                }
                self.entries.push((position, handle));
            }
            None => {
                proof {
                    lemma_entries_map_push(self.entries@, position, handle);
                }
                self.entries.push((position, handle));
            }
        }
    }

    /// Removes the entry for `position` and hands its handle back, so the
    /// caller can despawn the chunk's renderable representation; removing
    /// an absent coordinate changes nothing.
    pub fn remove(&mut self, position: Position) -> (h: Option<u64>)
        requires
            old(self).wf(),
        ensures
            final(self).wf(),
            old(self)@.contains_key(position) ==> h == Some(old(self)@[position])
                && final(self)@ == old(self)@.remove(position),
            !old(self)@.contains_key(position) ==> h is None && final(self)@ == old(self)@
                && *final(self) == *old(self),
    {
        proof {
            lemma_entries_map_contains(self.entries@, position);
        }
        match self.find(&position) {
            Some(i) => {
                proof {
                    lemma_entries_map_get(self.entries@, i as int);
                    lemma_entries_map_remove(self.entries@, i as int);
                }
                let handle = self.entries[i].1;
                self.entries.remove(i);
                Some(handle)
            }
            None => None,
        }
    }
}


/// Whether `b` lies within one step of `a` on every axis: the cell itself
/// or one of its twenty-six neighbors.
pub open spec fn adjacent(a: Position, b: Position) -> bool {
    &&& -1 <= b.x - a.x <= 1
    &&& -1 <= b.y - a.y <= 1
    &&& -1 <= b.z - a.z <= 1
}

/// The absolute value of an integer.
pub open spec fn abs1(v: int) -> int {
    if v < 0 { -v } else { v }
}

/// The Chebyshev distance between two chunk coordinates: the number of
/// 26-connected steps from one to the other.
pub open spec fn cheb(a: Position, b: Position) -> int {
    let dx = abs1(b.x - a.x);
    let dy = abs1(b.y - a.y);
    let dz = abs1(b.z - a.z);
    if dx >= dy && dx >= dz {
        dx
    } else if dy >= dz {
        dy
    } else {
        dz
    }
}

/// One coordinate moved one step toward a target, or left alone when it is
/// already there.
pub open spec fn toward(c: int, v: int) -> int {
    if v > c {
        v - 1
    } else if v < c {
        v + 1
    } else {
        v
    }
}

/// The position one 26-connected step from `p` toward `center` on every
/// axis that still differs.
pub open spec fn step_toward(center: Position, p: Position) -> Position {
    Position {
        x: toward(center.x as int, p.x as int) as i32,
        y: toward(center.y as int, p.y as int) as i32,
        z: toward(center.z as int, p.z as int) as i32,
    }
}

/// Moving one coordinate toward a target never increases its squared
/// distance to the target, and shrinks its absolute distance by one
/// whenever they differ.
proof fn lemma_toward_closer(c: int, v: int)
    requires
        -0x8000_0000 <= c < 0x8000_0000,
        -0x8000_0000 <= v < 0x8000_0000,
    ensures
        -0x8000_0000 <= toward(c, v) < 0x8000_0000,
        (toward(c, v) - c) * (toward(c, v) - c) <= (v - c) * (v - c),
        abs1(toward(c, v) - c) == if v == c { 0int } else { abs1(v - c) - 1 },
        abs1(toward(c, v) - v) <= 1,
{
    let t = toward(c, v);
    assert((c <= t <= v) || (v <= t <= c));
    assert((t - c) * (t - c) <= (v - c) * (v - c)) by (nonlinear_arith)
        requires
            (c <= t <= v) || (v <= t <= c),
    ;
}

/// Stepping toward the center stays within the ball, stays adjacent to the
/// starting cell, and lowers the Chebyshev distance to the center by one.
proof fn lemma_step_toward(center: Position, radius: int, p: Position)
    requires
        radius >= 0,
        in_ball(center, radius, p),
        p != center,
    ensures
        in_ball(center, radius, step_toward(center, p)),
        adjacent(step_toward(center, p), p),
        cheb(center, step_toward(center, p)) == cheb(center, p) - 1,
        cheb(center, p) >= 1,
{
    lemma_toward_closer(center.x as int, p.x as int);
    lemma_toward_closer(center.y as int, p.y as int);
    lemma_toward_closer(center.z as int, p.z as int);
    let q = step_toward(center, p);
    assert(q.x == toward(center.x as int, p.x as int));
    assert(q.y == toward(center.y as int, p.y as int));
    assert(q.z == toward(center.z as int, p.z as int));
    assert(dist_sq(center, q) <= dist_sq(center, p));
}

/// Every cell of a Euclidean ball is joined to its center by 26-connected
/// steps inside the ball; so a set that holds the center and, with each of
/// its in-ball members, everything adjacent to that member, covers the
/// whole ball.
proof fn lemma_ball_reached(q: Seq<Position>, center: Position, radius: int, p: Position)
    requires
        radius >= 0,
        q.contains(center),
        forall|a: Position, b: Position|
            #![trigger q.contains(a), adjacent(a, b)]
            q.contains(a) && in_ball(center, radius, a) && adjacent(a, b) ==> q.contains(b),
        in_ball(center, radius, p),
    ensures
        q.contains(p),
    decreases cheb(center, p),
{
    if p != center {
        lemma_step_toward(center, radius, p);
        let s = step_toward(center, p);
        lemma_ball_reached(q, center, radius, s);
        assert(q.contains(s) && in_ball(center, radius, s) && adjacent(s, p));
    }
}


/// Whether `p` lies within the flood fill's search box: one step beyond
/// the render distance on every axis, since the fill enqueues the whole
/// neighborhood of every admitted cell.
pub open spec fn in_search_box(center: Position, radius: int, p: Position) -> bool {
    &&& center.x - radius - 1 <= p.x <= center.x + radius + 1
    &&& center.y - radius - 1 <= p.y <= center.y + radius + 1
    &&& center.z - radius - 1 <= p.z <= center.z + radius + 1
}

/// The axis length of the search box.
pub open spec fn search_box_dim(radius: int) -> int {
    2 * radius + 3
}

/// The dense index of a search-box cell in the visited array.
pub open spec fn box_index(center: Position, radius: int, p: Position) -> int {
    crate::chunk::lin(
        search_box_dim(radius),
        p.x - (center.x - radius - 1),
        p.y - (center.y - radius - 1),
        p.z - (center.z - radius - 1),
    )
}

/// The dense index of an in-box cell is in range, and no two in-box cells
/// share one.
proof fn lemma_box_index_bounds(center: Position, radius: int, p: Position)
    requires
        radius >= 0,
        in_search_box(center, radius, p),
    ensures
        0 <= box_index(center, radius, p)
            < search_box_dim(radius) * search_box_dim(radius) * search_box_dim(radius),
{
    crate::chunk::lemma_lin_bounds(
        search_box_dim(radius),
        p.x - (center.x - radius - 1),
        p.y - (center.y - radius - 1),
        p.z - (center.z - radius - 1),
    );
}

proof fn lemma_box_index_injective(center: Position, radius: int, p: Position, q: Position)
    requires
        radius >= 0,
        in_search_box(center, radius, p),
        in_search_box(center, radius, q),
        box_index(center, radius, p) == box_index(center, radius, q),
    ensures
        p == q,
{
    let b = search_box_dim(radius);
    crate::chunk::lemma_linearize_roundtrip(
        b,
        p.x - (center.x - radius - 1),
        p.y - (center.y - radius - 1),
        p.z - (center.z - radius - 1),
    );
    crate::chunk::lemma_linearize_roundtrip(
        b,
        q.x - (center.x - radius - 1),
        q.y - (center.y - radius - 1),
        q.z - (center.z - radius - 1),
    );
}

/// How many cells of the visited array are marked.
pub open spec fn count_true(s: Seq<bool>) -> int
    decreases s.len(),
{
    if s.len() == 0 {
        0
    } else {
        count_true(s.drop_last()) + if s.last() { 1int } else { 0int }
    }
}

proof fn lemma_count_true_le_len(s: Seq<bool>)
    ensures
        0 <= count_true(s) <= s.len(),
    decreases s.len(),
{
    if s.len() > 0 {
        lemma_count_true_le_len(s.drop_last());
    }
}

proof fn lemma_count_true_update(s: Seq<bool>, i: int)
    requires
        0 <= i < s.len(),
        !s[i],
    ensures
        count_true(s.update(i, true)) == count_true(s) + 1,
    decreases s.len(),
{
    let u = s.update(i, true);
    if i == s.len() - 1 {
        assert(u.drop_last() =~= s.drop_last());
    } else {
        assert(u.drop_last() =~= s.drop_last().update(i, true));
        lemma_count_true_update(s.drop_last(), i);
        assert(u.last() == s.last());
    }
}

/// The flood fill's bookkeeping: the visited array covers the search box,
/// the queue holds pairwise distinct in-box cells, a cell is marked exactly
/// when it has been enqueued, and the mark count matches the queue length.
pub open spec fn flood_state_wf(
    visited: Seq<bool>,
    queue: Seq<Position>,
    center: Position,
    radius: int,
) -> bool {
    &&& visited.len() == search_box_dim(radius) * search_box_dim(radius) * search_box_dim(radius)
    &&& (forall|i: int, j: int| 0 <= i < j < queue.len() ==> queue[i] != queue[j])
    &&& (forall|i: int| 0 <= i < queue.len() ==> in_search_box(center, radius, #[trigger] queue[i]))
    &&& (forall|p: Position| #[trigger] in_search_box(center, radius, p)
        ==> (visited[box_index(center, radius, p)] <==> queue.contains(p)))
    &&& count_true(visited) == queue.len()
}

/// Marks an in-box cell as visited and appends it to the search queue,
/// once: a cell that was already enqueued is left alone.
fn try_enqueue(
    visited: &mut Vec<bool>,
    queue: &mut Vec<Position>,
    center: Position,
    radius: i32,
    n: Position,
)
    requires
        radius >= 0,
        i32::MIN <= center.x - radius - 1 && center.x + radius + 1 <= i32::MAX,
        i32::MIN <= center.y - radius - 1 && center.y + radius + 1 <= i32::MAX,
        i32::MIN <= center.z - radius - 1 && center.z + radius + 1 <= i32::MAX,
        radius <= MAX_RENDER_DISTANCE,
        flood_state_wf(old(visited)@, old(queue)@, center, radius as int),
        in_search_box(center, radius as int, n),
    ensures
        flood_state_wf(final(visited)@, final(queue)@, center, radius as int),
        final(queue)@.contains(n),
        final(queue)@.len() >= old(queue)@.len(),
        final(queue)@.take(old(queue)@.len() as int) == old(queue)@,
        forall|p: Position| final(queue)@.contains(p) <==> (old(queue)@.contains(p) || p == n),
{
    let rad = radius as i64;
    let b = 2 * rad + 3;
    let ix = n.x as i64 - (center.x as i64 - rad - 1);
    let iy = n.y as i64 - (center.y as i64 - rad - 1);
    let iz = n.z as i64 - (center.z as i64 - rad - 1);
    proof {
        lemma_box_index_bounds(center, radius as int, n);
        assert(b * b <= 131 * 131 && 0 <= b * iz && b * iz <= b * b - b && 0 <= iy + b * iz
            && iy + b * iz <= b * b - 1 && 0 <= b * (iy + b * iz)
            && b * (iy + b * iz) <= b * b * b - b && b * b * b <= 131 * 131 * 131)
            by (nonlinear_arith)
            requires
                0 <= ix < b,
                0 <= iy < b,
                0 <= iz < b,
                3 <= b <= 131,
        ;
    }
    let idx = (ix + b * (iy + b * iz)) as usize;
    assert(idx == box_index(center, radius as int, n));
    let ghost prev_q = queue@;
    let ghost prev_v = visited@;
    if !visited[idx] {
        proof {
            assert(!prev_q.contains(n));
            lemma_count_true_update(prev_v, idx as int);
        }
        visited[idx] = true;
        queue.push(n);
        proof {
            assert(queue@ == prev_q.push(n));
            assert(visited@ == prev_v.update(idx as int, true));
            assert(queue@[prev_q.len() as int] == n);
            assert forall|i: int, j: int| 0 <= i < j < queue@.len()
                implies queue@[i] != queue@[j] by {
                if j == queue@.len() - 1 {
                    assert(prev_q[i] == queue@[i]);
                    assert(prev_q.contains(queue@[i]));
                }
            }
            assert forall|p: Position| #[trigger] in_search_box(center, radius as int, p)
                implies (visited@[box_index(center, radius as int, p)]
                    <==> queue@.contains(p)) by {
                lemma_box_index_bounds(center, radius as int, p);
                if box_index(center, radius as int, p) == idx as int {
                    lemma_box_index_injective(center, radius as int, p, n);
                    assert(p == n);
                } else {
                    assert(visited@[box_index(center, radius as int, p)]
                        == prev_v[box_index(center, radius as int, p)]);
                    if queue@.contains(p) {
                        let i = choose|i: int| 0 <= i < queue@.len() && queue@[i] == p;
                        assert(i < prev_q.len());
                        assert(prev_q.contains(p));
                    }
                    if prev_q.contains(p) {
                        let i = choose|i: int| 0 <= i < prev_q.len() && prev_q[i] == p;
                        assert(queue@[i] == p);
                    }
                }
            }
            assert forall|p: Position| queue@.contains(p)
                implies (prev_q.contains(p) || p == n) by {
                let i = choose|i: int| 0 <= i < queue@.len() && queue@[i] == p;
                if i < prev_q.len() {
                    assert(prev_q[i] == p);
                }
            }
            assert(queue@.take(prev_q.len() as int) =~= prev_q);
        }
    } else {
        proof {
            assert(prev_q.contains(n));
            assert(queue@.take(prev_q.len() as int) =~= prev_q);
        }
    }
}

/// A position within the ball lies within the bounding box of the ball.
proof fn lemma_ball_in_box(center: Position, radius: int, p: Position)
    requires
        radius >= 0,
        in_ball(center, radius, p),
    ensures
        center.x - radius <= p.x <= center.x + radius,
        center.y - radius <= p.y <= center.y + radius,
        center.z - radius <= p.z <= center.z + radius,
{
    assert(center.x - radius <= p.x <= center.x + radius
        && center.y - radius <= p.y <= center.y + radius
        && center.z - radius <= p.z <= center.z + radius) by (nonlinear_arith)
        requires
            radius >= 0,
            dist_sq(center, p) <= radius * radius,
    ;
}

/// Computes the required chunk coordinate set around an observer at chunk
/// coordinate `center` by bounding-box enumeration with a Euclidean
/// filter: exactly the coordinates within Euclidean distance `radius` of
/// `center`, each exactly once. The flood fill of
/// `required_positions_flood` admits the same set; both are the Euclidean
/// ball, so corners of the bounding cube farther than `radius` away are
/// not required.
pub fn required_positions(center: Position, radius: i32) -> (r: Vec<Position>)
    requires
        radius >= 0,
        i32::MIN <= center.x - radius && center.x + radius <= i32::MAX,
        i32::MIN <= center.y - radius && center.y + radius <= i32::MAX,
        i32::MIN <= center.z - radius && center.z + radius <= i32::MAX,
    ensures
        forall|p: Position| r@.contains(p) <==> in_ball(center, radius as int, p),
        forall|i: int, j: int| 0 <= i < j < r@.len() ==> r@[i] != r@[j],
{
    let mut r: Vec<Position> = Vec::new();
    let rad = radius as i64;
    let (cx, cy, cz) = (center.x as i64, center.y as i64, center.z as i64);
    proof {
        assert forall|p: Position| in_ball(center, rad as int, p) implies (cx - rad <= p.x
            <= cx + rad && cy - rad <= p.y <= cy + rad && cz - rad <= p.z <= cz + rad) by {
            lemma_ball_in_box(center, rad as int, p);
        }
    }
    let mut x: i64 = cx - rad;
    while x <= cx + rad
        invariant
            cx == center.x as int && cy == center.y as int && cz == center.z as int,
            rad == radius as int,
            radius >= 0,
            i32::MIN <= center.x - radius && center.x + radius <= i32::MAX,
            i32::MIN <= center.y - radius && center.y + radius <= i32::MAX,
            i32::MIN <= center.z - radius && center.z + radius <= i32::MAX,
            forall|p: Position| in_ball(center, rad as int, p) ==> (cx - rad <= p.x
                <= cx + rad && cy - rad <= p.y <= cy + rad && cz - rad <= p.z <= cz + rad),
            cx - rad <= x <= cx + rad + 1,
            forall|p: Position| r@.contains(p) <==> (in_ball(center, rad as int, p)
                && p.x < x),
            forall|i: int, j: int| 0 <= i < j < r@.len() ==> r@[i] != r@[j],
        decreases cx + rad + 1 - x,
    {
        let mut y: i64 = cy - rad;
        while y <= cy + rad
            invariant
                cx == center.x as int && cy == center.y as int && cz == center.z as int,
                rad == radius as int,
                radius >= 0,
                i32::MIN <= center.x - radius && center.x + radius <= i32::MAX,
                i32::MIN <= center.y - radius && center.y + radius <= i32::MAX,
                i32::MIN <= center.z - radius && center.z + radius <= i32::MAX,
                forall|p: Position| in_ball(center, rad as int, p) ==> (cx - rad <= p.x
                    <= cx + rad && cy - rad <= p.y <= cy + rad && cz - rad <= p.z <= cz + rad),
                cx - rad <= x <= cx + rad,
                cy - rad <= y <= cy + rad + 1,
                forall|p: Position| r@.contains(p) <==> (in_ball(center, rad as int, p)
                    && (p.x < x || (p.x == x && p.y < y))),
                forall|i: int, j: int| 0 <= i < j < r@.len() ==> r@[i] != r@[j],
            decreases cy + rad + 1 - y,
        {
            let mut z: i64 = cz - rad;
            while z <= cz + rad
                invariant
                    cx == center.x as int && cy == center.y as int && cz == center.z as int,
                    rad == radius as int,
                    radius >= 0,
                    i32::MIN <= center.x - radius && center.x + radius <= i32::MAX,
                    i32::MIN <= center.y - radius && center.y + radius <= i32::MAX,
                    i32::MIN <= center.z - radius && center.z + radius <= i32::MAX,
                    forall|p: Position| in_ball(center, rad as int, p) ==> (cx - rad <= p.x
                        <= cx + rad && cy - rad <= p.y <= cy + rad && cz - rad <= p.z
                        <= cz + rad),
                    cx - rad <= x <= cx + rad,
                    cy - rad <= y <= cy + rad,
                    cz - rad <= z <= cz + rad + 1,
                    forall|p: Position| r@.contains(p) <==> (in_ball(center, rad as int, p)
                        && (p.x < x || (p.x == x && (p.y < y || (p.y == y && p.z < z))))),
                    forall|i: int, j: int| 0 <= i < j < r@.len() ==> r@[i] != r@[j],
                decreases cz + rad + 1 - z,
            {
                let p = Position { x: x as i32, y: y as i32, z: z as i32 };
                if p.within_distance(&center, radius) {
                    proof {
                        assert(!r@.contains(p));
                    }
                    let ghost prev = r@;
                    r.push(p);
                    proof {
                        assert(r@ == prev.push(p));
                        assert forall|q: Position| r@.contains(q) implies (in_ball(
                            center, rad as int, q,
                        ) && (q.x < x || (q.x == x && (q.y < y || (q.y == y && q.z < z + 1)))))
                            by {
                            let i = choose|i: int| 0 <= i < r@.len() && r@[i] == q;
                            if i < prev.len() {
                                assert(prev[i] == q);
                                assert(prev.contains(q));
                            } else {
                                assert(q == p);
                            }
                        }
                        assert forall|q: Position| (in_ball(center, rad as int, q)
                            && (q.x < x || (q.x == x && (q.y < y || (q.y == y && q.z < z + 1)))))
                            implies r@.contains(q) by {
                            if q.x == x && q.y == y && q.z == z {
                                assert(q == p);
                                assert(r@[prev.len() as int] == p);
                            } else {
                                assert(prev.contains(q));
                                let i = choose|i: int| 0 <= i < prev.len() && prev[i] == q;
                                assert(r@[i] == q);
                            }
                        }
                    }
                }
                z = z + 1;
            }
            y = y + 1;
        }
        x = x + 1;
    }
    r
}



proof fn lemma_count_true_zero(s: Seq<bool>)
    requires
        forall|j: int| 0 <= j < s.len() ==> !s[j],
    ensures
        count_true(s) == 0,
    decreases s.len(),
{
    if s.len() > 0 {
        lemma_count_true_zero(s.drop_last());
    }
}

/// Enqueues the one-step neighborhood of an admitted cell within a single
/// layer: the nine cells one step away on the two horizontal axes, at a
/// fixed vertical offset; cells already enqueued are left alone.
#[verifier::rlimit(60)]
fn enqueue_slab(
    visited: &mut Vec<bool>,
    queue: &mut Vec<Position>,
    center: Position,
    radius: i32,
    p: Position,
    zoff: i32,
)
    requires
        0 <= radius <= MAX_RENDER_DISTANCE,
        i32::MIN <= center.x - radius - 1 && center.x + radius + 1 <= i32::MAX,
        i32::MIN <= center.y - radius - 1 && center.y + radius + 1 <= i32::MAX,
        i32::MIN <= center.z - radius - 1 && center.z + radius + 1 <= i32::MAX,
        flood_state_wf(old(visited)@, old(queue)@, center, radius as int),
        in_ball(center, radius as int, p),
        -1 <= zoff <= 1,
    ensures
        flood_state_wf(final(visited)@, final(queue)@, center, radius as int),
        final(queue)@.len() >= old(queue)@.len(),
        final(queue)@.take(old(queue)@.len() as int) == old(queue)@,
        forall|q: Position| final(queue)@.contains(q) <==> (old(queue)@.contains(q)
            || (q.z == p.z + zoff && -1 <= q.x - p.x <= 1 && -1 <= q.y - p.y <= 1)),
{
    proof {
        lemma_ball_in_box(center, radius as int, p);
    }
    let ghost q0 = queue@;
    let z = p.z + zoff;
    try_enqueue(visited, queue, center, radius, Position { x: p.x - 1, y: p.y - 1, z });
    try_enqueue(visited, queue, center, radius, Position { x: p.x, y: p.y - 1, z });
    try_enqueue(visited, queue, center, radius, Position { x: p.x + 1, y: p.y - 1, z });
    try_enqueue(visited, queue, center, radius, Position { x: p.x - 1, y: p.y, z });
    try_enqueue(visited, queue, center, radius, Position { x: p.x, y: p.y, z });
    try_enqueue(visited, queue, center, radius, Position { x: p.x + 1, y: p.y, z });
    try_enqueue(visited, queue, center, radius, Position { x: p.x - 1, y: p.y + 1, z });
    try_enqueue(visited, queue, center, radius, Position { x: p.x, y: p.y + 1, z });
    try_enqueue(visited, queue, center, radius, Position { x: p.x + 1, y: p.y + 1, z });
    proof {
        assert forall|q: Position| (q.z == p.z + zoff && -1 <= q.x - p.x <= 1
            && -1 <= q.y - p.y <= 1) implies queue@.contains(q) by {
            assert(q.x == p.x - 1 || q.x == p.x || q.x == p.x + 1);
            assert(q.y == p.y - 1 || q.y == p.y || q.y == p.y + 1);
        }
        assert(queue@.take(q0.len() as int) =~= q0);
    }
}

/// Enqueues the whole one-step neighborhood of an admitted cell, the cell
/// itself included; cells already enqueued are left alone.
#[verifier::rlimit(60)]
fn enqueue_neighborhood(
    visited: &mut Vec<bool>,
    queue: &mut Vec<Position>,
    center: Position,
    radius: i32,
    p: Position,
)
    requires
        0 <= radius <= MAX_RENDER_DISTANCE,
        i32::MIN <= center.x - radius - 1 && center.x + radius + 1 <= i32::MAX,
        i32::MIN <= center.y - radius - 1 && center.y + radius + 1 <= i32::MAX,
        i32::MIN <= center.z - radius - 1 && center.z + radius + 1 <= i32::MAX,
        flood_state_wf(old(visited)@, old(queue)@, center, radius as int),
        in_ball(center, radius as int, p),
    ensures
        flood_state_wf(final(visited)@, final(queue)@, center, radius as int),
        final(queue)@.len() >= old(queue)@.len(),
        final(queue)@.take(old(queue)@.len() as int) == old(queue)@,
        forall|q: Position| final(queue)@.contains(q)
            <==> (old(queue)@.contains(q) || adjacent(p, q)),
{
    let ghost q0 = queue@;
    enqueue_slab(visited, queue, center, radius, p, -1);
    enqueue_slab(visited, queue, center, radius, p, 0);
    enqueue_slab(visited, queue, center, radius, p, 1);
    proof {
        assert forall|q: Position| adjacent(p, q) implies queue@.contains(q) by {
            assert(q.z == p.z - 1 || q.z == p.z || q.z == p.z + 1);
        }
        assert(queue@.take(q0.len() as int) =~= q0);
    }
}

/// Computes the required chunk coordinate set by the streaming
/// controller's bounded flood fill: a breadth-first search from the
/// observer's chunk outward through the 26-connected neighborhood,
/// admitting a coordinate exactly when its Euclidean distance to the
/// observer's chunk is at most `radius`, and expanding from every admitted
/// coordinate. The admitted set is exactly the Euclidean ball, each
/// coordinate once: the same set the bounding-box enumeration of
/// `required_positions` admits.
#[verifier::rlimit(60)]
pub fn required_positions_flood(center: Position, radius: i32) -> (r: Vec<Position>)
    requires
        0 <= radius <= MAX_RENDER_DISTANCE,
        i32::MIN <= center.x - radius - 1 && center.x + radius + 1 <= i32::MAX,
        i32::MIN <= center.y - radius - 1 && center.y + radius + 1 <= i32::MAX,
        i32::MIN <= center.z - radius - 1 && center.z + radius + 1 <= i32::MAX,
    ensures
        forall|p: Position| r@.contains(p) <==> in_ball(center, radius as int, p),
        forall|i: int, j: int| 0 <= i < j < r@.len() ==> r@[i] != r@[j],
{
    let rad = radius as i64;
    let b = 2 * rad + 3;
    proof {
        assert(b * b <= 131 * 131 && 0 <= b * b * b && b * b * b <= 131 * 131 * 131)
            by (nonlinear_arith)
            requires
                3 <= b <= 131,
        ;
    }
    let bs = (b * b * b) as usize;
    let mut visited: Vec<bool> = Vec::new();
    let mut k: usize = 0;
    while k < bs
        invariant
            k <= bs,
            visited@.len() == k,
            forall|j: int| 0 <= j < k ==> !visited@[j],
        decreases bs - k,
    {
        visited.push(false);
        k = k + 1;
    }
    let mut queue: Vec<Position> = Vec::new();
    proof {
        lemma_count_true_zero(visited@);
        assert forall|p: Position| #[trigger] in_search_box(center, radius as int, p)
            implies (visited@[box_index(center, radius as int, p)] <==> queue@.contains(p)) by {
            lemma_box_index_bounds(center, radius as int, p);
        }
        assert(flood_state_wf(visited@, queue@, center, radius as int));
    }
    try_enqueue(&mut visited, &mut queue, center, radius, center);
    proof {
        lemma_count_true_le_len(visited@);
    }
    let mut out: Vec<Position> = Vec::new();
    let mut head: usize = 0;
    while head < queue.len()
        invariant
            0 <= radius <= MAX_RENDER_DISTANCE,
            i32::MIN <= center.x - radius - 1 && center.x + radius + 1 <= i32::MAX,
            i32::MIN <= center.y - radius - 1 && center.y + radius + 1 <= i32::MAX,
            i32::MIN <= center.z - radius - 1 && center.z + radius + 1 <= i32::MAX,
            flood_state_wf(visited@, queue@, center, radius as int),
            queue@.contains(center),
            head <= queue@.len(),
            bs == search_box_dim(radius as int) * search_box_dim(radius as int)
                * search_box_dim(radius as int),
            queue@.len() <= bs,
            forall|i: int| 0 <= i < head && in_ball(center, radius as int, #[trigger] queue@[i])
                ==> (forall|n: Position| adjacent(queue@[i], n) ==> queue@.contains(n)),
            forall|p: Position| out@.contains(p) <==> (in_ball(center, radius as int, p)
                && exists|i: int| 0 <= i < head && queue@[i] == p),
            forall|i: int, j: int| 0 <= i < j < out@.len() ==> out@[i] != out@[j],
        decreases bs - queue@.len(), queue@.len() - head,
    {
        let p = queue[head];
        head = head + 1;
        let ghost q_before = queue@;
        let ghost out_before = out@;
        if p.within_distance(&center, radius) {
            proof {
                if out@.contains(p) {
                    let i = choose|i: int| 0 <= i < head - 1 && queue@[i] == p;
                    assert(queue@[i] == queue@[head - 1]);
                    assert(false);
                }
            }
            out.push(p);
            proof {
                assert forall|q: Position| out@.contains(q) implies (in_ball(
                    center, radius as int, q,
                ) && exists|i: int| 0 <= i < head && queue@[i] == q) by {
                    let m = choose|m: int| 0 <= m < out@.len() && out@[m] == q;
                    if m < out_before.len() {
                        assert(out_before[m] == q);
                        assert(out_before.contains(q));
                    } else {
                        assert(q == p);
                        assert(queue@[head - 1] == q);
                    }
                }
                assert forall|q: Position| (in_ball(center, radius as int, q) && exists|i: int|
                    0 <= i < head && queue@[i] == q) implies out@.contains(q) by {
                    let i = choose|i: int| 0 <= i < head && queue@[i] == q;
                    if i < head - 1 {
                        assert(out_before.contains(q));
                        let m = choose|m: int| 0 <= m < out_before.len() && out_before[m] == q;
                        assert(out@[m] == q);
                    } else {
                        assert(q == p);
                        assert(out@[out_before.len() as int] == p);
                    }
                }
            }
            enqueue_neighborhood(&mut visited, &mut queue, center, radius, p);
            proof {
                assert forall|i: int| 0 <= i < head implies queue@[i] == q_before[i] by {
                    assert(queue@.take(q_before.len() as int)[i] == queue@[i]);
                }
                assert forall|i: int| 0 <= i < head && in_ball(
                    center, radius as int, #[trigger] queue@[i],
                ) implies (forall|n: Position| adjacent(queue@[i], n)
                    ==> queue@.contains(n)) by {
                    if i < head - 1 {
                        assert(q_before[i] == queue@[i]);
                        assert forall|n: Position| adjacent(queue@[i], n)
                            implies queue@.contains(n) by {
                            assert(q_before.contains(n));
                        }
                    } else {
                        assert(queue@[i] == p);
                    }
                }
                assert forall|q: Position| out@.contains(q) implies (in_ball(
                    center, radius as int, q,
                ) && exists|i: int| 0 <= i < head && queue@[i] == q) by {
                    let i = choose|i: int| 0 <= i < head && q_before[i] == q;
                    assert(queue@[i] == q);
                }
                assert forall|q: Position| (in_ball(center, radius as int, q) && exists|i: int|
                    0 <= i < head && queue@[i] == q) implies out@.contains(q) by {
                    let i = choose|i: int| 0 <= i < head && queue@[i] == q;
                    assert(q_before[i] == q);
                }
            }
        } else {
            proof {
                assert forall|q: Position| (in_ball(center, radius as int, q) && exists|i: int|
                    0 <= i < head && queue@[i] == q) implies out@.contains(q) by {
                    let i = choose|i: int| 0 <= i < head && queue@[i] == q;
                    assert(i < head - 1 || queue@[i] == p);
                }
            }
        }
        proof {
            lemma_count_true_le_len(visited@);
        }
    }
    proof {
        assert(queue@.contains(center));
        assert forall|p: Position| in_ball(center, radius as int, p)
            implies out@.contains(p) by {
            assert forall|a: Position, b2: Position|
                #![trigger queue@.contains(a), adjacent(a, b2)]
                queue@.contains(a) && in_ball(center, radius as int, a) && adjacent(a, b2)
                    implies queue@.contains(b2) by {
                let i = choose|i: int| 0 <= i < queue@.len() && queue@[i] == a;
            }
            lemma_ball_reached(queue@, center, radius as int, p);
        }
    }
    out
}

/// What a correct set of load intents is, for a given loaded map and
/// observer: exactly the required coordinates that are neither renderable
/// nor pending, each exactly once.
pub open spec fn load_intents_ok(
    loads: Seq<Position>,
    loaded: Map<Position, u64>,
    center: Position,
    radius: int,
) -> bool {
    &&& forall|p: Position| loads.contains(p) <==> (in_ball(center, radius, p)
        && !loaded.contains_key(p))
    &&& forall|i: int, j: int| 0 <= i < j < loads.len() ==> loads[i] != loads[j]
}

/// What a correct set of unload intents is: exactly the loaded coordinates
/// that are no longer required, each exactly once.
pub open spec fn unload_intents_ok(
    unloads: Seq<Position>,
    loaded: Map<Position, u64>,
    center: Position,
    radius: int,
) -> bool {
    &&& forall|p: Position| unloads.contains(p) <==> (loaded.contains_key(p)
        && !in_ball(center, radius, p))
    &&& forall|i: int, j: int| 0 <= i < j < unloads.len() ==> unloads[i] != unloads[j]
}

/// One streaming tick's decisions: from the observer's chunk coordinate,
/// the render distance and the loaded map, the load intents (required but
/// absent coordinates) and the unload intents (present but no longer
/// required coordinates). The required set comes from the flood fill.
pub fn compute_intents(loaded: &LoadedChunks, center: Position, radius: i32) -> (r: (
    Vec<Position>,
    Vec<Position>,
))
    requires
        loaded.wf(),
        0 <= radius <= MAX_RENDER_DISTANCE,
        i32::MIN <= center.x - radius - 1 && center.x + radius + 1 <= i32::MAX,
        i32::MIN <= center.y - radius - 1 && center.y + radius + 1 <= i32::MAX,
        i32::MIN <= center.z - radius - 1 && center.z + radius + 1 <= i32::MAX,
    ensures
        load_intents_ok(r.0@, loaded@, center, radius as int),
        unload_intents_ok(r.1@, loaded@, center, radius as int),
{
    let required = required_positions_flood(center, radius);
    let mut loads: Vec<Position> = Vec::new();
    let mut i: usize = 0;
    let n = required.len();
    while i < n
        invariant
            loaded.wf(),
            n == required@.len(),
            forall|p: Position| required@.contains(p) <==> in_ball(center, radius as int, p),
            forall|a: int, b: int| 0 <= a < b < n ==> required@[a] != required@[b],
            i <= n,
            forall|p: Position| loads@.contains(p) <==> ((exists|k: int|
                0 <= k < i && required@[k] == p) && !loaded@.contains_key(p)),
            forall|a: int, b: int| 0 <= a < b < loads@.len() ==> loads@[a] != loads@[b],
        decreases n - i,
    {
        let p = required[i];
        if !loaded.contains(&p) {
            proof {
                if loads@.contains(p) {
                    let k = choose|k: int| 0 <= k < i && required@[k] == p;
                    assert(required@[k] == required@[i as int]);
                    assert(false);
                }
            }
            let ghost prev = loads@;
            loads.push(p);
            proof {
                assert forall|q: Position| loads@.contains(q) implies ((exists|k: int|
                    0 <= k < i + 1 && required@[k] == q) && !loaded@.contains_key(q)) by {
                    let m = choose|m: int| 0 <= m < loads@.len() && loads@[m] == q;
                    if m < prev.len() {
                        assert(prev[m] == q);
                        assert(prev.contains(q));
                    } else {
                        assert(q == p);
                        assert(required@[i as int] == q);
                    }
                }
                assert forall|q: Position| ((exists|k: int| 0 <= k < i + 1
                    && required@[k] == q) && !loaded@.contains_key(q))
                    implies loads@.contains(q) by {
                    let k = choose|k: int| 0 <= k < i + 1 && required@[k] == q;
                    if k < i {
                        assert(prev.contains(q));
                        let m = choose|m: int| 0 <= m < prev.len() && prev[m] == q;
                        assert(loads@[m] == q);
                    } else {
                        assert(loads@[prev.len() as int] == p);
                    }
                }
            }
        } else {
            proof {
                assert forall|q: Position| ((exists|k: int| 0 <= k < i + 1
                    && required@[k] == q) && !loaded@.contains_key(q))
                    implies loads@.contains(q) by {
                    let k = choose|k: int| 0 <= k < i + 1 && required@[k] == q;
                    assert(k < i);
                }
            }
        }
        i = i + 1;
    }
    proof {
        assert forall|p: Position| loads@.contains(p) implies (in_ball(
            center, radius as int, p,
        ) && !loaded@.contains_key(p)) by {
            let k = choose|k: int| 0 <= k < n && required@[k] == p;
            assert(required@.contains(p));
        }
        assert forall|p: Position| (in_ball(center, radius as int, p)
            && !loaded@.contains_key(p)) implies loads@.contains(p) by {
            assert(required@.contains(p));
            let k = choose|k: int| 0 <= k < required@.len() && required@[k] == p;
        }
    }
    let mut unloads: Vec<Position> = Vec::new();
    let mut j: usize = 0;
    let m = loaded.len();
    while j < m
        invariant
            loaded.wf(),
            m == loaded.entries@.len(),
            radius >= 0,
            j <= m,
            forall|p: Position| unloads@.contains(p) <==> ((exists|k: int|
                0 <= k < j && loaded.entries@[k].0 == p) && !in_ball(center, radius as int, p)),
            forall|a: int, b: int| 0 <= a < b < unloads@.len() ==> unloads@[a] != unloads@[b],
        decreases m - j,
    {
        let p = loaded.entries[j].0;
        if !p.within_distance(&center, radius) {
            proof {
                if unloads@.contains(p) {
                    let k = choose|k: int| 0 <= k < j && loaded.entries@[k].0 == p;
                    assert((loaded.entries@[k]).0 == (loaded.entries@[j as int]).0);
                    assert(false);
                }
            }
            let ghost prev = unloads@;
            unloads.push(p);
            proof {
                assert forall|q: Position| unloads@.contains(q) implies ((exists|k: int|
                    0 <= k < j + 1 && loaded.entries@[k].0 == q) && !in_ball(
                    center, radius as int, q,
                )) by {
                    let mm = choose|mm: int| 0 <= mm < unloads@.len() && unloads@[mm] == q;
                    if mm < prev.len() {
                        assert(prev[mm] == q);
                        assert(prev.contains(q));
                    } else {
                        assert(q == p);
                        assert(loaded.entries@[j as int].0 == q);
                    }
                }
                assert forall|q: Position| ((exists|k: int| 0 <= k < j + 1
                    && loaded.entries@[k].0 == q) && !in_ball(center, radius as int, q))
                    implies unloads@.contains(q) by {
                    let k = choose|k: int| 0 <= k < j + 1 && loaded.entries@[k].0 == q;
                    if k < j {
                        assert(prev.contains(q));
                        let mm = choose|mm: int| 0 <= mm < prev.len() && prev[mm] == q;
                        assert(unloads@[mm] == q);
                    } else {
                        assert(unloads@[prev.len() as int] == p);
                    }
                }
            }
        } else {
            proof {
                assert forall|q: Position| ((exists|k: int| 0 <= k < j + 1
                    && loaded.entries@[k].0 == q) && !in_ball(center, radius as int, q))
                    implies unloads@.contains(q) by {
                    let k = choose|k: int| 0 <= k < j + 1 && loaded.entries@[k].0 == q;
                    assert(k < j);
                }
            }
        }
        j = j + 1;
    }
    proof {
        assert forall|p: Position| unloads@.contains(p) implies (loaded@.contains_key(p)
            && !in_ball(center, radius as int, p)) by {
            lemma_entries_map_contains(loaded.entries@, p);
        }
        assert forall|p: Position| (loaded@.contains_key(p) && !in_ball(
            center, radius as int, p,
        )) implies unloads@.contains(p) by {
            lemma_entries_map_contains(loaded.entries@, p);
        }
    }
    (loads, unloads)
}

/// What one completed background job leads to when its result is
/// integrated on the control thread.
#[derive(Copy, Clone, Debug, PartialEq, Eq, Structural)]
pub enum IntegrateAction {
    /// Hand the finished geometry to the renderer under this handle.
    Register(u64),
    /// The chunk turned out to be all air: despawn this handle.
    Despawn(u64),
    /// The coordinate is no longer wanted: drop the late result.
    Discard,
}

/// Applies one load intent: when no renderable or pending chunk exists for
/// the coordinate yet, records `handle` for it and reports that a job must
/// be started; a duplicate load intent for a tracked coordinate is
/// suppressed and changes nothing.
pub fn apply_load(loaded: &mut LoadedChunks, position: Position, handle: u64) -> (started: bool)
    requires
        old(loaded).wf(),
    ensures
        final(loaded).wf(),
        started == !old(loaded)@.contains_key(position),
        started ==> final(loaded)@ == old(loaded)@.insert(position, handle),
        !started ==> *final(loaded) == *old(loaded),
{
    if loaded.contains(&position) {
        false
    } else {
        loaded.insert(position, handle);
        true
    }
}

/// Integrates one completed job result on the control thread: a result for
/// a coordinate that is no longer tracked is discarded (a stale job must
/// not resurrect an unloaded chunk); a mesh for a tracked coordinate is
/// registered under its recorded handle; a no-mesh result removes the
/// coordinate and despawns its handle.
pub fn integrate_result(loaded: &mut LoadedChunks, position: Position, has_mesh: bool) -> (a:
    IntegrateAction)
    requires
        old(loaded).wf(),
    ensures
        final(loaded).wf(),
        !old(loaded)@.contains_key(position) ==> a == IntegrateAction::Discard
            && *final(loaded) == *old(loaded),
        old(loaded)@.contains_key(position) && has_mesh ==> a == IntegrateAction::Register(
            old(loaded)@[position],
        ) && *final(loaded) == *old(loaded),
        old(loaded)@.contains_key(position) && !has_mesh ==> a == IntegrateAction::Despawn(
            old(loaded)@[position],
        ) && final(loaded)@ == old(loaded)@.remove(position),
{
    match loaded.get(&position) {
        None => IntegrateAction::Discard,
        Some(handle) => {
            if has_mesh {
                IntegrateAction::Register(handle)
            } else {
                loaded.remove(position);
                IntegrateAction::Despawn(handle)
            }
        }
    }
}

/// How many entries of the list equal `p`.
pub open spec fn occurrences(s: Seq<Position>, p: Position) -> nat
    decreases s.len(),
{
    if s.len() == 0 {
        0
    } else {
        occurrences(s.drop_last(), p) + if s.last() == p { 1nat } else { 0nat }
    }
}

/// A list of pairwise distinct positions holds each of its members exactly
/// once.
proof fn lemma_distinct_occurrences(s: Seq<Position>, p: Position)
    requires
        forall|i: int, j: int| 0 <= i < j < s.len() ==> s[i] != s[j],
    ensures
        occurrences(s, p) == if s.contains(p) { 1nat } else { 0nat },
    decreases s.len(),
{
    if s.len() > 0 {
        lemma_distinct_occurrences(s.drop_last(), p);
        if s.last() == p {
            if s.drop_last().contains(p) {
                let i = choose|i: int| 0 <= i < s.drop_last().len() && s.drop_last()[i] == p;
                assert(s[i] == s[s.len() - 1]);
                assert(false);
            }
        } else {
            if s.contains(p) {
                let i = choose|i: int| 0 <= i < s.len() && s[i] == p;
                assert(s.drop_last()[i] == p);
            }
        }
    }
}

/// The streaming law for a chunk that falls out of range: a loaded
/// coordinate outside the required ball receives exactly one unload intent
/// in the tick's intent set.
pub proof fn lemma_unload_exactly_once(
    unloads: Seq<Position>,
    loaded: Map<Position, u64>,
    center: Position,
    radius: int,
    p: Position,
)
    requires
        unload_intents_ok(unloads, loaded, center, radius),
        loaded.contains_key(p),
        !in_ball(center, radius, p),
    ensures
        occurrences(unloads, p) == 1,
{
    lemma_distinct_occurrences(unloads, p);
}

/// The no-duplicate-jobs law: a tick's intents name a missing coordinate
/// exactly once, and once a load for it has been applied, no later tick
/// emits a load intent for it again while it stays tracked, so a second
/// job can never be started for it.
pub proof fn lemma_no_duplicate_jobs(
    loads_first: Seq<Position>,
    loads_second: Seq<Position>,
    before: Map<Position, u64>,
    after: Map<Position, u64>,
    center: Position,
    radius: int,
    p: Position,
    handle: u64,
)
    requires
        load_intents_ok(loads_first, before, center, radius),
        loads_first.contains(p),
        after == before.insert(p, handle),
        load_intents_ok(loads_second, after, center, radius),
    ensures
        occurrences(loads_first, p) == 1,
        !loads_second.contains(p),
{
    lemma_distinct_occurrences(loads_first, p);
    assert(after.contains_key(p));
}

} // verus!
