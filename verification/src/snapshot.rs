//! What a draw needs to know of every record, computed in one pass over the
//! records and one over the timeline.
use crate::app::App;
use crate::spine;
use crate::spine::{NodeView, Spine};
use vstd::prelude::*;

verus! {

/// Depth, visibility and hidden slots of every record, by position.
#[derive(Debug)]
pub struct LayoutSnapshot {
    /// Number of ancestors, up to the largest number that fits.
    pub depths: Vec<u8>,
    /// Every ancestor is expanded.
    pub ancestor_visible: Vec<bool>,
    /// Slots of the timeline below the record, up to the largest number that
    /// fits.
    pub descendant_counts: Vec<u32>,
}

/// A number, held back at a limit.
pub open spec fn held(n: int, limit: int) -> int {
    if n < limit {
        n
    } else {
        limit
    }
}

impl LayoutSnapshot {
    /// The snapshot is that of a spine.
    pub open spec fn describes(self, s: Spine) -> bool {
        &&& self.depths@.len() == s.nodes.len()
        &&& self.ancestor_visible@.len() == s.nodes.len()
        &&& self.descendant_counts@.len() == s.nodes.len()
        &&& forall|i: int|
            0 <= i < s.nodes.len() ==> #[trigger] self.depths@[i] == held(
                spine::depth(s.nodes, i),
                u8::MAX as int,
            )
        &&& forall|i: int|
            0 <= i < s.nodes.len() ==> #[trigger] self.ancestor_visible@[i] == spine::unfolded(
                s.nodes,
                i,
            )
        &&& forall|i: int|
            0 <= i < s.nodes.len() ==> #[trigger] self.descendant_counts@[i] == held(
                s.below(s.nodes[i].start.id) as int,
                u32::MAX as int,
            )
    }
}

impl LayoutSnapshot {
    /// The depth that the snapshot has for an id.
    pub open spec fn depth_at(self, s: Spine, id: Seq<char>) -> u8 {
        let i = spine::pos(s.nodes, id);
        if spine::known(s.nodes, id) && i < self.depths@.len() {
            self.depths@[i]
        } else {
            0
        }
    }

    /// The visibility that the snapshot has for an id.
    pub open spec fn visible_at(self, s: Spine, id: Seq<char>) -> bool {
        let i = spine::pos(s.nodes, id);
        spine::known(s.nodes, id) && i < self.ancestor_visible@.len() ==> self.ancestor_visible@[i]
    }

    /// The number of hidden slots that the snapshot has for an id.
    pub open spec fn count_at(self, s: Spine, id: Seq<char>) -> u32 {
        let i = spine::pos(s.nodes, id);
        if spine::known(s.nodes, id) && i < self.descendant_counts@.len() {
            self.descendant_counts@[i]
        } else {
            0
        }
    }
}

/// Every mark is older than the stamp.
spec fn fresh(visited: Seq<u128>, stamp: u128) -> bool {
    forall|j: int| 0 <= j < visited.len() ==> #[trigger] visited[j] < stamp
}

/// No mark is newer than the stamp.
spec fn used(visited: Seq<u128>, stamp: u128) -> bool {
    forall|j: int| 0 <= j < visited.len() ==> #[trigger] visited[j] <= stamp
}

/// The walk so far: its positions carry the stamp, and no others do.
spec fn walked(nodes: Seq<NodeView>, t: Seq<int>, start: int, visited: Seq<u128>, stamp: u128) -> bool {
    &&& visited.len() == nodes.len()
    &&& t.len() > 0
    &&& t.no_duplicates()
    &&& forall|k: int| 0 <= k < t.len() ==> 0 <= #[trigger] t[k] < nodes.len()
    &&& forall|j: int|
        0 <= j < visited.len() ==> ((#[trigger] visited[j]) == stamp <==> t.contains(j))
    &&& spine::trail_from(nodes, t) == spine::trail(nodes, start)
}

/// A walk goes on to a parent that it has not seen.
proof fn lemma_walk(
    nodes: Seq<NodeView>,
    t: Seq<int>,
    start: int,
    visited: Seq<u128>,
    stamp: u128,
    p: int,
)
    requires
        walked(nodes, t, start, visited, stamp),
        spine::up(nodes, t.last()) == Some(p),
        0 <= p < nodes.len(),
        visited[p] != stamp,
    ensures
        t.len() < nodes.len(),
        walked(nodes, t.push(p), start, visited.update(p, stamp), stamp),
{
    let u = t.push(p);
    spine::lemma_trail_len(t, nodes.len() as int);
    assert(!t.contains(p));
    assert forall|k: int| 0 <= k < u.len() implies 0 <= #[trigger] u[k] < nodes.len() by {
        if k < t.len() {
            assert(u[k] == t[k]);
        }
    }
    assert(u.no_duplicates());
    spine::lemma_trail_len(u, nodes.len() as int);
    let w = visited.update(p, stamp);
    assert forall|j: int| 0 <= j < w.len() implies ((#[trigger] w[j]) == stamp <==> u.contains(
        j,
    )) by {
        if j == p {
            assert(u[t.len() as int] == p);
        } else {
            assert(w[j] == visited[j]);
            if t.contains(j) {
                let k = choose|k: int| 0 <= k < t.len() && t[k] == j;
                assert(u[k] == j);
            }
            if u.contains(j) {
                let k = choose|k: int| 0 <= k < u.len() && u[k] == j;
                assert(t[k] == j);
            }
        }
    }
}

/// A walk that cannot go on has seen everything.
proof fn lemma_walk_ends(nodes: Seq<NodeView>, t: Seq<int>, start: int, visited: Seq<u128>, stamp: u128)
    requires
        walked(nodes, t, start, visited, stamp),
        spine::up(nodes, t.last()) matches Some(p) ==> 0 <= p < nodes.len() && visited[p] == stamp,
    ensures
        t == spine::trail(nodes, start),
{
}

/// A walk that starts.
proof fn lemma_walk_starts(nodes: Seq<NodeView>, start: int, visited: Seq<u128>, stamp: u128)
    requires
        visited.len() == nodes.len(),
        0 <= start < nodes.len(),
        fresh(visited, stamp),
    ensures
        walked(nodes, seq![start], start, visited.update(start, stamp), stamp),
{
    let t = seq![start];
    let w = visited.update(start, stamp);
    assert(t[0] == start);
    assert forall|j: int| 0 <= j < w.len() implies ((#[trigger] w[j]) == stamp <==> t.contains(
        j,
    )) by {
        if j != start {
            assert(w[j] == visited[j]);
        }
    }
}

/// A slot lies below a record where the record is an ancestor of the slot's
/// owner.
proof fn lemma_below(nodes: Seq<NodeView>, j: int, o: Seq<char>)
    requires
        spine::distinct(nodes),
        0 <= j < nodes.len(),
    ensures
        (o != nodes[j].start.id && spine::reaches(nodes, nodes[j].start.id, o)) == (spine::known(
            nodes,
            o,
        ) && spine::above(nodes, j, spine::pos(nodes, o))),
{
    spine::lemma_pos(nodes, j);
    if spine::known(nodes, o) {
        let i = spine::pos(nodes, o);
        spine::lemma_trail_of(nodes, i);
        if o == nodes[j].start.id {
            assert(i == j);
            let tr = spine::trail(nodes, i);
            assert forall|k: int| 1 <= k < tr.len() implies #[trigger] tr[k] != j by {
                assert(tr[0] == i);
            }
        }
    }
}

impl App {
    /// Number of ancestors, found with a stamp in a shared buffer.
    fn compute_activity_depth(&self, index: usize, visited: &mut Vec<u128>, stamp: u128) -> (r: u8)
        requires
            self.indexed(),
            index < self.activities@.len(),
            old(visited)@.len() == self.activities@.len(),
            fresh(old(visited)@, stamp),
        ensures
            final(visited)@.len() == old(visited)@.len(),
            used(final(visited)@, stamp),
            r == held(spine::depth(self.spine().nodes, index as int), u8::MAX as int),
    {
        let ghost nodes = self.spine().nodes;
        let ghost mut t: Seq<int> = seq![index as int];
        proof {
            lemma_walk_starts(nodes, index as int, visited@, stamp);
        }
        let mut cursor: usize = index;
        visited.set(cursor, stamp);
        let mut depth: u8 = 0;
        loop
            invariant
                self.indexed(),
                nodes == self.spine().nodes,
                cursor < self.activities@.len(),
                walked(nodes, t, index as int, visited@, stamp),
                used(visited@, stamp),
                t.last() == cursor,
                depth == held(t.len() - 1, u8::MAX as int),
            ensures
                t == spine::trail(nodes, index as int),
            decreases nodes.len() - t.len(),
        {
            match self.parent_position(cursor) {
                None => {
                    proof {
                        lemma_walk_ends(nodes, t, index as int, visited@, stamp);
                    }
                    break;
                },
                Some(p) => {
                    if visited[p] == stamp {
                        proof {
                            lemma_walk_ends(nodes, t, index as int, visited@, stamp);
                        }
                        break;
                    }
                    proof {
                        lemma_walk(nodes, t, index as int, visited@, stamp, p as int);
                        t = t.push(p as int);
                    }
                    visited.set(p, stamp);
                    depth = depth.saturating_add(1);
                    cursor = p;
                },
            }
        }
        depth
    }

    /// Every ancestor is expanded, found with a stamp in a shared buffer.
    fn compute_ancestor_visible(&self, index: usize, visited: &mut Vec<u128>, stamp: u128) -> (r:
        bool)
        requires
            self.indexed(),
            index < self.activities@.len(),
            old(visited)@.len() == self.activities@.len(),
            fresh(old(visited)@, stamp),
        ensures
            final(visited)@.len() == old(visited)@.len(),
            used(final(visited)@, stamp),
            r == spine::unfolded(self.spine().nodes, index as int),
    {
        let ghost nodes = self.spine().nodes;
        let ghost mut t: Seq<int> = seq![index as int];
        proof {
            lemma_walk_starts(nodes, index as int, visited@, stamp);
        }
        let mut cursor: usize = index;
        visited.set(cursor, stamp);
        loop
            invariant
                self.indexed(),
                nodes == self.spine().nodes,
                cursor < self.activities@.len(),
                walked(nodes, t, index as int, visited@, stamp),
                used(visited@, stamp),
                t.last() == cursor,
                old(visited)@.len() == nodes.len(),
                forall|k: int| 1 <= k < t.len() ==> nodes[#[trigger] t[k]].expanded,
            ensures
                t == spine::trail(nodes, index as int),
            decreases nodes.len() - t.len(),
        {
            match self.parent_position(cursor) {
                None => {
                    proof {
                        lemma_walk_ends(nodes, t, index as int, visited@, stamp);
                    }
                    break;
                },
                Some(p) => {
                    if visited[p] == stamp {
                        proof {
                            lemma_walk_ends(nodes, t, index as int, visited@, stamp);
                        }
                        break;
                    }
                    proof {
                        lemma_walk(nodes, t, index as int, visited@, stamp, p as int);
                        assert(nodes[p as int] == self.activities@[p as int]@);
                    }
                    if !self.activities[p].expanded {
                        proof {
                            let u = t.push(p as int);
                            let tr = spine::trail(nodes, index as int);
                            spine::lemma_trail(nodes, u);
                            assert(spine::trail_from(nodes, u) == tr);
                            assert(tr.take(u.len() as int)[t.len() as int] == p as int);
                            assert(tr[t.len() as int] == p as int);
                        }
                        return false;
                    }
                    proof {
                        t = t.push(p as int);
                    }
                    visited.set(p, stamp);
                    cursor = p;
                },
            }
        }
        true
    }

    /// Counts one more slot below every ancestor of a record.
    fn tally_descendants(
        &self,
        start: usize,
        counts: &mut Vec<u32>,
        visited: &mut Vec<u128>,
        stamp: u128,
    )
        requires
            self.indexed(),
            start < self.activities@.len(),
            old(counts)@.len() == self.activities@.len(),
            old(visited)@.len() == self.activities@.len(),
            fresh(old(visited)@, stamp),
        ensures
            final(visited)@.len() == old(visited)@.len(),
            used(final(visited)@, stamp),
            final(counts)@.len() == old(counts)@.len(),
            forall|j: int|
                0 <= j < old(counts)@.len() ==> #[trigger] final(counts)@[j] == held(
                    old(counts)@[j] + if spine::above(self.spine().nodes, j, start as int) {
                        1int
                    } else {
                        0
                    },
                    u32::MAX as int,
                ),
    {
        let ghost nodes = self.spine().nodes;
        let ghost mut t: Seq<int> = seq![start as int];
        proof {
            lemma_walk_starts(nodes, start as int, visited@, stamp);
        }
        let ghost before = counts@;
        let mut cursor: usize = start;
        visited.set(cursor, stamp);
        loop
            invariant
                self.indexed(),
                nodes == self.spine().nodes,
                cursor < self.activities@.len(),
                walked(nodes, t, start as int, visited@, stamp),
                used(visited@, stamp),
                t.last() == cursor,
                t[0] == start,
                counts@.len() == before.len(),
                before.len() == nodes.len(),
                forall|j: int|
                    0 <= j < before.len() ==> #[trigger] counts@[j] == held(
                        before[j] + if j != start && t.contains(j) {
                            1int
                        } else {
                            0
                        },
                        u32::MAX as int,
                    ),
            ensures
                t == spine::trail(nodes, start as int),
            decreases nodes.len() - t.len(),
        {
            match self.parent_position(cursor) {
                None => {
                    proof {
                        lemma_walk_ends(nodes, t, start as int, visited@, stamp);
                    }
                    break;
                },
                Some(p) => {
                    if visited[p] == stamp {
                        proof {
                            lemma_walk_ends(nodes, t, start as int, visited@, stamp);
                        }
                        break;
                    }
                    let ghost was = t;
                    let ghost seen = visited@;
                    proof {
                        lemma_walk(nodes, t, start as int, visited@, stamp, p as int);
                        t = t.push(p as int);
                        assert forall|j: int| 0 <= j < nodes.len() && j != p implies was.contains(j)
                            == #[trigger] t.contains(j) by {
                            assert(seen[j] == seen.update(p as int, stamp)[j]);
                        }
                        assert(t[was.len() as int] == p as int);
                        assert(was.contains(start as int)) by {
                            assert(was[0] == start);
                        }
                    }
                    visited.set(p, stamp);
                    let n: u32 = counts[p];
                    counts.set(p, n.saturating_add(1));
                    cursor = p;
                },
            }
        }
        proof {
            let tr = spine::trail(nodes, start as int);
            spine::lemma_trail_of(nodes, start as int);
            assert forall|j: int| 0 <= j < nodes.len() implies spine::above(nodes, j, start as int)
                == (j != start && tr.contains(j)) by {
                if j != start && tr.contains(j) {
                    let k = choose|k: int| 0 <= k < tr.len() && tr[k] == j;
                    assert(tr[k] == j);
                }
            }
        }
    }

    /// The layout of every record, each value computed once. One buffer of
    /// stamps serves all walks, and no walk visits a record twice.
    pub fn layout_snapshot(&self) -> (r: LayoutSnapshot)
        requires
            self.indexed(),
        ensures
            r.describes(self.spine()),
    {
        let n: usize = self.activities.len();
        let ghost s = self.spine();
        let mut depths: Vec<u8> = Vec::new();
        let mut ancestor_visible: Vec<bool> = Vec::new();
        let mut descendant_counts: Vec<u32> = Vec::new();
        let mut visited: Vec<u128> = Vec::new();
        let mut i: usize = 0;
        while i < n
            invariant
                i <= n,
                visited@.len() == i,
                descendant_counts@.len() == i,
                forall|j: int| 0 <= j < i ==> #[trigger] visited@[j] == 0,
                forall|j: int| 0 <= j < i ==> #[trigger] descendant_counts@[j] == 0,
            decreases n - i,
        {
            visited.push(0);
            descendant_counts.push(0);
            i = i + 1;
        }
        let mut stamp: u128 = 0;
        let mut index: usize = 0;
        while index < n
            invariant
                self.indexed(),
                n == self.activities@.len(),
                s == self.spine(),
                index <= n,
                stamp == 2 * index,
                visited@.len() == n,
                used(visited@, stamp),
                depths@.len() == index,
                ancestor_visible@.len() == index,
                forall|j: int|
                    0 <= j < index ==> #[trigger] depths@[j] == held(
                        spine::depth(s.nodes, j),
                        u8::MAX as int,
                    ),
                forall|j: int|
                    0 <= j < index ==> #[trigger] ancestor_visible@[j] == spine::unfolded(
                        s.nodes,
                        j,
                    ),
            decreases n - index,
        {
            stamp = stamp + 1;
            let d: u8 = self.compute_activity_depth(index, &mut visited, stamp);
            depths.push(d);
            stamp = stamp + 1;
            let v = self.compute_ancestor_visible(index, &mut visited, stamp);
            ancestor_visible.push(v);
            index = index + 1;
        }
        let mut k: usize = 0;
        while k < self.timeline.len()
            invariant
                self.indexed(),
                n == self.activities@.len(),
                s == self.spine(),
                k <= self.timeline@.len(),
                stamp <= 2 * n + k,
                visited@.len() == n,
                used(visited@, stamp),
                descendant_counts@.len() == n,
                forall|j: int|
                    0 <= j < n ==> #[trigger] descendant_counts@[j] == held(
                        spine::below_before(s, s.nodes[j].start.id, k as int) as int,
                        u32::MAX as int,
                    ),
            decreases self.timeline@.len() - k,
        {
            let ghost before = descendant_counts@;
            let ghost owner = spine::slot_owner(s.entries, s.timeline[k as int]);
            proof {
                self.lemma_indexed();
                if owner is Some {
                    assert forall|j: int| 0 <= j < n implies (owner->0
                        != (#[trigger] s.nodes[j]).start.id && spine::reaches(
                        s.nodes,
                        s.nodes[j].start.id,
                        owner->0,
                    )) == (spine::known(s.nodes, owner->0) && spine::above(
                        s.nodes,
                        j,
                        spine::pos(s.nodes, owner->0),
                    )) by {
                        lemma_below(s.nodes, j, owner->0);
                    }
                }
            }
            match self.slot_owner(k) {
                Some(o) => {
                    match self.position(o) {
                        Some(start) => {
                            stamp = stamp + 1;
                            self.tally_descendants(
                                start,
                                &mut descendant_counts,
                                &mut visited,
                                stamp,
                            );
                        },
                        None => {},
                    }
                },
                None => {},
            }
            proof {
                assert forall|j: int| 0 <= j < n implies #[trigger] descendant_counts@[j] == held(
                    spine::below_before(s, s.nodes[j].start.id, k + 1) as int,
                    u32::MAX as int,
                ) by {
                    assert(before[j] == held(
                        spine::below_before(s, s.nodes[j].start.id, k as int) as int,
                        u32::MAX as int,
                    ));
                }
            }
            k = k + 1;
        }
        LayoutSnapshot { depths, ancestor_visible, descendant_counts }
    }

    /// Depth of a record by id, read from a snapshot; 0 where it has none.
    pub fn depth_for(&self, snapshot: &LayoutSnapshot, id: &str) -> (r: u8)
        requires
            self.indexed(),
        ensures
            r == snapshot.depth_at(self.spine(), id@),
    {
        match self.position(id) {
            Some(i) => if i < snapshot.depths.len() {
                snapshot.depths[i]
            } else {
                0
            },
            None => 0,
        }
    }

    /// Visibility of a record by id, read from a snapshot; true where it has
    /// none.
    pub fn ancestor_visible_for(&self, snapshot: &LayoutSnapshot, id: &str) -> (r: bool)
        requires
            self.indexed(),
        ensures
            r == snapshot.visible_at(self.spine(), id@),
    {
        match self.position(id) {
            Some(i) => if i < snapshot.ancestor_visible.len() {
                snapshot.ancestor_visible[i]
            } else {
                true
            },
            None => true,
        }
    }

    /// Slots below a record by id, read from a snapshot; 0 where it has none.
    pub fn descendant_count_for(&self, snapshot: &LayoutSnapshot, id: &str) -> (r: u32)
        requires
            self.indexed(),
        ensures
            r == snapshot.count_at(self.spine(), id@),
    {
        match self.position(id) {
            Some(i) => if i < snapshot.descendant_counts.len() {
                snapshot.descendant_counts[i]
            } else {
                0
            },
            None => 0,
        }
    }
}

/// An id that was never started is an ancestor of nothing, also where it is
/// named as a parent, and nothing lies below it.
pub proof fn law_unknown_is_no_ancestor(s: Spine, id: Seq<char>)
    requires
        !spine::known(s.nodes, id),
    ensures
        forall|d: Seq<char>| #[trigger] spine::reaches(s.nodes, id, d) ==> d == id,
        s.below(id) == 0,
{
    lemma_nothing_below(s, id, s.timeline.len() as int);
}

proof fn lemma_nothing_below(s: Spine, id: Seq<char>, n: int)
    requires
        !spine::known(s.nodes, id),
    ensures
        spine::below_before(s, id, n) == 0,
    decreases n,
{
    if n > 0 {
        lemma_nothing_below(s, id, n - 1);
    }
}

/// A snapshot of a spine says of every id what walking the spine says: the
/// same depth and the same number of hidden slots, up to what fits, and the
/// same visibility.
pub proof fn law_snapshot_agrees(snapshot: LayoutSnapshot, s: Spine, id: Seq<char>)
    requires
        s.wf(),
        snapshot.describes(s),
    ensures
        snapshot.depth_at(s, id) == if spine::known(s.nodes, id) {
            held(spine::depth(s.nodes, spine::pos(s.nodes, id)), u8::MAX as int)
        } else {
            0
        },
        snapshot.visible_at(s, id) == spine::shown(s.nodes, id),
        snapshot.count_at(s, id) == held(s.below(id) as int, u32::MAX as int),
{
    if spine::known(s.nodes, id) {
        let i = spine::pos(s.nodes, id);
        assert(s.nodes[i].start.id == id);
    } else {
        law_unknown_is_no_ancestor(s, id);
    }
}

} // verus!
