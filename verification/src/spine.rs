//! The mathematical model of the transcript and its activity spine: chat
//! entries, activity records, and the timeline that interleaves them in the
//! order of their arrival.
use crate::model::{ActivityKind, ActivityPhase, ActivityStatus, EventView};
use vstd::prelude::*;

verus! {

/// Which pane owns the keyboard.
#[derive(Debug, Clone, Copy, PartialEq, Eq, Structural)]
pub enum Focus {
    Input,
    Activity,
}

/// Mathematical value of a chat entry.
#[verifier::ext_equal]
pub struct EntryView {
    pub role: Seq<char>,
    pub context: Seq<char>,
    pub text: Seq<char>,
    pub revision: u64,
    pub streaming: bool,
    pub owner: Option<Seq<char>>,
}

/// Mathematical value of an activity record.
#[verifier::ext_equal]
pub struct NodeView {
    pub start: EventView,
    pub status: Option<ActivityStatus>,
    pub expanded: bool,
    pub revision: u64,
}

/// One slot of the timeline.
pub enum ItemView {
    Entry(usize),
    Activity(Seq<char>),
}

/// The transcript with its activity spine. `owners` maps a context to the
/// subagent or workflow step that runs in it, `externals` a context and a tool
/// call id to the tool activity of that call, both by position.
#[verifier::ext_equal]
pub struct Spine {
    pub entries: Seq<EntryView>,
    pub streams: Map<Seq<char>, usize>,
    pub nodes: Seq<NodeView>,
    pub pending: Map<Seq<char>, ActivityStatus>,
    pub owners: Map<Seq<char>, usize>,
    pub externals: Map<(Seq<char>, Seq<char>), usize>,
    pub timeline: Seq<ItemView>,
    pub focus: Focus,
    pub focused: Option<Seq<char>>,
    pub scroll: usize,
}

/// The next revision; it stops at the largest number.
pub open spec fn bump(r: u64) -> u64 {
    if r == u64::MAX {
        r
    } else {
        (r + 1) as u64
    }
}

// ---------------------------------------------------------------------------
// Records and their ancestors
// ---------------------------------------------------------------------------

/// Some record has the id.
pub open spec fn known(nodes: Seq<NodeView>, id: Seq<char>) -> bool {
    exists|i: int| 0 <= i < nodes.len() && (#[trigger] nodes[i]).start.id == id
}

/// Position of the record with the id.
pub open spec fn pos(nodes: Seq<NodeView>, id: Seq<char>) -> int {
    choose|i: int| 0 <= i < nodes.len() && (#[trigger] nodes[i]).start.id == id
}

/// No two records have the same id.
pub open spec fn distinct(nodes: Seq<NodeView>) -> bool {
    forall|i: int, j: int|
        0 <= i < nodes.len() && 0 <= j < nodes.len() && (#[trigger] nodes[i]).start.id == (
        #[trigger] nodes[j]).start.id ==> i == j
}

/// Position of a record's parent; `None` for a root and for a record whose
/// parent was never seen.
pub open spec fn up(nodes: Seq<NodeView>, i: int) -> Option<int> {
    match nodes[i].start.parent {
        Some(p) if known(nodes, p) => Some(pos(nodes, p)),
        _ => None,
    }
}

/// `t` continued to parents until a root, an unknown parent or a record that
/// `t` holds already.
pub open spec fn trail_from(nodes: Seq<NodeView>, t: Seq<int>) -> Seq<int>
    decreases nodes.len() + 1 - t.len(),
{
    if 0 < t.len() <= nodes.len() {
        match up(nodes, t.last()) {
            Some(p) if !t.contains(p) => trail_from(nodes, t.push(p)),
            _ => t,
        }
    } else {
        t
    }
}

/// A record and its ancestors, nearest first, each once.
pub open spec fn trail(nodes: Seq<NodeView>, i: int) -> Seq<int> {
    trail_from(nodes, seq![i])
}

/// Number of ancestors.
pub open spec fn depth(nodes: Seq<NodeView>, i: int) -> int {
    trail(nodes, i).len() - 1
}

/// Every ancestor is expanded.
pub open spec fn unfolded(nodes: Seq<NodeView>, i: int) -> bool {
    forall|k: int| 1 <= k < trail(nodes, i).len() ==> nodes[#[trigger] trail(nodes, i)[k]].expanded
}

/// The record with the id is not tucked behind a collapsed ancestor; an id
/// that was never seen is not either.
pub open spec fn shown(nodes: Seq<NodeView>, id: Seq<char>) -> bool {
    known(nodes, id) ==> unfolded(nodes, pos(nodes, id))
}

/// `a` is an ancestor of the record `i`.
pub open spec fn above(nodes: Seq<NodeView>, a: int, i: int) -> bool {
    exists|k: int| 1 <= k < trail(nodes, i).len() && #[trigger] trail(nodes, i)[k] == a
}

/// The id `a` stands for the id `d` itself, or for an ancestor of it. An id
/// that was never started is an ancestor of nothing.
pub open spec fn reaches(nodes: Seq<NodeView>, a: Seq<char>, d: Seq<char>) -> bool {
    a == d || (known(nodes, a) && known(nodes, d) && above(nodes, pos(nodes, a), pos(nodes, d)))
}

/// A list of positions without repetition is no longer than there are records.
pub proof fn lemma_trail_len(t: Seq<int>, n: int)
    requires
        n >= 0,
        t.no_duplicates(),
        forall|k: int| 0 <= k < t.len() ==> 0 <= #[trigger] t[k] < n,
    ensures
        t.len() <= n,
{
    t.unique_seq_to_set();
    vstd::set_lib::lemma_int_range(0, n);
    assert(t.to_set().subset_of(vstd::set_lib::set_int_range(0, n)));
    vstd::set_lib::lemma_len_subset(t.to_set(), vstd::set_lib::set_int_range(0, n));
}

/// Positions in a trail are positions of records, none twice, and the trail
/// starts with what it was continued from.
pub proof fn lemma_trail(nodes: Seq<NodeView>, t: Seq<int>)
    requires
        t.len() > 0,
        t.no_duplicates(),
        forall|k: int| 0 <= k < t.len() ==> 0 <= #[trigger] t[k] < nodes.len(),
    ensures
        trail_from(nodes, t).len() >= t.len(),
        trail_from(nodes, t).take(t.len() as int) == t,
        trail_from(nodes, t).no_duplicates(),
        forall|k: int|
            0 <= k < trail_from(nodes, t).len() ==> 0 <= #[trigger] trail_from(nodes, t)[k]
                < nodes.len(),
        trail_from(nodes, t).len() <= nodes.len(),
    decreases nodes.len() + 1 - t.len(),
{
    lemma_trail_len(t, nodes.len() as int);
    assert(t.take(t.len() as int) =~= t);
    if let Some(p) = up(nodes, t.last()) {
        if !t.contains(p) {
            let u = t.push(p);
            assert forall|k: int| 0 <= k < u.len() implies 0 <= #[trigger] u[k] < nodes.len() by {
                if k < t.len() {
                    assert(u[k] == t[k]);
                }
            }
            assert(u.no_duplicates());
            lemma_trail(nodes, u);
            let r = trail_from(nodes, u);
            assert(r.take(t.len() as int) =~= r.take(u.len() as int).take(t.len() as int));
            assert(u.take(t.len() as int) =~= t);
        }
    }
}

/// Facts about the trail of one record.
pub proof fn lemma_trail_of(nodes: Seq<NodeView>, i: int)
    requires
        0 <= i < nodes.len(),
    ensures
        1 <= trail(nodes, i).len() <= nodes.len(),
        trail(nodes, i)[0] == i,
        trail(nodes, i).no_duplicates(),
        forall|k: int|
            0 <= k < trail(nodes, i).len() ==> 0 <= #[trigger] trail(nodes, i)[k] < nodes.len(),
{
    lemma_trail(nodes, seq![i]);
    assert(trail(nodes, i).take(1)[0] == i);
}

/// A known id is found at its one position.
pub proof fn lemma_pos(nodes: Seq<NodeView>, i: int)
    requires
        distinct(nodes),
        0 <= i < nodes.len(),
    ensures
        known(nodes, nodes[i].start.id),
        pos(nodes, nodes[i].start.id) == i,
{
    assert(known(nodes, nodes[i].start.id));
    let k = pos(nodes, nodes[i].start.id);
    assert(nodes[k].start.id == nodes[i].start.id);
}

// ---------------------------------------------------------------------------
// What is visible
// ---------------------------------------------------------------------------

/// The ids of the visible records among the first `n` slots, in order.
pub open spec fn visible_before(
    nodes: Seq<NodeView>,
    timeline: Seq<ItemView>,
    n: int,
) -> Seq<Seq<char>>
    decreases n,
{
    if n <= 0 {
        Seq::empty()
    } else {
        let v = visible_before(nodes, timeline, n - 1);
        match timeline[n - 1] {
            ItemView::Activity(id) if known(nodes, id) && shown(nodes, id) => v.push(id),
            _ => v,
        }
    }
}

/// The owner that a slot belongs to: the record itself, or the entry's owner.
pub open spec fn slot_owner(entries: Seq<EntryView>, item: ItemView) -> Option<Seq<char>> {
    match item {
        ItemView::Activity(id) => Some(id),
        ItemView::Entry(i) => if i < entries.len() {
            entries[i as int].owner
        } else {
            None
        },
    }
}

/// How many of the first `n` slots lie below the record with the id.
pub open spec fn below_before(s: Spine, id: Seq<char>, n: int) -> nat
    decreases n,
{
    if n <= 0 {
        0
    } else {
        below_before(s, id, n - 1) + match slot_owner(s.entries, s.timeline[n - 1]) {
            Some(o) if o != id && reaches(s.nodes, id, o) => 1nat,
            _ => 0nat,
        }
    }
}

/// Where an id first stands in a list, from the `k`-th place on.
pub open spec fn place(v: Seq<Seq<char>>, id: Seq<char>, k: int) -> Option<int>
    decreases v.len() - k,
{
    if k < 0 || k >= v.len() {
        None
    } else if v[k] == id {
        Some(k)
    } else {
        place(v, id, k + 1)
    }
}

impl Spine {
    /// Ids are distinct, and no start has an end waiting for it.
    pub open spec fn records_ok(self) -> bool {
        &&& distinct(self.nodes)
        &&& forall|id: Seq<char>|
            #![trigger self.pending.contains_key(id)]
            self.pending.contains_key(id) ==> !known(self.nodes, id)
        &&& forall|c: Seq<char>|
            #![trigger self.owners[c]]
            self.owners.contains_key(c) ==> self.owners[c] < self.nodes.len()
        &&& forall|k: (Seq<char>, Seq<char>)|
            #![trigger self.externals[k]]
            self.externals.contains_key(k) ==> self.externals[k] < self.nodes.len()
    }

    /// A context streams into an entry of its own, and exactly the entries
    /// that are streamed into are marked.
    pub open spec fn streams_ok(self) -> bool {
        &&& forall|c: Seq<char>|
            #![trigger self.streams[c]]
            self.streams.contains_key(c) ==> self.streams[c] < self.entries.len()
                && self.entries[self.streams[c] as int].streaming
                && self.entries[self.streams[c] as int].context == c
        &&& forall|i: int|
            0 <= i < self.entries.len() && (#[trigger] self.entries[i]).streaming ==> {
                &&& self.streams.contains_key(self.entries[i].context)
                &&& self.streams[self.entries[i].context] == i
            }
    }

    /// A slot refers to something that exists.
    pub open spec fn slot_ok(self, item: ItemView) -> bool {
        match item {
            ItemView::Entry(i) => i < self.entries.len(),
            ItemView::Activity(id) => known(self.nodes, id),
        }
    }

    /// Every entry and every record has exactly one slot.
    pub open spec fn timeline_ok(self) -> bool {
        &&& forall|k: int| 0 <= k < self.timeline.len() ==> self.slot_ok(#[trigger] self.timeline[k])
        &&& self.timeline.no_duplicates()
        &&& forall|i: usize|
            i < self.entries.len() ==> #[trigger] self.timeline.contains(ItemView::Entry(i))
        &&& forall|i: int|
            0 <= i < self.nodes.len() ==> self.timeline.contains(
                ItemView::Activity((#[trigger] self.nodes[i]).start.id),
            )
    }

    /// While the spine owns the keyboard, the focused row is a visible one.
    pub open spec fn focus_ok(self) -> bool {
        self.focus == Focus::Activity ==> self.focused is Some && self.visible().contains(
            self.focused->0,
        )
    }

    /// What every operation keeps.
    pub open spec fn wf(self) -> bool {
        &&& self.records_ok()
        &&& self.streams_ok()
        &&& self.timeline_ok()
        &&& self.focus_ok()
    }

    /// The ids of the visible records, in order of their arrival.
    pub open spec fn visible(self) -> Seq<Seq<char>> {
        visible_before(self.nodes, self.timeline, self.timeline.len() as int)
    }

    /// How many slots of the timeline lie below the record with the id.
    pub open spec fn below(self, id: Seq<char>) -> nat {
        below_before(self, id, self.timeline.len() as int)
    }

    /// An entry is shown: it has no owner, or the owner and all of the owner's
    /// ancestors are expanded. An owner that was never seen hides it.
    pub open spec fn entry_shown(self, index: int) -> bool {
        if 0 <= index < self.entries.len() {
            match self.entries[index].owner {
                Some(o) => known(self.nodes, o) && self.nodes[pos(self.nodes, o)].expanded && shown(
                    self.nodes,
                    o,
                ),
                None => true,
            }
        } else {
            true
        }
    }

    // -----------------------------------------------------------------------
    // Events
    // -----------------------------------------------------------------------

    /// The record at `i` ended with a status.
    pub open spec fn settled(self, i: int, status: ActivityStatus) -> Spine {
        Spine {
            nodes: self.nodes.update(
                i,
                NodeView {
                    status: Some(status),
                    revision: bump(self.nodes[i].revision),
                    ..self.nodes[i]
                },
            ),
            ..self
        }
    }

    /// An end that arrived before its start is applied.
    pub open spec fn caught_up(self, id: Seq<char>) -> Spine {
        if self.pending.contains_key(id) {
            let s = Spine { pending: self.pending.remove(id), ..self };
            if known(self.nodes, id) {
                s.settled(pos(self.nodes, id), self.pending[id])
            } else {
                s
            }
        } else {
            self
        }
    }

    /// A new record, its slot, and its place as an owner: a subagent or a
    /// workflow step owns its context, a tool its call.
    pub open spec fn recorded(self, e: EventView) -> Spine {
        let i = self.nodes.len() as usize;
        Spine {
            nodes: self.nodes.push(
                NodeView { start: e, status: None, expanded: false, revision: 0 },
            ),
            owners: if e.kind == ActivityKind::Tool {
                self.owners
            } else {
                self.owners.insert(e.context, i)
            },
            externals: match e.external {
                Some(x) if e.kind == ActivityKind::Tool => self.externals.insert(
                    (e.context, x),
                    i,
                ),
                _ => self.externals,
            },
            timeline: self.timeline.push(ItemView::Activity(e.id)),
            ..self
        }
    }

    /// An activity started. A second start of the same id adds nothing.
    pub open spec fn started(self, e: EventView) -> Spine {
        if known(self.nodes, e.id) {
            self.caught_up(e.id)
        } else {
            self.recorded(e).caught_up(e.id)
        }
    }

    /// An activity ended; without a status that is an error. An end before its
    /// start waits for it.
    pub open spec fn ended(self, e: EventView) -> Spine {
        let status = match e.status {
            Some(s) => s,
            None => ActivityStatus::Error,
        };
        if known(self.nodes, e.id) {
            self.settled(pos(self.nodes, e.id), status)
        } else {
            Spine { pending: self.pending.insert(e.id, status), ..self }
        }
    }

    /// An activity event, with the focus kept on a visible row.
    pub open spec fn handled(self, e: EventView) -> Spine {
        match e.phase {
            ActivityPhase::Start => self.started(e).normalized(),
            ActivityPhase::End => self.ended(e).normalized(),
        }
    }

    // -----------------------------------------------------------------------
    // Focus
    // -----------------------------------------------------------------------

    /// The nearest ancestor, from the `k`-th on, that is collapsed and visible.
    pub open spec fn nearest_from(self, t: Seq<int>, k: int) -> Option<Seq<char>>
        decreases t.len() - k,
    {
        if k < 0 || k >= t.len() {
            None
        } else if !self.nodes[t[k]].expanded && unfolded(self.nodes, t[k]) {
            Some(self.nodes[t[k]].start.id)
        } else {
            self.nearest_from(t, k + 1)
        }
    }

    /// The nearest ancestor of the record with the id that is collapsed and
    /// visible: the one whose collapse hid it.
    pub open spec fn nearest(self, id: Seq<char>) -> Option<Seq<char>> {
        if known(self.nodes, id) {
            self.nearest_from(trail(self.nodes, pos(self.nodes, id)), 1)
        } else {
            None
        }
    }

    /// The focus on a visible row: where the focused one is hidden, on the
    /// ancestor that hides it, else on the newest, else on the composer.
    pub open spec fn normalized(self) -> Spine {
        let v = self.visible();
        if self.focus != Focus::Activity {
            self
        } else if v.len() == 0 {
            Spine { focus: Focus::Input, ..self }
        } else {
            let newest = Spine { focused: Some(v.last()), ..self };
            match self.focused {
                None => newest,
                Some(id) => if v.contains(id) {
                    self
                } else {
                    match self.nearest(id) {
                        Some(a) => Spine { focused: Some(a), ..self },
                        None => newest,
                    }
                },
            }
        }
    }

    /// The keyboard moves between the composer and the spine. The focused row
    /// is taken up again where it is visible, else the newest one is.
    pub open spec fn focus_toggled(self) -> Spine {
        let v = self.visible();
        if self.focus == Focus::Activity {
            Spine { focus: Focus::Input, ..self }
        } else if v.len() == 0 {
            self
        } else if self.focused is Some && v.contains(self.focused->0) {
            Spine { focus: Focus::Activity, ..self }
        } else {
            Spine { focus: Focus::Activity, focused: Some(v.last()), ..self }
        }
    }

    /// The focused row moves up or down by one, within the visible rows.
    pub open spec fn focus_moved(self, down: bool) -> Spine {
        let v = self.visible();
        let at = match self.focused {
            Some(id) => place(v, id, 0),
            None => None,
        };
        if v.len() == 0 {
            Spine { focus: Focus::Input, ..self }
        } else {
            let next = match at {
                Some(k) => if down {
                    if k + 1 < v.len() {
                        k + 1
                    } else {
                        k
                    }
                } else if k > 0 {
                    k - 1
                } else {
                    0
                },
                None => if down {
                    v.len() - 1
                } else {
                    0
                },
            };
            Spine { focused: Some(v[next]), ..self }
        }
    }

    /// The expansion of a record is set, or flipped by `None`.
    pub open spec fn expanded(self, id: Seq<char>, to: Option<bool>) -> Spine {
        if known(self.nodes, id) {
            let i = pos(self.nodes, id);
            let node = self.nodes[i];
            let next = match to {
                Some(b) => b,
                None => !node.expanded,
            };
            let s = if node.expanded != next {
                Spine {
                    nodes: self.nodes.update(
                        i,
                        NodeView { expanded: next, revision: bump(node.revision), ..node },
                    ),
                    ..self
                }
            } else {
                self
            };
            s.normalized()
        } else {
            self
        }
    }
}

// ---------------------------------------------------------------------------
// What the operations keep
// ---------------------------------------------------------------------------

/// Two lists of records with the same ids.
pub open spec fn same_ids(a: Seq<NodeView>, b: Seq<NodeView>) -> bool {
    a.len() == b.len() && forall|i: int|
        #![trigger a[i]]
        #![trigger b[i]]
        0 <= i < a.len() ==> a[i].start.id == b[i].start.id
}

/// Ids are found where they were found.
pub proof fn lemma_same_ids(a: Seq<NodeView>, b: Seq<NodeView>)
    requires
        same_ids(a, b),
        distinct(a),
    ensures
        distinct(b),
        forall|id: Seq<char>| #[trigger] known(a, id) == known(b, id),
        forall|id: Seq<char>| #[trigger] known(a, id) ==> pos(a, id) == pos(b, id),
{
    assert forall|id: Seq<char>| #[trigger] known(a, id) == known(b, id) by {
        if known(a, id) {
            let i = pos(a, id);
            assert(b[i].start.id == id);
        }
        if known(b, id) {
            let i = pos(b, id);
            assert(a[i].start.id == id);
        }
    }
    assert forall|id: Seq<char>| #[trigger] known(a, id) implies pos(a, id) == pos(b, id) by {
        let i = pos(a, id);
        assert(b[i].start.id == id);
        let j = pos(b, id);
        assert(a[j].start.id == id);
        assert(a[i].start.id == a[j].start.id);
    }
}

/// A new record is found at the end, and the others where they were.
pub proof fn lemma_pushed_ids(a: Seq<NodeView>, node: NodeView)
    requires
        distinct(a),
        !known(a, node.start.id),
    ensures
        distinct(a.push(node)),
        known(a.push(node), node.start.id),
        pos(a.push(node), node.start.id) == a.len(),
        forall|id: Seq<char>|
            #[trigger] known(a.push(node), id) == (known(a, id) || id == node.start.id),
        forall|id: Seq<char>| #[trigger] known(a, id) ==> pos(a.push(node), id) == pos(a, id),
{
    let b = a.push(node);
    assert forall|i: int, j: int|
        0 <= i < b.len() && 0 <= j < b.len() && (#[trigger] b[i]).start.id == (
        #[trigger] b[j]).start.id implies i == j by {
        if i < a.len() && j < a.len() {
            assert(a[i].start.id == a[j].start.id);
        } else if i < a.len() {
            assert(a[i].start.id == node.start.id);
        } else if j < a.len() {
            assert(a[j].start.id == node.start.id);
        }
    }
    assert(b[a.len() as int] == node);
    lemma_pos(b, a.len() as int);
    assert forall|id: Seq<char>| #[trigger] known(b, id) == (known(a, id) || id
        == node.start.id) by {
        if known(b, id) && id != node.start.id {
            let i = pos(b, id);
            assert(a[i].start.id == id);
        }
        if known(a, id) {
            let i = pos(a, id);
            assert(b[i].start.id == id);
        }
    }
    assert forall|id: Seq<char>| #[trigger] known(a, id) implies pos(b, id) == pos(a, id) by {
        let i = pos(a, id);
        assert(b[i].start.id == id);
        lemma_pos(b, i);
    }
}

/// A visible record with a slot is among the visible ids, and each visible id
/// is that of a visible record.
pub proof fn lemma_visible(nodes: Seq<NodeView>, timeline: Seq<ItemView>, n: int)
    requires
        0 <= n <= timeline.len(),
    ensures
        forall|k: int|
            0 <= k < n && (#[trigger] timeline[k]) is Activity && known(
                nodes,
                timeline[k]->Activity_0,
            ) && shown(nodes, timeline[k]->Activity_0) ==> visible_before(
                nodes,
                timeline,
                n,
            ).contains(timeline[k]->Activity_0),
        forall|id: Seq<char>| #[trigger]
            visible_before(nodes, timeline, n).contains(id) ==> known(nodes, id) && shown(
                nodes,
                id,
            ) && timeline.contains(ItemView::Activity(id)),
    decreases n,
{
    if n > 0 {
        lemma_visible(nodes, timeline, n - 1);
        let before = visible_before(nodes, timeline, n - 1);
        let v = visible_before(nodes, timeline, n);
        assert forall|id: Seq<char>| before.contains(id) implies #[trigger] v.contains(id) by {
            let k = choose|k: int| 0 <= k < before.len() && before[k] == id;
            assert(v[k] == id);
        }
        if timeline[n - 1] is Activity {
            let id = timeline[n - 1]->Activity_0;
            if known(nodes, id) && shown(nodes, id) {
                assert(v.last() == id);
                assert(v[v.len() - 1] == id);
            }
        }
        assert forall|id: Seq<char>| #[trigger] v.contains(id) implies known(nodes, id) && shown(
            nodes,
            id,
        ) && timeline.contains(ItemView::Activity(id)) by {
            let k = choose|k: int| 0 <= k < v.len() && v[k] == id;
            if k < before.len() {
                assert(before[k] == id);
                assert(before.contains(id));
            } else {
                assert(timeline[n - 1] == ItemView::Activity(id));
            }
        }
    }
}

impl Spine {
    /// Everything but the focus is in order.
    pub open spec fn sound(self) -> bool {
        &&& self.records_ok()
        &&& self.streams_ok()
        &&& self.timeline_ok()
    }

    /// The nearest collapsed and visible ancestor is a visible record.
    proof fn lemma_nearest(self, t: Seq<int>, k: int)
        requires
            self.sound(),
            forall|j: int| 0 <= j < t.len() ==> 0 <= #[trigger] t[j] < self.nodes.len(),
            0 <= k,
        ensures
            self.nearest_from(t, k) matches Some(a) ==> self.visible().contains(a),
        decreases t.len() - k,
    {
        if k < t.len() {
            let i = t[k];
            if !self.nodes[i].expanded && unfolded(self.nodes, i) {
                let id = self.nodes[i].start.id;
                lemma_pos(self.nodes, i);
                assert(self.timeline.contains(ItemView::Activity(id)));
                let slot = choose|x: int|
                    0 <= x < self.timeline.len() && self.timeline[x] == ItemView::Activity(id);
                assert(self.timeline[slot] is Activity);
                lemma_visible(self.nodes, self.timeline, self.timeline.len() as int);
            } else {
                self.lemma_nearest(t, k + 1);
            }
        }
    }

    /// Afterwards the focus is on a visible row.
    pub proof fn lemma_normalized(self)
        requires
            self.sound(),
        ensures
            self.normalized().wf(),
            self.normalized().sound(),
    {
        let v = self.visible();
        let r = self.normalized();
        assert(r.visible() == v);
        assert(r.sound()) by {
            assert(forall|x: ItemView| self.slot_ok(x) == r.slot_ok(x));
            assert(forall|i: usize|
                i < self.entries.len() ==> #[trigger] self.timeline.contains(ItemView::Entry(i)));
        }
        if v.len() > 0 {
            assert(v.contains(v.last())) by {
                assert(v[v.len() - 1] == v.last());
            }
        }
        if self.focused is Some && known(self.nodes, self.focused->0) {
            let i = pos(self.nodes, self.focused->0);
            lemma_trail_of(self.nodes, i);
            self.lemma_nearest(trail(self.nodes, i), 1);
        }
    }

    /// A focus on a visible row, or on the composer, keeps everything in order.
    pub proof fn lemma_refocused(self, focus: Focus, focused: Option<Seq<char>>)
        requires
            self.sound(),
            focus == Focus::Activity ==> focused is Some && self.visible().contains(focused->0),
        ensures
            (Spine { focus, focused, ..self }).wf(),
    {
        let r = Spine { focus, focused, ..self };
        assert(r.visible() == self.visible());
        assert(r.sound()) by {
            assert(forall|x: ItemView| self.slot_ok(x) == r.slot_ok(x));
            assert(forall|i: usize|
                i < self.entries.len() ==> #[trigger] self.timeline.contains(ItemView::Entry(i)));
        }
    }

    /// A change of a record other than its id keeps the spine in order.
    pub proof fn lemma_revised(self, i: int, node: NodeView)
        requires
            self.sound(),
            0 <= i < self.nodes.len(),
            node.start.id == self.nodes[i].start.id,
        ensures
            (Spine { nodes: self.nodes.update(i, node), ..self }).sound(),
    {
        let r = Spine { nodes: self.nodes.update(i, node), ..self };
        assert(same_ids(self.nodes, r.nodes));
        lemma_same_ids(self.nodes, r.nodes);
        assert forall|id: Seq<char>|
            #![trigger r.pending.contains_key(id)]
            r.pending.contains_key(id) implies !known(r.nodes, id) by {
            assert(self.pending.contains_key(id));
        }
        assert forall|c: Seq<char>|
            #![trigger r.owners[c]]
            r.owners.contains_key(c) implies r.owners[c] < r.nodes.len() by {
            assert(self.owners[c] < self.nodes.len());
        }
        assert forall|c: (Seq<char>, Seq<char>)|
            #![trigger r.externals[c]]
            r.externals.contains_key(c) implies r.externals[c] < r.nodes.len() by {
            assert(self.externals[c] < self.nodes.len());
        }
        assert forall|k: int| 0 <= k < r.timeline.len() implies r.slot_ok(
            #[trigger] r.timeline[k],
        ) by {
            assert(self.slot_ok(self.timeline[k]));
        }
        assert forall|j: int| 0 <= j < r.nodes.len() implies r.timeline.contains(
            ItemView::Activity((#[trigger] r.nodes[j]).start.id),
        ) by {
            assert(self.nodes[j].start.id == r.nodes[j].start.id);
        }
        assert(r.streams_ok()) by {
            assert(self.streams_ok());
            assert forall|c: Seq<char>|
                #![trigger r.streams[c]]
                r.streams.contains_key(c) implies r.streams[c] < r.entries.len()
                && r.entries[r.streams[c] as int].streaming
                && r.entries[r.streams[c] as int].context == c
            by {
                assert(self.streams[c] == r.streams[c]);
            }
        }
    }

    /// A start keeps the spine in order.
    pub proof fn lemma_started(self, e: EventView)
        requires
            self.sound(),
            known(self.nodes, e.id) || self.nodes.len() < usize::MAX,
        ensures
            self.started(e).sound(),
            known(self.started(e).nodes, e.id),
    {
        if known(self.nodes, e.id) {
            assert(!self.pending.contains_key(e.id));
        } else {
            let r = self.recorded(e);
            let s = self.started(e);
            lemma_pushed_ids(self.nodes, r.nodes.last());
            assert(r.nodes == self.nodes.push(r.nodes.last()));
            assert(s.nodes.len() == r.nodes.len());
            assert(same_ids(r.nodes, s.nodes));
            lemma_same_ids(r.nodes, s.nodes);
            assert forall|c: Seq<char>|
                #![trigger s.owners[c]]
                s.owners.contains_key(c) implies s.owners[c] < s.nodes.len() by {
                if self.owners.contains_key(c) {
                    assert(self.owners[c] < self.nodes.len());
                }
            }
            assert forall|c: (Seq<char>, Seq<char>)|
                #![trigger s.externals[c]]
                s.externals.contains_key(c) implies s.externals[c] < s.nodes.len() by {
                if self.externals.contains_key(c) {
                    assert(self.externals[c] < self.nodes.len());
                }
            }
            assert forall|id: Seq<char>|
                #![trigger s.pending.contains_key(id)]
                s.pending.contains_key(id) implies !known(s.nodes, id) by {
                assert(self.pending.contains_key(id));
                assert(!known(self.nodes, id));
                assert(id != e.id);
                assert(known(r.nodes, id) == known(s.nodes, id));
            }
            assert(s.timeline == self.timeline.push(ItemView::Activity(e.id)));
            assert forall|k: int| 0 <= k < s.timeline.len() implies s.slot_ok(
                #[trigger] s.timeline[k],
            ) by {
                if k < self.timeline.len() {
                    assert(self.slot_ok(self.timeline[k]));
                    assert(s.timeline[k] == self.timeline[k]);
                    if self.timeline[k] is Activity {
                        let id = self.timeline[k]->Activity_0;
                        assert(known(self.nodes, id));
                        assert(known(r.nodes, id));
                    }
                } else {
                    assert(known(r.nodes, e.id));
                }
            }
            assert forall|j: int, k: int| 0 <= j < s.timeline.len() && 0 <= k < s.timeline.len() && j
                != k implies s.timeline[j] != s.timeline[k] by {
                if j < self.timeline.len() && k < self.timeline.len() {
                    assert(self.timeline[j] != self.timeline[k]);
                } else if j < self.timeline.len() {
                    assert(self.slot_ok(self.timeline[j]));
                } else {
                    assert(self.slot_ok(self.timeline[k]));
                }
            }
            assert forall|x: ItemView|
                self.timeline.contains(x) implies #[trigger] s.timeline.contains(x) by {
                let k = choose|k: int| 0 <= k < self.timeline.len() && self.timeline[k] == x;
                assert(s.timeline[k] == x);
            }
            assert(s.timeline.contains(ItemView::Activity(e.id))) by {
                assert(s.timeline[self.timeline.len() as int] == ItemView::Activity(e.id));
            }
            assert forall|j: int| 0 <= j < s.nodes.len() implies s.timeline.contains(
                ItemView::Activity((#[trigger] s.nodes[j]).start.id),
            ) by {
                if j < self.nodes.len() {
                    assert(self.nodes[j].start.id == r.nodes[j].start.id);
                    assert(self.timeline.contains(ItemView::Activity(self.nodes[j].start.id)));
                }
                assert(r.nodes[j].start.id == s.nodes[j].start.id);
            }
            assert forall|i: usize|
                i < s.entries.len() implies #[trigger] s.timeline.contains(ItemView::Entry(i)) by {
                assert(self.timeline.contains(ItemView::Entry(i)));
            }
            assert(s.streams_ok()) by {
                assert(self.streams_ok());
                assert forall|c: Seq<char>|
                    #![trigger s.streams[c]]
                    s.streams.contains_key(c) implies s.streams[c] < s.entries.len()
                    && s.entries[s.streams[c] as int].streaming
                    && s.entries[s.streams[c] as int].context == c
                by {
                    assert(self.streams[c] == s.streams[c]);
                }
            }
        }
    }

    /// An end keeps the spine in order.
    pub proof fn lemma_ended(self, e: EventView)
        requires
            self.sound(),
        ensures
            self.ended(e).sound(),
    {
        let s = self.ended(e);
        if known(self.nodes, e.id) {
            let i = pos(self.nodes, e.id);
            self.lemma_revised(i, s.nodes[i]);
        } else {
            assert(s.nodes == self.nodes);
            assert(s.records_ok()) by {
                assert forall|id: Seq<char>|
                    #![trigger s.pending.contains_key(id)]
                    s.pending.contains_key(id) implies !known(s.nodes, id) by {
                    if id != e.id {
                        assert(self.pending.contains_key(id));
                    }
                }
                assert forall|c: Seq<char>|
                    #![trigger s.owners[c]]
                    s.owners.contains_key(c) implies s.owners[c] < s.nodes.len() by {
                    assert(self.owners[c] < self.nodes.len());
                }
                assert forall|c: (Seq<char>, Seq<char>)|
                    #![trigger s.externals[c]]
                    s.externals.contains_key(c) implies s.externals[c] < s.nodes.len() by {
                    assert(self.externals[c] < self.nodes.len());
                }
            }
            assert(s.timeline_ok()) by {
                assert forall|k: int|
                    0 <= k < s.timeline.len() implies s.slot_ok(#[trigger] s.timeline[k]) by {
                    assert(self.slot_ok(self.timeline[k]));
                }
                assert forall|i: usize|
                    i < s.entries.len() implies
                        #[trigger] s.timeline.contains(ItemView::Entry(i)) by {
                    assert(self.timeline.contains(ItemView::Entry(i)));
                }
                assert forall|j: int|
                    0 <= j < s.nodes.len() implies
                        s.timeline.contains(ItemView::Activity((#[trigger] s.nodes[j]).start.id)) by {
                    assert(self.timeline.contains(ItemView::Activity(self.nodes[j].start.id)));
                }
            }
        }
    }

    /// An event keeps everything in order.
    pub proof fn lemma_handled(self, e: EventView)
        requires
            self.sound(),
            self.handled(e).nodes.len() <= usize::MAX,
        ensures
            self.handled(e).wf(),
    {
        match e.phase {
            ActivityPhase::Start => {
                self.lemma_started(e);
                self.started(e).lemma_normalized();
            },
            ActivityPhase::End => {
                self.lemma_ended(e);
                self.ended(e).lemma_normalized();
            },
        }
    }
}

} // verus!
