//! The activity spine: starts, ends, ancestors, visibility and focus.
use crate::app;
use crate::app::{ActivityNode, App, External, TimelineItem};
use crate::model;
use crate::model::{ActivityEvent, ActivityKind, ActivityPhase, ActivityStatus};
use crate::spine;
use crate::spine::{Focus, NodeView};
use crate::text;
use crate::text::same;
use vstd::prelude::*;

verus! {

impl App {
    /// Position of the record with an id.
    pub fn position(&self, id: &str) -> (r: Option<usize>)
        requires
            self.indexed(),
        ensures
            match r {
                Some(i) => {
                    &&& i < self.activities@.len()
                    &&& self.activities@[i as int].start.id@ == id@
                    &&& spine::known(self.spine().nodes, id@)
                    &&& spine::pos(self.spine().nodes, id@) == i
                },
                None => !spine::known(self.spine().nodes, id@),
            },
    {
        proof {
            self.lemma_indexed();
        }
        match self.activity_index.get(id) {
            Some(i) => {
                let i: usize = *i;
                proof {
                    let nodes = self.spine().nodes;
                    assert(nodes[i as int].start.id == id@);
                    spine::lemma_pos(nodes, i as int);
                }
                Some(i)
            },
            None => {
                proof {
                    let nodes = self.spine().nodes;
                    if spine::known(nodes, id@) {
                        let k = spine::pos(nodes, id@);
                        assert(nodes[k].start.id == id@);
                        assert(self.activities@[k].start.id@ == id@);
                    }
                }
                None
            },
        }
    }

    /// An index means that ids are distinct.
    pub(crate) proof fn lemma_indexed(&self)
        requires
            self.indexed(),
        ensures
            spine::distinct(self.spine().nodes),
    {
        let nodes = self.spine().nodes;
        assert forall|i: int, j: int|
            0 <= i < nodes.len() && 0 <= j < nodes.len() && (#[trigger] nodes[i]).start.id == (
            #[trigger] nodes[j]).start.id implies i == j by {
            assert(self.activities@[i].start.id@ == nodes[i].start.id);
            assert(self.activities@[j].start.id@ == nodes[j].start.id);
        }
    }

    /// Position of a record's parent.
    pub(crate) fn parent_position(&self, i: usize) -> (r: Option<usize>)
        requires
            self.indexed(),
            i < self.activities@.len(),
        ensures
            match r {
                Some(p) => p < self.activities@.len() && spine::up(self.spine().nodes, i as int)
                    == Some(p as int),
                None => spine::up(self.spine().nodes, i as int) is None,
            },
    {
        match &self.activities[i].start.parent_id {
            Some(p) => self.position(p.as_str()),
            None => None,
        }
    }

    /// A record and its ancestors, nearest first.
    fn lineage(&self, i: usize) -> (r: Vec<usize>)
        requires
            self.indexed(),
            i < self.activities@.len(),
        ensures
            r@.len() == spine::trail(self.spine().nodes, i as int).len(),
            r@.len() >= 1,
            forall|k: int|
                0 <= k < r@.len() ==> (#[trigger] r@[k]) < self.activities@.len() && r@[k]
                    == spine::trail(self.spine().nodes, i as int)[k],
    {
        let mut out: Vec<usize> = Vec::new();
        out.push(i);
        let ghost nodes = self.spine().nodes;
        let ghost mut t: Seq<int> = seq![i as int];
        loop
            invariant
                self.indexed(),
                nodes == self.spine().nodes,
                out@.len() >= 1,
                t.len() == out@.len(),
                forall|k: int|
                    #![trigger t[k]]
                    #![trigger out@[k]]
                    0 <= k < out@.len() ==> t[k] == out@[k] && out@[k] < self.activities@.len(),
                t.no_duplicates(),
                spine::trail_from(nodes, t) == spine::trail(nodes, i as int),
            ensures
                t == spine::trail(nodes, i as int),
            decreases nodes.len() + 1 - t.len(),
        {
            proof {
                spine::lemma_trail_len(t, nodes.len() as int);
            }
            let last: usize = out[out.len() - 1];
            assert(t.last() == last);
            match self.parent_position(last) {
                None => {
                    break;
                },
                Some(p) => {
                    let mut seen = false;
                    let mut j: usize = 0;
                    while j < out.len()
                        invariant
                            j <= out@.len(),
                            seen == exists|k: int| 0 <= k < j && #[trigger] out@[k] == p,
                        decreases out@.len() - j,
                    {
                        if out[j] == p {
                            seen = true;
                        }
                        j = j + 1;
                    }
                    proof {
                        if t.contains(p as int) {
                            let k = choose|k: int| 0 <= k < t.len() && t[k] == p as int;
                            assert(t[k] == out@[k]);
                            assert(out@[k] == p);
                        }
                        if seen {
                            let k = choose|k: int| 0 <= k < out@.len() && #[trigger] out@[k] == p;
                            assert(t[k] == p as int);
                        }
                        assert(seen == t.contains(p as int));
                    }
                    if seen {
                        break;
                    }
                    out.push(p);
                    proof {
                        let u = t.push(p as int);
                        assert(u.no_duplicates());
                        t = u;
                    }
                },
            }
        }
        out
    }

    /// The record with an id; `None` for an id that was never seen.
    pub fn activity(&self, id: &str) -> (r: Option<&ActivityNode>)
        requires
            self.indexed(),
        ensures
            match r {
                Some(node) => spine::known(self.spine().nodes, id@) && node@
                    == self.spine().nodes[spine::pos(self.spine().nodes, id@)],
                None => !spine::known(self.spine().nodes, id@),
            },
    {
        match self.position(id) {
            Some(i) => Some(&self.activities[i]),
            None => None,
        }
    }

    /// The subagent or workflow step that runs in a context.
    pub fn activity_by_context(&self, context: &str) -> (r: Option<&ActivityNode>)
        requires
            self.spine().records_ok(),
        ensures
            match r {
                Some(node) => self.spine().owners.contains_key(context@) && node@
                    == self.spine().nodes[self.spine().owners[context@] as int],
                None => !self.spine().owners.contains_key(context@),
            },
    {
        match self.activity_by_context.get(context) {
            Some(i) => {
                let i: usize = *i;
                assert(self.spine().owners[context@] == i);
                Some(&self.activities[i])
            },
            None => None,
        }
    }

    /// Position of the tool activity of a call that a context made.
    pub(crate) fn external_position(&self, context: &str, call: &str) -> (r: Option<usize>)
        ensures
            match r {
                Some(i) => self.spine().externals.contains_key((context@, call@))
                    && self.spine().externals[(context@, call@)] == i,
                None => !self.spine().externals.contains_key((context@, call@)),
            },
    {
        let v = &self.activity_by_external;
        let mut j: usize = v.len();
        proof {
            assert(v@.take(j as int) =~= v@);
        }
        while j > 0
            invariant
                j <= v@.len(),
                v@ == self.activity_by_external@,
                app::external_map(v@).contains_key((context@, call@)) == app::external_map(
                    v@.take(j as int),
                ).contains_key((context@, call@)),
                app::external_map(v@)[(context@, call@)] == app::external_map(v@.take(j as int))[(
                    context@,
                    call@,
                )],
            decreases j,
        {
            assert(v@.take(j as int).drop_last() =~= v@.take(j - 1));
            j = j - 1;
            if same(v[j].context.as_str(), context) && same(v[j].call.as_str(), call) {
                return Some(v[j].index);
            }
        }
        None
    }

    /// The tool activity of a call that a context made.
    pub fn activity_by_external(&self, context: &str, external_id: &str) -> (r: Option<
        &ActivityNode,
    >)
        requires
            self.spine().records_ok(),
        ensures
            match r {
                Some(node) => {
                    &&& self.spine().externals.contains_key((context@, external_id@))
                    &&& node@ == self.spine().nodes[self.spine().externals[(
                        context@,
                        external_id@,
                    )] as int]
                },
                None => !self.spine().externals.contains_key((context@, external_id@)),
            },
    {
        match self.external_position(context, external_id) {
            Some(i) => {
                assert(self.spine().externals[(context@, external_id@)] == i);
                Some(&self.activities[i])
            },
            None => None,
        }
    }

    /// The spine owns the keyboard.
    pub fn activity_focused(&self) -> (r: bool)
        ensures
            r == (self.focus == Focus::Activity),
    {
        self.focus == Focus::Activity
    }

    /// The focused activity.
    pub fn focused_activity_id(&self) -> (r: Option<&str>)
        ensures
            model::opt_view(r) == self.spine().focused,
    {
        model::as_ref_str(&self.focused_activity)
    }

    /// The shown form of an id from a producer: safe characters only, dashes
    /// for gaps, capped in length and never empty.
    pub fn sanitize_activity_id(raw: &str) -> (r: String)
        ensures
            r@ == text::clean_id(raw@),
    {
        text::sanitize_id(raw)
    }

    /// Number of ancestors before a root, an unknown parent or a revisit; 0
    /// for an unknown id.
    pub fn activity_depth(&self, id: &str) -> (r: usize)
        requires
            self.indexed(),
        ensures
            r == if spine::known(self.spine().nodes, id@) {
                spine::depth(self.spine().nodes, spine::pos(self.spine().nodes, id@))
            } else {
                0
            },
    {
        match self.position(id) {
            Some(i) => self.lineage(i).len() - 1,
            None => 0,
        }
    }

    /// Every ancestor of a record is expanded.
    pub(crate) fn unfolded(&self, i: usize) -> (r: bool)
        requires
            self.indexed(),
            i < self.activities@.len(),
        ensures
            r == spine::unfolded(self.spine().nodes, i as int),
    {
        let t = self.lineage(i);
        let ghost nodes = self.spine().nodes;
        let ghost tr = spine::trail(nodes, i as int);
        let mut k: usize = 1;
        while k < t.len()
            invariant
                self.indexed(),
                nodes == self.spine().nodes,
                tr == spine::trail(nodes, i as int),
                t@.len() == tr.len(),
                1 <= k <= t@.len(),
                forall|j: int|
                    0 <= j < t@.len() ==> (#[trigger] t@[j]) < self.activities@.len() && t@[j]
                        == tr[j],
                forall|j: int| 1 <= j < k ==> nodes[#[trigger] tr[j]].expanded,
            decreases t@.len() - k,
        {
            let p: usize = t[k];
            assert(nodes[tr[k as int]] == self.activities@[p as int]@);
            if !self.activities[p].expanded {
                return false;
            }
            k = k + 1;
        }
        true
    }

    /// Every ancestor is expanded. A root and an orphan have none to hide
    /// behind; a cycle ends at the first revisit.
    pub fn all_ancestors_expanded(&self, id: &str) -> (r: bool)
        requires
            self.indexed(),
        ensures
            r == spine::shown(self.spine().nodes, id@),
    {
        match self.position(id) {
            Some(i) => self.unfolded(i),
            None => true,
        }
    }

    /// Ids of the visible activities, in timeline order.
    pub fn visible_activity_ids(&self) -> (r: Vec<String>)
        requires
            self.indexed(),
        ensures
            text::texts(r@) == self.spine().visible(),
    {
        let mut out: Vec<String> = Vec::new();
        let mut k: usize = 0;
        let ghost s = self.spine();
        assert(text::texts(out@) =~= Seq::<Seq<char>>::empty());
        while k < self.timeline.len()
            invariant
                self.indexed(),
                s == self.spine(),
                k <= self.timeline@.len(),
                text::texts(out@) == spine::visible_before(s.nodes, s.timeline, k as int),
            decreases self.timeline@.len() - k,
        {
            assert(s.timeline[k as int] == self.timeline@[k as int]@);
            match &self.timeline[k] {
                TimelineItem::Activity(id) => {
                    if self.position(id.as_str()).is_some() && self.all_ancestors_expanded(
                        id.as_str(),
                    ) {
                        proof {
                            text::lemma_texts_push(out@, *id);
                        }
                        out.push(id.clone());
                    }
                },
                TimelineItem::Entry(_) => {},
            }
            k = k + 1;
        }
        out
    }

    /// The entry is shown: it has no owner, or the owner and all of its
    /// ancestors are expanded.
    pub fn entry_is_visible(&self, index: usize) -> (r: bool)
        requires
            self.indexed(),
        ensures
            r == self.spine().entry_shown(index as int),
    {
        if index >= self.entries.len() {
            return true;
        }
        assert(self.spine().entries[index as int] == self.entries@[index as int]@);
        match &self.entries[index].activity_id {
            None => true,
            Some(o) => match self.activity(o.as_str()) {
                None => false,
                Some(node) => node.expanded && self.all_ancestors_expanded(o.as_str()),
            },
        }
    }

    /// `ancestor` is an ancestor of `descendant`, or the same id. A parent that
    /// was never started ends the chain and is no part of it.
    pub fn is_ancestor(&self, ancestor: &str, descendant: &str) -> (r: bool)
        requires
            self.indexed(),
        ensures
            r == spine::reaches(self.spine().nodes, ancestor@, descendant@),
    {
        if same(ancestor, descendant) {
            return true;
        }
        let i = match self.position(descendant) {
            Some(i) => i,
            None => {
                return false;
            },
        };
        let t = self.lineage(i);
        let ghost nodes = self.spine().nodes;
        let ghost tr = spine::trail(nodes, i as int);
        match self.position(ancestor) {
            Some(a) => {
                let mut k: usize = 1;
                while k < t.len()
                    invariant
                        1 <= k <= t@.len(),
                        t@.len() == tr.len(),
                        nodes == self.spine().nodes,
                        tr == spine::trail(nodes, i as int),
                        spine::known(nodes, descendant@),
                        spine::pos(nodes, descendant@) == i,
                        spine::known(nodes, ancestor@),
                        spine::pos(nodes, ancestor@) == a,
                        forall|j: int| 0 <= j < t@.len() ==> (#[trigger] t@[j]) == tr[j],
                        forall|j: int| 1 <= j < k ==> #[trigger] tr[j] != a,
                    decreases t@.len() - k,
                {
                    if t[k] == a {
                        assert(tr[k as int] == a);
                        return true;
                    }
                    k = k + 1;
                }
                false
            },
            None => false,
        }
    }

    /// The owner that a timeline slot belongs to.
    pub(crate) fn slot_owner(&self, k: usize) -> (r: Option<&str>)
        requires
            k < self.timeline@.len(),
        ensures
            match r {
                Some(o) => spine::slot_owner(self.spine().entries, self.spine().timeline[k as int])
                    == Some(o@),
                None => spine::slot_owner(
                    self.spine().entries,
                    self.spine().timeline[k as int],
                ) is None,
            },
    {
        assert(self.spine().timeline[k as int] == self.timeline@[k as int]@);
        match &self.timeline[k] {
            TimelineItem::Activity(id) => Some(id.as_str()),
            TimelineItem::Entry(i) => {
                let i: usize = *i;
                if i < self.entries.len() {
                    assert(self.spine().entries[i as int] == self.entries@[i as int]@);
                    match &self.entries[i].activity_id {
                        Some(o) => Some(o.as_str()),
                        None => None,
                    }
                } else {
                    None
                }
            },
        }
    }

    /// How many slots of the timeline, records and owned entries, have the id
    /// among their ancestors. The record itself is not counted.
    pub fn activity_descendant_count(&self, id: &str) -> (r: usize)
        requires
            self.indexed(),
        ensures
            r == self.spine().below(id@),
    {
        let mut count: usize = 0;
        let mut k: usize = 0;
        let ghost s = self.spine();
        while k < self.timeline.len()
            invariant
                self.indexed(),
                s == self.spine(),
                k <= self.timeline@.len(),
                count <= k,
                count == spine::below_before(s, id@, k as int),
            decreases self.timeline@.len() - k,
        {
            match self.slot_owner(k) {
                Some(o) => {
                    if !same(o, id) && self.is_ancestor(id, o) {
                        count = count + 1;
                    }
                },
                None => {},
            }
            k = k + 1;
        }
        count
    }

    /// The nearest ancestor that is collapsed and visible itself: the one
    /// whose collapse hid the record.
    fn nearest_visible_collapsed_ancestor(&self, id: &str) -> (r: Option<String>)
        requires
            self.indexed(),
        ensures
            model::opt_text(r) == self.spine().nearest(id@),
    {
        let i = match self.position(id) {
            Some(i) => i,
            None => {
                return None;
            },
        };
        let t = self.lineage(i);
        let ghost s = self.spine();
        let ghost tr = spine::trail(s.nodes, i as int);
        let mut k: usize = 1;
        while k < t.len()
            invariant
                self.indexed(),
                s == self.spine(),
                tr == spine::trail(s.nodes, i as int),
                spine::known(s.nodes, id@),
                spine::pos(s.nodes, id@) == i,
                1 <= k <= t@.len(),
                t@.len() == tr.len(),
                forall|j: int|
                    0 <= j < t@.len() ==> (#[trigger] t@[j]) < self.activities@.len() && t@[j]
                        == tr[j],
                s.nearest_from(tr, 1) == s.nearest_from(tr, k as int),
            decreases t@.len() - k,
        {
            let p: usize = t[k];
            assert(s.nodes[tr[k as int]] == self.activities@[p as int]@);
            if !self.activities[p].expanded && self.unfolded(p) {
                return Some(self.activities[p].start.id.clone());
            }
            k = k + 1;
        }
        None
    }
}

impl App {
    /// Sets the status of a record and counts the change.
    pub(crate) fn settle(&mut self, i: usize, status: ActivityStatus)
        requires
            old(self).indexed(),
            i < old(self).activities@.len(),
        ensures
            final(self).indexed(),
            final(self).spine() == old(self).spine().settled(i as int, status),
            old(self).same_aside(*final(self)),
    {
        let ghost before = self.activities@;
        let revision: u64 = self.activities[i].revision;
        self.activities[i].status = Some(status);
        self.activities[i].revision = revision.saturating_add(1);
        proof {
            lemma_index_kept(*old(self), *self);
            assert(self.spine().nodes =~= old(self).spine().settled(i as int, status).nodes);
        }
    }

    /// An end that arrived before its start is applied.
    fn apply_pending_end(&mut self, id: &str)
        requires
            old(self).indexed(),
        ensures
            final(self).indexed(),
            final(self).spine() == old(self).spine().caught_up(id@),
            old(self).same_aside(*final(self)),
    {
        let status = match self.pending_activity_ends.get(id) {
            Some(status) => *status,
            None => {
                return;
            },
        };
        self.pending_activity_ends.remove(id);
        assert(self.spine().nodes == old(self).spine().nodes);
        match self.position(id) {
            Some(i) => {
                self.settle(i, status);
            },
            None => {},
        }
    }

    /// A subagent or a workflow step owns its context, a tool its call.
    fn register_activity_owner(&mut self, event: &ActivityEvent, index: usize)
        ensures
            *final(self) == (App {
                activity_by_context: final(self).activity_by_context,
                activity_by_external: final(self).activity_by_external,
                ..*old(self)
            }),
            final(self).spine().owners == if event@.kind == ActivityKind::Tool {
                old(self).spine().owners
            } else {
                old(self).spine().owners.insert(event@.context, index)
            },
            final(self).spine().externals == match event@.external {
                Some(x) if event@.kind == ActivityKind::Tool =>
                    old(self).spine().externals.insert((event@.context, x), index),
                _ => old(self).spine().externals,
            },
    {
        match event.kind {
            ActivityKind::Tool => {
                match &event.external_id {
                    Some(call) => {
                        let ghost before = self.activity_by_external@;
                        self.activity_by_external.push(
                            External { context: event.context.clone(), call: call.clone(), index },
                        );
                        assert(self.activity_by_external@.drop_last() =~= before);
                    },
                    None => {},
                }
            },
            ActivityKind::Subagent | ActivityKind::WorkflowStep => {
                self.activity_by_context.insert(event.context.clone(), index);
            },
        }
    }

    /// Records a start. A second start of the same id adds nothing, and an end
    /// that came first is applied.
    fn activity_start(&mut self, event: ActivityEvent)
        requires
            old(self).indexed(),
        ensures
            final(self).indexed(),
            final(self).spine() == old(self).spine().started(event@),
            old(self).same_aside(*final(self)),
    {
        let id = event.id.clone();
        if self.position(id.as_str()).is_some() {
            self.apply_pending_end(id.as_str());
            return;
        }
        let ghost s0 = self.spine();
        let index: usize = self.activities.len();
        self.register_activity_owner(&event, index);
        self.activities.push(
            ActivityNode { start: event, status: None, expanded: false, revision: 0 },
        );
        self.activity_index.insert(id.clone(), index);
        self.timeline.push(TimelineItem::Activity(id.clone()));
        proof {
            let nodes = old(self).spine().nodes;
            assert(self.spine().nodes =~= s0.recorded(event@).nodes);
            assert(self.spine().timeline =~= s0.recorded(event@).timeline);
            assert(self.spine() == s0.recorded(event@));
            assert forall|i: int| 0 <= i < self.activities@.len() implies {
                &&& self.activity_index@.contains_key((#[trigger] self.activities@[i]).start.id@)
                &&& self.activity_index@[self.activities@[i].start.id@] == i
            } by {
                if i < index {
                    assert(self.activities@[i] == old(self).activities@[i]);
                    assert(nodes[i].start.id == old(self).activities@[i].start.id@);
                    assert(nodes[i].start.id != event@.id);
                }
            }
            assert forall|k: Seq<char>| #[trigger]
                self.activity_index@.contains_key(k) implies self.activity_index@[k]
                < self.activities@.len() && self.activities@[self.activity_index@[k] as int].start.id@
                == k by {
                if k != event@.id {
                    assert(old(self).activity_index@.contains_key(k));
                }
            }
        }
        self.apply_pending_end(id.as_str());
    }

    /// Records an end; without a status that is an error. An end before its
    /// start waits for it.
    fn activity_end(&mut self, event: ActivityEvent)
        requires
            old(self).indexed(),
        ensures
            final(self).indexed(),
            final(self).spine() == old(self).spine().ended(event@),
            old(self).same_aside(*final(self)),
    {
        let status = match event.status {
            Some(status) => status,
            None => ActivityStatus::Error,
        };
        match self.position(event.id.as_str()) {
            Some(i) => {
                self.settle(i, status);
            },
            None => {
                self.pending_activity_ends.insert(event.id, status);
                assert(self.spine().nodes == old(self).spine().nodes);
            },
        }
    }

    /// Where an id first stands in a list.
    fn find_id(ids: &Vec<String>, id: &str) -> (r: Option<usize>)
        ensures
            match r {
                Some(k) => k < ids@.len() && spine::place(text::texts(ids@), id@, 0) == Some(
                    k as int,
                ) && text::texts(ids@).contains(id@),
                None => spine::place(text::texts(ids@), id@, 0) is None && !text::texts(
                    ids@,
                ).contains(id@),
            },
    {
        let mut k: usize = 0;
        while k < ids.len()
            invariant
                k <= ids@.len(),
                spine::place(text::texts(ids@), id@, 0) == spine::place(
                    text::texts(ids@),
                    id@,
                    k as int,
                ),
                forall|j: int| 0 <= j < k ==> (#[trigger] text::texts(ids@)[j]) != id@,
            decreases ids@.len() - k,
        {
            assert(text::texts(ids@)[k as int] == ids@[k as int]@);
            if same(ids[k].as_str(), id) {
                return Some(k);
            }
            k = k + 1;
        }
        None
    }

    /// Moves the keyboard between the composer and the spine; says so where
    /// there is no row to focus.
    pub fn toggle_focus(&mut self)
        requires
            old(self).wf(),
        ensures
            final(self).wf(),
            final(self).spine() == old(self).spine().focus_toggled(),
            *final(self) == (App {
                focus: final(self).focus,
                focused_activity: final(self).focused_activity,
                status: final(self).status,
                ..*old(self)
            }),
            if old(self).focus == Focus::Input && old(self).spine().visible().len() == 0 {
                final(self).status@ == "No activity to focus"@
            } else {
                final(self).status == old(self).status
            },
    {
        let ghost s0 = self.spine();
        match self.focus {
            Focus::Activity => {
                self.focus = Focus::Input;
            },
            Focus::Input => {
                let visible = self.visible_activity_ids();
                if visible.len() == 0 {
                    self.status = "No activity to focus".to_owned();
                    return;
                }
                let retained = match &self.focused_activity {
                    Some(id) => Self::find_id(&visible, id.as_str()).is_some(),
                    None => false,
                };
                if !retained {
                    let newest = visible[visible.len() - 1].clone();
                    proof {
                        assert(text::texts(visible@).last() == newest@);
                        assert(s0.visible()[s0.visible().len() - 1] == newest@);
                    }
                    self.focused_activity = Some(newest);
                }
                self.focus = Focus::Activity;
            },
        }
        proof {
            s0.lemma_refocused(self.spine().focus, self.spine().focused);
        }
    }

    /// Moves the focused row by one, within the visible rows.
    pub fn move_activity_focus(&mut self, down: bool)
        requires
            old(self).wf(),
        ensures
            final(self).wf(),
            final(self).spine() == old(self).spine().focus_moved(down),
            *final(self) == (App {
                focus: final(self).focus,
                focused_activity: final(self).focused_activity,
                ..*old(self)
            }),
    {
        let ghost s0 = self.spine();
        let visible = self.visible_activity_ids();
        if visible.len() == 0 {
            self.focus = Focus::Input;
            proof {
                s0.lemma_refocused(Focus::Input, s0.focused);
            }
            return;
        }
        let at: Option<usize> = match &self.focused_activity {
            Some(id) => Self::find_id(&visible, id.as_str()),
            None => None,
        };
        let next: usize = match at {
            Some(k) => if down {
                if k + 1 < visible.len() {
                    k + 1
                } else {
                    k
                }
            } else if k > 0 {
                k - 1
            } else {
                0
            },
            None => if down {
                visible.len() - 1
            } else {
                0
            },
        };
        assert(text::texts(visible@)[next as int] == visible@[next as int]@);
        self.focused_activity = Some(visible[next].clone());
        proof {
            assert(s0.visible()[next as int] == self.spine().focused->0);
            s0.lemma_refocused(s0.focus, self.spine().focused);
        }
    }

    /// Keeps the focus on a visible row.
    pub fn normalize_activity_focus(&mut self)
        requires
            old(self).indexed(),
        ensures
            final(self).indexed(),
            final(self).spine() == old(self).spine().normalized(),
            *final(self) == (App {
                focus: final(self).focus,
                focused_activity: final(self).focused_activity,
                ..*old(self)
            }),
    {
        if self.focus != Focus::Activity {
            return;
        }
        let visible = self.visible_activity_ids();
        if visible.len() == 0 {
            self.focus = Focus::Input;
            return;
        }
        let newest = visible[visible.len() - 1].clone();
        assert(text::texts(visible@).last() == newest@);
        let next = match &self.focused_activity {
            None => newest,
            Some(current) => {
                if Self::find_id(&visible, current.as_str()).is_some() {
                    return;
                }
                match self.nearest_visible_collapsed_ancestor(current.as_str()) {
                    Some(ancestor) => ancestor,
                    None => newest,
                }
            },
        };
        self.focused_activity = Some(next);
    }

    /// Applies an activity event. Unknown and misordered events are safe.
    pub fn handle_activity_event(&mut self, event: ActivityEvent)
        requires
            old(self).wf(),
        ensures
            final(self).wf(),
            final(self).spine() == old(self).spine().handled(event@),
            old(self).same_aside(*final(self)),
    {
        let ghost s0 = self.spine();
        match event.phase {
            ActivityPhase::Start => {
                self.activity_start(event);
            },
            ActivityPhase::End => {
                self.activity_end(event);
            },
        }
        self.normalize_activity_focus();
        // The number of elements fits a `usize`.
        let n: usize = self.activities.len();
        proof {
            assert(self.spine().nodes.len() == n);
            s0.lemma_handled(event@);
        }
    }

    /// Sets the expansion of a record, or flips it for `None`. An unknown id
    /// changes nothing.
    pub fn set_activity_expanded(&mut self, id: &str, expanded: Option<bool>)
        requires
            old(self).wf(),
        ensures
            final(self).wf(),
            final(self).spine() == old(self).spine().expanded(id@, expanded),
            old(self).same_aside(*final(self)),
    {
        let i = match self.position(id) {
            Some(i) => i,
            None => {
                return;
            },
        };
        let ghost s0 = self.spine();
        let was = self.activities[i].expanded;
        let next = match expanded {
            Some(value) => value,
            None => !was,
        };
        if was != next {
            let revision: u64 = self.activities[i].revision;
            self.activities[i].expanded = next;
            self.activities[i].revision = revision.saturating_add(1);
        }
        proof {
            let node = s0.nodes[i as int];
            let nodes = if node.expanded != next {
                s0.nodes.update(
                    i as int,
                    NodeView { expanded: next, revision: spine::bump(node.revision), ..node },
                )
            } else {
                s0.nodes
            };
            assert(self.spine().nodes =~= nodes);
            s0.lemma_revised(i as int, nodes[i as int]);
            assert(s0.nodes.update(i as int, nodes[i as int]) =~= nodes);
            lemma_index_kept(*old(self), *self);
            self.spine().lemma_normalized();
        }
        self.normalize_activity_focus();
    }

    /// Flips the expansion of a record.
    pub fn toggle_activity_expanded(&mut self, id: &str)
        requires
            old(self).wf(),
        ensures
            final(self).wf(),
            final(self).spine() == old(self).spine().expanded(id@, None),
            old(self).same_aside(*final(self)),
    {
        self.set_activity_expanded(id, None);
    }
}

/// Records that keep their ids are found by the same index.
proof fn lemma_index_kept(before: App, after: App)
    requires
        before.indexed(),
        after.activity_index == before.activity_index,
        after.activities@.len() == before.activities@.len(),
        forall|i: int|
            0 <= i < before.activities@.len() ==> (#[trigger] after.activities@[i]).start
                == before.activities@[i].start,
    ensures
        after.indexed(),
{
    assert forall|i: int| 0 <= i < after.activities@.len() implies {
        &&& after.activity_index@.contains_key((#[trigger] after.activities@[i]).start.id@)
        &&& after.activity_index@[after.activities@[i].start.id@] == i
    } by {
        assert(before.activities@[i].start == after.activities@[i].start);
    }
}

} // verus!
