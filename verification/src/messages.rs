//! Messages and deltas: what they do to the transcript.
use crate::app::{App, Entry, TimelineItem};
use crate::json;
use crate::json::classify_tool_result_status;
use crate::model;
use crate::model::{
    ActivityEvent, ActivityKind, ActivityPhase, ActivityStatus, CallView, DisplayEvent, EventView,
    Message, MessageView, ToolCall,
};
use crate::spine;
use crate::spine::{EntryView, ItemView, NodeView, Spine};
use crate::text;
use crate::text::{
    cap_text, decimal_text, one_line_text, same, starts_with_text, text2, text3,
};
use vstd::prelude::*;
use vstd::string::*;

verus! {

// ---------------------------------------------------------------------------
// Free ids
// ---------------------------------------------------------------------------

/// An id with a number behind it.
pub open spec fn numbered(base: Seq<char>, k: nat) -> Seq<char> {
    base + seq!['#'] + text::decimal(k)
}

/// `k` is the least number, from two on, that makes the id a free one.
pub open spec fn first_free(nodes: Seq<NodeView>, base: Seq<char>, k: nat) -> bool {
    &&& k >= 2
    &&& !spine::known(nodes, numbered(base, k))
    &&& forall|j: nat| 2 <= j < k ==> spine::known(nodes, #[trigger] numbered(base, j))
}

/// A free id: the base itself, or the base with the least number that makes it
/// free.
pub open spec fn free_id(nodes: Seq<NodeView>, base: Seq<char>) -> Seq<char> {
    if spine::known(nodes, base) {
        numbered(base, choose|k: nat| first_free(nodes, base, k))
    } else {
        base
    }
}

/// Two numbered ids differ where their numbers do.
proof fn lemma_numbered_injective(base: Seq<char>, j: nat, k: nat)
    requires
        numbered(base, j) == numbered(base, k),
    ensures
        j == k,
{
    let n = base.len() as int + 1;
    assert(numbered(base, j).skip(n) =~= text::decimal(j));
    assert(numbered(base, k).skip(n) =~= text::decimal(k));
    text::lemma_decimal_injective(j, k);
}

/// No more numbered ids can be taken than there are records.
pub proof fn lemma_taken(nodes: Seq<NodeView>, base: Seq<char>, k: nat)
    requires
        k >= 2,
        forall|j: nat| 2 <= j < k ==> spine::known(nodes, #[trigger] numbered(base, j)),
    ensures
        k - 2 <= nodes.len(),
{
    let t = Seq::new((k - 2) as nat, |i: int| spine::pos(nodes, numbered(base, (i + 2) as nat)));
    assert forall|i: int| 0 <= i < t.len() implies 0 <= #[trigger] t[i] < nodes.len()
        && nodes[t[i]].start.id == numbered(base, (i + 2) as nat) by {
        assert(spine::known(nodes, numbered(base, (i + 2) as nat)));
    }
    assert forall|i: int, j: int| 0 <= i < t.len() && 0 <= j < t.len() && i != j implies t[i]
        != t[j] by {
        if t[i] == t[j] {
            assert(numbered(base, (i + 2) as nat) == numbered(base, (j + 2) as nat));
            lemma_numbered_injective(base, (i + 2) as nat, (j + 2) as nat);
        }
    }
    spine::lemma_trail_len(t, nodes.len() as int);
}

/// The least free number is the one that is chosen.
proof fn lemma_first_free(nodes: Seq<NodeView>, base: Seq<char>, k: nat)
    requires
        spine::known(nodes, base),
        first_free(nodes, base, k),
    ensures
        free_id(nodes, base) == numbered(base, k),
{
    let c = choose|c: nat| first_free(nodes, base, c);
    assert(first_free(nodes, base, c));
    if c < k {
        assert(spine::known(nodes, numbered(base, c)));
    } else if k < c {
        assert(spine::known(nodes, numbered(base, k)));
    }
}

// ---------------------------------------------------------------------------
// Model
// ---------------------------------------------------------------------------

/// The text shown for a message: its content, and why it is not complete.
pub open spec fn message_text(m: MessageView) -> Seq<char> {
    match m.incomplete {
        Some(reason) => m.content + "\n\n[incomplete response: "@ + if reason.len() == 0 {
            "stream ended before completion"@
        } else {
            reason
        } + "]"@,
        None => m.content,
    }
}

/// The start of the activity that owns a context of a session that has no
/// activity records.
pub open spec fn context_start(nodes: Seq<NodeView>, context: Seq<char>) -> EventView {
    EventView {
        id: free_id(nodes, "legacy:context:"@ + context),
        parent: None,
        context,
        kind: if text::begins(context, "subagent:"@) {
            ActivityKind::Subagent
        } else {
            ActivityKind::WorkflowStep
        },
        phase: ActivityPhase::Start,
        title: context,
        external: None,
        status: None,
    }
}

/// The start of the tool activity of a call in a session that has no activity
/// records. Its title is one short line.
pub open spec fn call_start(
    nodes: Seq<NodeView>,
    context: Seq<char>,
    parent: Option<Seq<char>>,
    call: CallView,
) -> EventView {
    EventView {
        id: free_id(nodes, "legacy:tool:"@ + context + ":"@ + call.id),
        parent,
        context,
        kind: ActivityKind::Tool,
        phase: ActivityPhase::Start,
        title: "tool "@ + call.name + ": "@ + text::capped(
            text::joined(text::words(call.description), seq![' ']),
        ),
        external: Some(call.id),
        status: None,
    }
}

impl Spine {
    /// A new entry with its slot.
    pub open spec fn pushed(
        self,
        role: Seq<char>,
        context: Seq<char>,
        text: Seq<char>,
        owner: Option<Seq<char>>,
    ) -> Spine {
        Spine {
            entries: self.entries.push(
                EntryView { role, context, text, revision: 0, streaming: false, owner },
            ),
            timeline: self.timeline.push(ItemView::Entry(self.entries.len() as usize)),
            ..self
        }
    }

    /// Owner of what runs in a context; the main context has none.
    pub open spec fn context_owner(self, context: Seq<char>) -> Option<Seq<char>> {
        if context != "main"@ && self.owners.contains_key(context) {
            Some(self.nodes[self.owners[context] as int].start.id)
        } else {
            None
        }
    }

    /// Owner of a message's entry: a tool result belongs to its call, any other
    /// message to what runs in its context.
    pub open spec fn message_owner(
        self,
        context: Seq<char>,
        role: Seq<char>,
        call: Option<Seq<char>>,
    ) -> Option<Seq<char>> {
        if role == "tool"@ {
            match call {
                Some(c) if self.externals.contains_key((context, c)) => Some(
                    self.nodes[self.externals[(context, c)] as int].start.id,
                ),
                _ => None,
            }
        } else {
            self.context_owner(context)
        }
    }

    /// The status of a tool call is read from its result where no event has
    /// said it.
    pub open spec fn result_read(
        self,
        context: Seq<char>,
        role: Seq<char>,
        call: Option<Seq<char>>,
        content: Seq<char>,
    ) -> Spine {
        match call {
            Some(c) if role == "tool"@ && self.externals.contains_key((context, c)) => {
                let i = self.externals[(context, c)] as int;
                if self.nodes[i].status is None {
                    self.settled(i, json::result_status(content))
                } else {
                    self
                }
            },
            _ => self,
        }
    }

    /// The entry that a context streams into is completed.
    pub open spec fn completed(self, context: Seq<char>, text: Seq<char>) -> Spine {
        let i = self.streams[context] as int;
        Spine {
            entries: self.entries.update(
                i,
                EntryView {
                    text,
                    streaming: false,
                    revision: spine::bump(self.entries[i].revision),
                    ..self.entries[i]
                },
            ),
            streams: self.streams.remove(context),
            ..self
        }
    }

    /// A piece of streamed text: the first one opens an entry and snaps the
    /// transcript to its end.
    pub open spec fn streamed(self, context: Seq<char>, text: Seq<char>) -> Spine {
        let open = if self.streams.contains_key(context) {
            self
        } else {
            let i = self.entries.len();
            let s = self.pushed("assistant"@, context, Seq::empty(), self.context_owner(context));
            Spine {
                entries: s.entries.update(
                    i as int,
                    EntryView { streaming: true, ..s.entries[i as int] },
                ),
                streams: s.streams.insert(context, i as usize),
                scroll: 0,
                ..s
            }
        };
        let i = open.streams[context] as int;
        Spine {
            entries: open.entries.update(
                i,
                EntryView {
                    text: open.entries[i].text + text,
                    revision: spine::bump(open.entries[i].revision),
                    ..open.entries[i]
                },
            ),
            ..open
        }
    }

    /// Every entry that is still streamed into is closed, and no context
    /// streams any more.
    pub open spec fn streams_closed(self) -> Spine {
        Spine {
            entries: self.entries.map_values(
                |e: EntryView|
                    if e.streaming {
                        EntryView { streaming: false, revision: spine::bump(e.revision), ..e }
                    } else {
                        e
                    },
            ),
            streams: Map::empty(),
            ..self
        }
    }

    /// The owner of a context that has none is made up.
    pub open spec fn context_owned(self, context: Seq<char>) -> Spine {
        if self.owners.contains_key(context) {
            self
        } else {
            self.handled(context_start(self.nodes, context))
        }
    }

    /// The tool activities of the first `n` calls are made up.
    pub open spec fn calls_started(
        self,
        context: Seq<char>,
        parent: Option<Seq<char>>,
        calls: Seq<CallView>,
        n: int,
    ) -> Spine
        decreases n,
    {
        if n <= 0 {
            self
        } else {
            let s = self.calls_started(context, parent, calls, n - 1);
            s.handled(call_start(s.nodes, context, parent, calls[n - 1]))
        }
    }

    /// A message in a context. It completes the entry that the context streams
    /// into, if it is the assistant's, and otherwise makes a new one. Where the
    /// session has no activity records (`legacy`), they are made up: an owner
    /// of a context other than the main one, and an activity for each call of
    /// a complete message.
    pub open spec fn told(self, context: Seq<char>, m: MessageView, legacy: bool) -> Spine {
        let s = if legacy && context != "main"@ {
            self.context_owned(context)
        } else {
            self
        };
        let owner = s.message_owner(context, m.role, m.call);
        let s = s.result_read(context, m.role, m.call, m.content);
        let text = message_text(m);
        if m.role == "assistant"@ && s.streams.contains_key(context) {
            s.completed(context, text)
        } else if m.incomplete is Some {
            s.pushed(m.role, context, text, owner)
        } else if m.role == "assistant"@ {
            let s = (Spine { scroll: 0, ..s }).pushed(m.role, context, text, owner);
            if legacy {
                s.calls_started(
                    context,
                    if s.owners.contains_key(context) {
                        Some(s.nodes[s.owners[context] as int].start.id)
                    } else {
                        None
                    },
                    m.calls,
                    m.calls.len() as int,
                )
            } else {
                s
            }
        } else {
            s.pushed(m.role, context, text, owner)
        }
    }

    /// Records without a status get one, where `pick` takes their id.
    pub open spec fn swept(self, pick: spec_fn(Seq<char>) -> bool, status: ActivityStatus) -> Spine {
        Spine {
            nodes: self.nodes.map_values(
                |n: NodeView|
                    if n.status is None && pick(n.start.id) {
                        NodeView { status: Some(status), revision: spine::bump(n.revision), ..n }
                    } else {
                        n
                    },
            ),
            ..self
        }
    }
}

// ---------------------------------------------------------------------------
// What messages keep
// ---------------------------------------------------------------------------

/// Records that differ at most in their status and revision.
pub open spec fn same_shape(a: Seq<NodeView>, b: Seq<NodeView>) -> bool {
    a.len() == b.len() && forall|i: int|
        #![trigger a[i]]
        #![trigger b[i]]
        0 <= i < a.len() ==> a[i].start == b[i].start && a[i].expanded == b[i].expanded
}

/// Trails go by the starts alone.
pub proof fn lemma_same_trail(a: Seq<NodeView>, b: Seq<NodeView>, t: Seq<int>)
    requires
        same_shape(a, b),
        spine::distinct(a),
        forall|k: int| 0 <= k < t.len() ==> 0 <= #[trigger] t[k] < a.len(),
    ensures
        spine::trail_from(a, t) == spine::trail_from(b, t),
    decreases a.len() + 1 - t.len(),
{
    spine::lemma_same_ids(a, b);
    if 0 < t.len() <= a.len() {
        assert(a[t.last()].start == b[t.last()].start);
        assert(spine::up(a, t.last()) == spine::up(b, t.last()));
        if let Some(p) = spine::up(a, t.last()) {
            if !t.contains(p) {
                let u = t.push(p);
                assert forall|k: int| 0 <= k < u.len() implies 0 <= #[trigger] u[k] < a.len() by {
                    if k < t.len() {
                        assert(u[k] == t[k]);
                    }
                }
                lemma_same_trail(a, b, u);
            }
        }
    }
}

/// The same records are visible.
pub proof fn lemma_same_shape(a: Seq<NodeView>, b: Seq<NodeView>, timeline: Seq<ItemView>, n: int)
    requires
        same_shape(a, b),
        spine::distinct(a),
        0 <= n <= timeline.len(),
    ensures
        spine::visible_before(a, timeline, n) == spine::visible_before(b, timeline, n),
    decreases n,
{
    if n > 0 {
        lemma_same_shape(a, b, timeline, n - 1);
        spine::lemma_same_ids(a, b);
        if let ItemView::Activity(id) = timeline[n - 1] {
            if spine::known(a, id) {
                let i = spine::pos(a, id);
                assert(a[i].start.id == id);
                lemma_same_trail(a, b, seq![i]);
                spine::lemma_trail_of(a, i);
                let t = spine::trail(a, i);
                assert(t == spine::trail(b, i));
                assert forall|k: int| 1 <= k < t.len() implies a[#[trigger] t[k]].expanded
                    == b[t[k]].expanded by {}
            }
        }
    }
}

/// A longer timeline starts with what was visible.
proof fn lemma_visible_prefix(nodes: Seq<NodeView>, timeline: Seq<ItemView>, item: ItemView, n: int)
    requires
        0 <= n <= timeline.len(),
    ensures
        spine::visible_before(nodes, timeline.push(item), n) == spine::visible_before(
            nodes,
            timeline,
            n,
        ),
    decreases n,
{
    if n > 0 {
        lemma_visible_prefix(nodes, timeline, item, n - 1);
    }
}

impl Spine {
    /// A change of a status and a revision keeps everything in order.
    pub proof fn lemma_restatused(self, nodes: Seq<NodeView>)
        requires
            self.wf(),
            same_shape(self.nodes, nodes),
        ensures
            (Spine { nodes, ..self }).wf(),
    {
        let r = Spine { nodes, ..self };
        spine::lemma_same_ids(self.nodes, nodes);
        lemma_same_shape(self.nodes, nodes, self.timeline, self.timeline.len() as int);
        assert(r.records_ok());
        assert(r.streams_ok());
        assert forall|k: int| 0 <= k < r.timeline.len() implies r.slot_ok(
            #[trigger] r.timeline[k],
        ) by {
            assert(self.slot_ok(self.timeline[k]));
        }
        assert(r.timeline_ok());
    }

    /// Scrolling keeps everything in order.
    pub proof fn lemma_scrolled(self, scroll: usize)
        requires
            self.wf(),
        ensures
            (Spine { scroll, ..self }).wf(),
    {
        let r = Spine { scroll, ..self };
        assert(r.visible() == self.visible());
        assert(r.records_ok() && r.streams_ok());
        assert forall|k: int| 0 <= k < r.timeline.len() implies r.slot_ok(
            #[trigger] r.timeline[k],
        ) by {
            assert(self.slot_ok(self.timeline[k]));
        }
        assert forall|i: usize| i < r.entries.len() implies #[trigger] r.timeline.contains(
            ItemView::Entry(i),
        ) by {
            assert(self.timeline.contains(ItemView::Entry(i)));
        }
        assert forall|i: int| 0 <= i < r.nodes.len() implies r.timeline.contains(
            ItemView::Activity((#[trigger] r.nodes[i]).start.id),
        ) by {
            assert(self.timeline.contains(ItemView::Activity(self.nodes[i].start.id)));
        }
    }

    /// A new entry keeps everything in order.
    pub proof fn lemma_pushed(
        self,
        role: Seq<char>,
        context: Seq<char>,
        text: Seq<char>,
        owner: Option<Seq<char>>,
    )
        requires
            self.wf(),
            self.entries.len() < usize::MAX,
        ensures
            self.pushed(role, context, text, owner).wf(),
    {
        let r = self.pushed(role, context, text, owner);
        let n = self.timeline.len() as int;
        let slot = ItemView::Entry(self.entries.len() as usize);
        lemma_visible_prefix(self.nodes, self.timeline, slot, n);
        assert(r.visible() == self.visible());
        assert(r.records_ok());
        assert forall|c: Seq<char>| #![trigger r.streams[c]]
            r.streams.contains_key(c) implies r.streams[c] < r.entries.len()
            && r.entries[r.streams[c] as int].streaming && r.entries[r.streams[c] as int].context
            == c by {
            assert(self.streams[c] < self.entries.len());
        }
        assert forall|i: int|
            0 <= i < r.entries.len() && (#[trigger] r.entries[i]).streaming implies {
            &&& r.streams.contains_key(r.entries[i].context)
            &&& r.streams[r.entries[i].context] == i
        } by {
            assert(self.entries[i] == r.entries[i]);
        }
        assert forall|k: int| 0 <= k < r.timeline.len() implies r.slot_ok(
            #[trigger] r.timeline[k],
        ) by {
            if k < n {
                assert(self.slot_ok(self.timeline[k]));
            }
        }
        assert forall|j: int, k: int|
            0 <= j < r.timeline.len() && 0 <= k < r.timeline.len() && j != k implies r.timeline[j]
            != r.timeline[k] by {
            if j < n {
                assert(self.slot_ok(self.timeline[j]));
            }
            if k < n {
                assert(self.slot_ok(self.timeline[k]));
            }
        }
        assert forall|x: ItemView| self.timeline.contains(x) implies #[trigger] r.timeline.contains(
            x,
        ) by {
            let k = choose|k: int| 0 <= k < self.timeline.len() && self.timeline[k] == x;
            assert(r.timeline[k] == x);
        }
        assert(r.timeline.contains(slot)) by {
            assert(r.timeline[n] == slot);
        }
        assert forall|i: usize| i < r.entries.len() implies #[trigger] r.timeline.contains(
            ItemView::Entry(i),
        ) by {
            if i < self.entries.len() {
                assert(self.timeline.contains(ItemView::Entry(i)));
            }
        }
        assert forall|i: int| 0 <= i < r.nodes.len() implies r.timeline.contains(
            ItemView::Activity((#[trigger] r.nodes[i]).start.id),
        ) by {
            assert(self.timeline.contains(ItemView::Activity(self.nodes[i].start.id)));
        }
    }

    /// A change of entries and streams keeps the rest in order.
    proof fn lemma_restreamed(self, entries: Seq<EntryView>, streams: Map<Seq<char>, usize>)
        requires
            self.wf(),
            entries.len() == self.entries.len(),
            (Spine { entries, streams, ..self }).streams_ok(),
        ensures
            (Spine { entries, streams, ..self }).wf(),
    {
        let r = Spine { entries, streams, ..self };
        assert(r.visible() == self.visible());
        assert(r.records_ok());
        assert forall|k: int| 0 <= k < r.timeline.len() implies r.slot_ok(
            #[trigger] r.timeline[k],
        ) by {
            assert(self.slot_ok(self.timeline[k]));
        }
        assert forall|i: usize| i < r.entries.len() implies #[trigger] r.timeline.contains(
            ItemView::Entry(i),
        ) by {
            assert(self.timeline.contains(ItemView::Entry(i)));
        }
        assert forall|i: int| 0 <= i < r.nodes.len() implies r.timeline.contains(
            ItemView::Activity((#[trigger] r.nodes[i]).start.id),
        ) by {
            assert(self.timeline.contains(ItemView::Activity(self.nodes[i].start.id)));
        }
    }

    /// A completed entry keeps everything in order.
    proof fn lemma_completed(self, context: Seq<char>, text: Seq<char>)
        requires
            self.wf(),
            self.streams.contains_key(context),
        ensures
            self.completed(context, text).wf(),
    {
        let r = self.completed(context, text);
        let x = self.streams[context] as int;
        assert forall|c: Seq<char>| #![trigger r.streams[c]]
            r.streams.contains_key(c) implies r.streams[c] < r.entries.len()
            && r.entries[r.streams[c] as int].streaming && r.entries[r.streams[c] as int].context
            == c by {
            assert(self.streams[c] == r.streams[c]);
            assert(self.entries[x].context == context);
        }
        assert forall|i: int|
            0 <= i < r.entries.len() && (#[trigger] r.entries[i]).streaming implies {
            &&& r.streams.contains_key(r.entries[i].context)
            &&& r.streams[r.entries[i].context] == i
        } by {
            assert(i != x);
            assert(self.entries[i] == r.entries[i]);
        }
        self.lemma_restreamed(r.entries, r.streams);
    }

    /// A delta keeps everything in order.
    pub proof fn lemma_streamed(self, context: Seq<char>, text: Seq<char>)
        requires
            self.wf(),
            self.streams.contains_key(context) || self.entries.len() < usize::MAX,
        ensures
            self.streamed(context, text).wf(),
    {
        let r = self.streamed(context, text);
        if self.streams.contains_key(context) {
            let x = self.streams[context] as int;
            assert forall|c: Seq<char>| #![trigger r.streams[c]]
                r.streams.contains_key(c) implies r.streams[c] < r.entries.len()
                && r.entries[r.streams[c] as int].streaming
                && r.entries[r.streams[c] as int].context == c by {
                assert(self.streams[c] == r.streams[c]);
            }
            assert forall|i: int|
                0 <= i < r.entries.len() && (#[trigger] r.entries[i]).streaming implies {
                &&& r.streams.contains_key(r.entries[i].context)
                &&& r.streams[r.entries[i].context] == i
            } by {
                assert(self.entries[i].streaming);
            }
            self.lemma_restreamed(r.entries, r.streams);
        } else {
            let owner = self.context_owner(context);
            let p = self.pushed("assistant"@, context, Seq::empty(), owner);
            self.lemma_pushed("assistant"@, context, Seq::empty(), owner);
            let x = self.entries.len() as int;
            assert forall|c: Seq<char>| #![trigger r.streams[c]]
                r.streams.contains_key(c) implies r.streams[c] < r.entries.len()
                && r.entries[r.streams[c] as int].streaming
                && r.entries[r.streams[c] as int].context == c by {
                if c != context {
                    assert(p.streams[c] == r.streams[c]);
                    assert(self.streams[c] < self.entries.len());
                }
            }
            assert forall|i: int|
                0 <= i < r.entries.len() && (#[trigger] r.entries[i]).streaming implies {
                &&& r.streams.contains_key(r.entries[i].context)
                &&& r.streams[r.entries[i].context] == i
            } by {
                if i != x {
                    assert(p.entries[i] == r.entries[i]);
                    assert(self.entries[i] == r.entries[i]);
                    assert(self.streams.contains_key(r.entries[i].context));
                }
            }
            let q = Spine { scroll: 0, ..p };
            p.lemma_scrolled(0);
            q.lemma_restreamed(r.entries, r.streams);
        }
    }

    /// Closed streams keep everything in order.
    pub proof fn lemma_streams_closed(self)
        requires
            self.wf(),
        ensures
            self.streams_closed().wf(),
    {
        let r = self.streams_closed();
        assert forall|i: int| 0 <= i < r.entries.len() implies !(
        #[trigger] r.entries[i]).streaming by {}
        self.lemma_restreamed(r.entries, r.streams);
    }
}

impl App {
    /// Appends a chat entry and its timeline slot.
    pub fn push_owned(
        &mut self,
        role: &str,
        context: &str,
        text: String,
        activity_id: Option<String>,
    ) -> (r: usize)
        requires
            old(self).wf(),
        ensures
            final(self).wf(),
            r == old(self).entries@.len(),
            final(self).spine() == old(self).spine().pushed(
                role@,
                context@,
                text@,
                model::opt_text(activity_id),
            ),
            old(self).same_aside(*final(self)),
    {
        let ghost s0 = self.spine();
        let index: usize = self.entries.len();
        let entry = Entry {
            role: role.to_owned(),
            context: context.to_owned(),
            text,
            revision: 0,
            streaming: false,
            activity_id,
        };
        self.entries.push(entry);
        self.timeline.push(TimelineItem::Entry(index));
        // The number of elements fits a `usize`.
        let n: usize = self.entries.len();
        proof {
            let s1 = s0.pushed(role@, context@, text@, model::opt_text(activity_id));
            assert(self.spine().entries =~= s1.entries);
            assert(self.spine().timeline =~= s1.timeline);
            assert(s0.entries.len() < n);
            s0.lemma_pushed(role@, context@, text@, model::opt_text(activity_id));
            assert(self.spine() == s1);
        }
        index
    }

    /// Appends a chat entry without an owner.
    pub fn push(&mut self, role: &str, context: &str, text: String) -> (r: usize)
        requires
            old(self).wf(),
        ensures
            final(self).wf(),
            r == old(self).entries@.len(),
            final(self).spine() == old(self).spine().pushed(role@, context@, text@, None),
            old(self).same_aside(*final(self)),
    {
        self.push_owned(role, context, text, None)
    }

    /// Appends a line of status to the main conversation.
    pub fn note(&mut self, text: &str)
        requires
            old(self).wf(),
        ensures
            final(self).wf(),
            final(self).spine() == old(self).spine().pushed("status"@, "main"@, text@, None),
            old(self).same_aside(*final(self)),
    {
        let _ = self.push("status", "main", text.to_owned());
    }

    /// Appends an error to the main conversation.
    pub fn error(&mut self, text: &str)
        requires
            old(self).wf(),
        ensures
            final(self).wf(),
            final(self).spine() == old(self).spine().pushed("error"@, "main"@, text@, None),
            old(self).same_aside(*final(self)),
    {
        let _ = self.push("error", "main", text.to_owned());
    }

    /// A free id: the base, or the base with the least number that makes it
    /// free.
    pub fn legacy_unique_id(&self, base: &str) -> (r: String)
        requires
            self.indexed(),
        ensures
            r@ == free_id(self.spine().nodes, base@),
            !spine::known(self.spine().nodes, r@),
    {
        if self.position(base).is_none() {
            return base.to_owned();
        }
        let ghost nodes = self.spine().nodes;
        let n: usize = self.activities.len();
        proof {
            reveal_strlit("#");
            assert("#"@ =~= seq!['#']);
        }
        let mut suffix: u128 = 2;
        loop
            invariant
                self.indexed(),
                nodes == self.spine().nodes,
                nodes.len() == n,
                spine::known(nodes, base@),
                "#"@ == seq!['#'],
                2 <= suffix <= n + 2,
                forall|j: nat|
                    2 <= j < suffix ==> spine::known(nodes, #[trigger] numbered(base@, j)),
            decreases n + 3 - suffix,
        {
            let digits = decimal_text(suffix);
            let candidate = text3(base, "#", digits.as_str());
            assert(candidate@ == numbered(base@, suffix as nat));
            if self.position(candidate.as_str()).is_none() {
                proof {
                    assert(first_free(nodes, base@, suffix as nat));
                    lemma_first_free(nodes, base@, suffix as nat);
                }
                return candidate;
            }
            proof {
                assert forall|j: nat| 2 <= j < suffix + 1 implies spine::known(
                    nodes,
                    #[trigger] numbered(base@, j),
                ) by {
                    if j == suffix {
                    }
                }
                lemma_taken(nodes, base@, (suffix + 1) as nat);
            }
            suffix = suffix + 1;
        }
    }

    /// Makes up the owner of a context that has none.
    fn synthesize_legacy_context_owner(&mut self, context: &str)
        requires
            old(self).wf(),
        ensures
            final(self).wf(),
            final(self).spine() == old(self).spine().context_owned(context@),
            old(self).same_aside(*final(self)),
    {
        if self.activity_by_context.contains_key(context) {
            return;
        }
        let kind = if starts_with_text(context, "subagent:") {
            ActivityKind::Subagent
        } else {
            ActivityKind::WorkflowStep
        };
        let id = self.legacy_unique_id(text2("legacy:context:", context).as_str());
        self.handle_activity_event(
            ActivityEvent {
                id,
                parent_id: None,
                context: context.to_owned(),
                kind,
                phase: ActivityPhase::Start,
                title: context.to_owned(),
                external_id: None,
                status: None,
            },
        );
    }

    /// Makes up the tool activity of a call.
    fn synthesize_legacy_tool_start(
        &mut self,
        context: &str,
        parent: Option<String>,
        call: &ToolCall,
    )
        requires
            old(self).wf(),
        ensures
            final(self).wf(),
            final(self).spine() == old(self).spine().handled(
                call_start(old(self).spine().nodes, context@, model::opt_text(parent), call@),
            ),
            old(self).same_aside(*final(self)),
    {
        let base = text2(text3("legacy:tool:", context, ":").as_str(), call.id.as_str());
        let id = self.legacy_unique_id(base.as_str());
        let one_line = one_line_text(call.description.as_str());
        let bounded = cap_text(one_line.as_str());
        let title = text2(
            text3("tool ", call.name.as_str(), ": ").as_str(),
            bounded.as_str(),
        );
        self.handle_activity_event(
            ActivityEvent {
                id,
                parent_id: parent,
                context: context.to_owned(),
                kind: ActivityKind::Tool,
                phase: ActivityPhase::Start,
                title,
                external_id: Some(call.id.clone()),
                status: None,
            },
        );
    }

    /// Owner of what is streamed in a context.
    fn owner_for_stream(&self, context: &str) -> (r: Option<String>)
        requires
            self.wf(),
        ensures
            model::opt_text(r) == self.spine().context_owner(context@),
    {
        if same(context, "main") {
            return None;
        }
        match self.activity_by_context(context) {
            Some(node) => Some(node.start.id.clone()),
            None => None,
        }
    }

    /// Owner of a message's entry.
    fn owner_for_message(&self, context: &str, message: &Message) -> (r: Option<String>)
        requires
            self.wf(),
        ensures
            model::opt_text(r) == self.spine().message_owner(
                context@,
                message@.role,
                message@.call,
            ),
    {
        if same(message.role.as_str(), "tool") {
            match &message.tool_call_id {
                Some(call) => match self.activity_by_external(context, call.as_str()) {
                    Some(node) => Some(node.start.id.clone()),
                    None => None,
                },
                None => None,
            }
        } else {
            self.owner_for_stream(context)
        }
    }

    /// Reads the status of a tool call from its result, where no event has
    /// said it.
    fn apply_legacy_tool_result_status(&mut self, context: &str, message: &Message)
        requires
            old(self).wf(),
        ensures
            final(self).wf(),
            final(self).spine() == old(self).spine().result_read(
                context@,
                message@.role,
                message@.call,
                message@.content,
            ),
            old(self).same_aside(*final(self)),
    {
        if !same(message.role.as_str(), "tool") {
            return;
        }
        let call = match &message.tool_call_id {
            Some(call) => call,
            None => {
                return;
            },
        };
        let i = match self.external_position(context, call.as_str()) {
            Some(i) => i,
            None => {
                return;
            },
        };
        assert(self.spine().externals[(context@, call@)] == i);
        assert(self.spine().nodes[i as int] == self.activities@[i as int]@);
        if self.activities[i].status.is_some() {
            return;
        }
        let status = classify_tool_result_status(message.content.as_str());
        self.settle(i, status);
        proof {
            let s0 = old(self).spine();
            s0.lemma_restatused(s0.settled(i as int, status).nodes);
        }
    }

    /// Completes the entry that a context streams into.
    fn complete_stream(&mut self, context: &str, text: String)
        requires
            old(self).wf(),
            old(self).spine().streams.contains_key(context@),
        ensures
            final(self).wf(),
            final(self).spine() == old(self).spine().completed(context@, text@),
            old(self).same_aside(*final(self)),
    {
        let ghost s0 = self.spine();
        let index = match self.streams.get(context) {
            Some(index) => *index,
            None => {
                return;
            },
        };
        assert(s0.streams[context@] == index);
        self.streams.remove(context);
        let revision: u64 = self.entries[index].revision;
        self.entries[index].text = text;
        self.entries[index].streaming = false;
        self.entries[index].revision = revision.saturating_add(1);
        proof {
            assert(self.spine().entries =~= s0.completed(context@, text@).entries);
            s0.lemma_completed(context@, text@);
        }
    }

    /// The text shown for a message.
    fn shown_text(message: &Message) -> (r: String)
        ensures
            r@ == message_text(message@),
    {
        match &message.incomplete {
            Some(reason) => {
                let why = if reason.as_str().is_empty() {
                    "stream ended before completion".to_owned()
                } else {
                    reason.clone()
                };
                text3(
                    text2(message.content.as_str(), "\n\n[incomplete response: ").as_str(),
                    why.as_str(),
                    "]",
                )
            },
            None => message.content.clone(),
        }
    }

    /// Takes a message of a running conversation. Tool calls are shown by
    /// their activities.
    pub fn message(&mut self, context: String, message: Message)
        requires
            old(self).wf(),
        ensures
            final(self).wf(),
            final(self).spine() == old(self).spine().told(context@, message@, false),
            old(self).same_aside(*final(self)),
    {
        self.message_inner(context, message, false);
    }

    /// Takes a message; with `legacy_fallback` missing activity records are
    /// made up.
    fn message_inner(&mut self, context: String, message: Message, legacy_fallback: bool)
        requires
            old(self).wf(),
        ensures
            final(self).wf(),
            final(self).spine() == old(self).spine().told(context@, message@, legacy_fallback),
            old(self).same_aside(*final(self)),
    {
        let context = context.as_str();
        if legacy_fallback && !same(context, "main") {
            self.synthesize_legacy_context_owner(context);
        }
        let owner = self.owner_for_message(context, &message);
        self.apply_legacy_tool_result_status(context, &message);
        let text = Self::shown_text(&message);
        let assistant = same(message.role.as_str(), "assistant");
        if assistant && self.streams.contains_key(context) {
            self.complete_stream(context, text);
            return;
        }
        let finished = message.incomplete.is_none();
        if assistant && finished {
            let ghost s0 = self.spine();
            self.scroll = 0;
            proof {
                s0.lemma_scrolled(0);
            }
        }
        let _ = self.push_owned(message.role.as_str(), context, text, owner);
        if assistant && finished && legacy_fallback {
            let parent = match self.activity_by_context(context) {
                Some(node) => Some(node.start.id.clone()),
                None => None,
            };
            let ghost start = self.spine();
            let ghost whole = *self;
            let ghost p = model::opt_text(parent);
            let mut k: usize = 0;
            while k < message.tool_calls.len()
                invariant
                    self.wf(),
                    k <= message.tool_calls@.len(),
                    p == model::opt_text(parent),
                    self.spine() == start.calls_started(context@, p, message@.calls, k as int),
                    whole.same_aside(*self),
                decreases message.tool_calls@.len() - k,
            {
                assert(message@.calls[k as int] == message.tool_calls@[k as int]@);
                self.synthesize_legacy_tool_start(
                    context,
                    model::copy_opt(&parent),
                    &message.tool_calls[k],
                );
                k = k + 1;
            }
            assert(message@.calls.len() == k);
        }
    }

    /// Takes one event of a stored session. With `legacy_fallback`, for a
    /// session without activity records, they are made up.
    pub fn replay_display_event(&mut self, event: DisplayEvent, legacy_fallback: bool)
        requires
            old(self).wf(),
        ensures
            final(self).wf(),
            match event {
                DisplayEvent::Message { context, message } => final(self).spine()
                    == old(self).spine().told(context@, message@, legacy_fallback),
                DisplayEvent::Activity(event) => final(self).spine() == old(self).spine().handled(
                    event@,
                ),
            },
            old(self).same_aside(*final(self)),
    {
        match event {
            DisplayEvent::Message { context, message } => {
                self.message_inner(context, message, legacy_fallback);
            },
            DisplayEvent::Activity(event) => {
                self.handle_activity_event(event);
            },
        }
    }

    /// Takes a piece of streamed text.
    pub(crate) fn delta(&mut self, context: String, text: &str)
        requires
            old(self).wf(),
        ensures
            final(self).wf(),
            final(self).spine() == old(self).spine().streamed(context@, text@),
            old(self).same_aside(*final(self)),
    {
        let ghost s0 = self.spine();
        let open: Option<usize> = match self.streams.get(context.as_str()) {
            Some(index) => Some(*index),
            None => None,
        };
        let index: usize = match open {
            Some(index) => {
                assert(s0.streams[context@] == index);
                assert(s0.entries.len() == self.entries@.len());
                index
            },
            None => {
                let owner = self.owner_for_stream(context.as_str());
                let empty = String::new();
                assert(empty@ =~= Seq::<char>::empty());
                let index = self.push_owned("assistant", context.as_str(), empty, owner);
                assert(self.spine().entries.len() == self.entries@.len());
                self.entries[index].streaming = true;
                self.streams.insert(context.clone(), index);
                self.scroll = 0;
                index
            },
        };
        let revision: u64 = self.entries[index].revision;
        self.entries[index].text.append(text);
        self.entries[index].revision = revision.saturating_add(1);
        // The number of elements fits a `usize`.
        let n: usize = self.entries.len();
        proof {
            let s1 = s0.streamed(context@, text@);
            assert(self.spine().entries =~= s1.entries);
            s0.lemma_streamed(context@, text@);
        }
    }
}

} // verus!
