//! Engine events, the end of a replay, and the reset of the view.
use crate::app;
use crate::app::{App, Approval};
use crate::model;
use crate::model::{ActivityEvent, ActivityPhase, ActivityStatus, UiEvent};
use crate::spine;
use crate::spine::{Focus, NodeView, Spine};
use crate::text;
use crate::text::{same, starts_with_text, text2, text3};
use vstd::hash_map::StringHashMap;
use vstd::prelude::*;

verus! {

/// A start with the id is among the events and an end is not.
pub open spec fn unmatched(events: Seq<ActivityEvent>, id: Seq<char>) -> bool {
    &&& exists|k: int|
        0 <= k < events.len() && (#[trigger] events[k])@.id == id && events[k].phase
            == ActivityPhase::Start
    &&& !ended_in(events, id)
}

/// An end with the id is among the events.
pub open spec fn ended_in(events: Seq<ActivityEvent>, id: Seq<char>) -> bool {
    exists|k: int|
        0 <= k < events.len() && (#[trigger] events[k])@.id == id && events[k].phase
            == ActivityPhase::End
}

/// An empty transcript under the composer's focus.
pub open spec fn blank() -> Spine {
    Spine {
        entries: Seq::empty(),
        streams: Map::empty(),
        nodes: Seq::empty(),
        pending: Map::empty(),
        owners: Map::empty(),
        externals: Map::empty(),
        timeline: Seq::empty(),
        focus: Focus::Input,
        focused: None,
        scroll: 0,
    }
}

/// Records without a status that `pick` takes are closed; the others are as
/// they were.
proof fn lemma_swept(s: Spine, nodes: Seq<NodeView>, pick: spec_fn(Seq<char>) -> bool, status: ActivityStatus)
    requires
        s.wf(),
        nodes.len() == s.nodes.len(),
        forall|j: int|
            0 <= j < nodes.len() ==> (#[trigger] nodes[j]) == if s.nodes[j].status is None && pick(
                s.nodes[j].start.id,
            ) {
                NodeView {
                    status: Some(status),
                    revision: spine::bump(s.nodes[j].revision),
                    ..s.nodes[j]
                }
            } else {
                s.nodes[j]
            },
    ensures
        s.swept(pick, status) == (Spine { nodes, ..s }),
        s.swept(pick, status).wf(),
{
    assert(s.swept(pick, status).nodes =~= nodes);
    s.lemma_restatused(nodes);
}

/// One element more of a list holds what the list held and that element.
proof fn lemma_take_more(ids: Seq<Seq<char>>, k: int)
    requires
        0 <= k < ids.len(),
    ensures
        forall|x: Seq<char>| #[trigger]
            ids.take(k + 1).contains(x) == (ids.take(k).contains(x) || x == ids[k]),
{
    let now = ids.take(k + 1);
    let before = ids.take(k);
    assert forall|x: Seq<char>| #[trigger] now.contains(x) == (before.contains(x) || x
        == ids[k]) by {
        if before.contains(x) {
            let w = choose|w: int| 0 <= w < before.len() && before[w] == x;
            assert(now[w] == x);
        }
        if x == ids[k] {
            assert(now[k] == x);
        }
        if now.contains(x) && x != ids[k] {
            let w = choose|w: int| 0 <= w < now.len() && now[w] == x;
            assert(before[w] == x);
        }
    }
}

impl App {
    /// Every record that was made up and has no status yet has succeeded.
    pub fn finish_legacy_replay(&mut self)
        requires
            old(self).wf(),
        ensures
            final(self).wf(),
            final(self).spine() == old(self).spine().swept(
                |id: Seq<char>| text::begins(id, "legacy:"@),
                ActivityStatus::Success,
            ),
            old(self).same_aside(*final(self)),
    {
        let ghost s0 = self.spine();
        let ghost pick = |id: Seq<char>| text::begins(id, "legacy:"@);
        let mut i: usize = 0;
        while i < self.activities.len()
            invariant
                self.indexed(),
                s0 == old(self).spine(),
                pick == |id: Seq<char>| text::begins(id, "legacy:"@),
                i <= self.activities@.len(),
                self.activities@.len() == s0.nodes.len(),
                self.spine() == (Spine { nodes: self.spine().nodes, ..s0 }),
                self.spine().nodes.len() == s0.nodes.len(),
                forall|j: int|
                    0 <= j < s0.nodes.len() ==> (#[trigger] self.spine().nodes[j]) == if j < i
                        && s0.nodes[j].status is None && pick(s0.nodes[j].start.id) {
                        NodeView {
                            status: Some(ActivityStatus::Success),
                            revision: spine::bump(s0.nodes[j].revision),
                            ..s0.nodes[j]
                        }
                    } else {
                        s0.nodes[j]
                    },
                old(self).same_aside(*self),
            decreases self.activities@.len() - i,
        {
            assert(self.spine().nodes[i as int] == self.activities@[i as int]@);
            if starts_with_text(self.activities[i].start.id.as_str(), "legacy:")
                && self.activities[i].status.is_none() {
                self.settle(i, ActivityStatus::Success);
            }
            assert(self.activities@.len() == self.spine().nodes.len());
            i = i + 1;
        }
        proof {
            lemma_swept(s0, self.spine().nodes, pick, ActivityStatus::Success);
        }
    }

    /// Every listed record that has no status yet was cancelled.
    pub fn apply_unmatched_ids(&mut self, unmatched_ids: &Vec<String>)
        requires
            old(self).wf(),
        ensures
            final(self).wf(),
            final(self).spine() == old(self).spine().swept(
                |id: Seq<char>| text::texts(unmatched_ids@).contains(id),
                ActivityStatus::Cancelled,
            ),
            old(self).same_aside(*final(self)),
    {
        let ghost s0 = self.spine();
        let ghost ids = text::texts(unmatched_ids@);
        let ghost pick = |id: Seq<char>| text::texts(unmatched_ids@).contains(id);
        let mut k: usize = 0;
        while k < unmatched_ids.len()
            invariant
                self.indexed(),
                s0 == old(self).spine(),
                s0.wf(),
                ids == text::texts(unmatched_ids@),
                k <= unmatched_ids@.len(),
                self.spine() == (Spine { nodes: self.spine().nodes, ..s0 }),
                self.spine().nodes.len() == s0.nodes.len(),
                forall|j: int|
                    0 <= j < s0.nodes.len() ==> (#[trigger] self.spine().nodes[j])
                        == if s0.nodes[j].status is None && ids.take(k as int).contains(
                        s0.nodes[j].start.id,
                    ) {
                        NodeView {
                            status: Some(ActivityStatus::Cancelled),
                            revision: spine::bump(s0.nodes[j].revision),
                            ..s0.nodes[j]
                        }
                    } else {
                        s0.nodes[j]
                    },
                old(self).same_aside(*self),
            decreases unmatched_ids@.len() - k,
        {
            let ghost before = self.spine().nodes;
            let ghost id = ids[k as int];
            proof {
                lemma_take_more(ids, k as int);
                assert(spine::same_ids(s0.nodes, before));
                spine::lemma_same_ids(s0.nodes, before);
            }
            match self.position(unmatched_ids[k].as_str()) {
                Some(i) => {
                    assert(before[i as int] == self.activities@[i as int]@);
                    assert(before[i as int].start.id == id);
                    if self.activities[i].status.is_none() {
                        self.settle(i, ActivityStatus::Cancelled);
                    }
                    proof {
                        assert forall|j: int| 0 <= j < s0.nodes.len() && s0.nodes[j].start.id
                            == id implies j == i by {
                            assert(before[j].start.id == before[i as int].start.id);
                        }
                    }
                },
                None => {
                    proof {
                        assert forall|j: int| 0 <= j < s0.nodes.len() implies (
                        #[trigger] s0.nodes[j]).start.id != id by {
                            assert(before[j].start.id == s0.nodes[j].start.id);
                        }
                    }
                },
            }
            k = k + 1;
        }
        proof {
            assert(ids.take(k as int) =~= ids);
            lemma_swept(s0, self.spine().nodes, pick, ActivityStatus::Cancelled);
        }
    }

    /// Every record whose start is among the events, and whose end is not, was
    /// cancelled unless it has a status.
    pub fn apply_recovered_unmatched(&mut self, events: &Vec<ActivityEvent>)
        requires
            old(self).wf(),
        ensures
            final(self).wf(),
            final(self).spine() == old(self).spine().swept(
                |id: Seq<char>| unmatched(events@, id),
                ActivityStatus::Cancelled,
            ),
            old(self).same_aside(*final(self)),
    {
        let mut ends: StringHashMap<bool> = StringHashMap::new();
        let mut k: usize = 0;
        while k < events.len()
            invariant
                k <= events@.len(),
                forall|id: Seq<char>| #[trigger]
                    ends@.contains_key(id) == ended_in(events@.take(k as int), id),
            decreases events@.len() - k,
        {
            let ghost old_ends = ends@;
            if events[k].phase == ActivityPhase::End {
                ends.insert(events[k].id.clone(), true);
            }
            proof {
                let now = events@.take(k + 1);
                let before = events@.take(k as int);
                assert forall|id: Seq<char>| #[trigger] ends@.contains_key(id) == ended_in(
                    now,
                    id,
                ) by {
                    assert(old_ends.contains_key(id) == ended_in(before, id));
                    if ended_in(before, id) {
                        let w = choose|w: int|
                            0 <= w < before.len() && (#[trigger] before[w])@.id == id
                                && before[w].phase == ActivityPhase::End;
                        assert(now[w] == before[w]);
                    }
                    if ended_in(now, id) {
                        let w = choose|w: int|
                            0 <= w < now.len() && (#[trigger] now[w])@.id == id && now[w].phase
                                == ActivityPhase::End;
                        if w < k {
                            assert(before[w] == now[w]);
                        }
                    }
                    assert(now[k as int] == events@[k as int]);
                }
            }
            k = k + 1;
        }
        assert(events@.take(k as int) =~= events@);
        let mut ids: Vec<String> = Vec::new();
        let mut j: usize = 0;
        while j < events.len()
            invariant
                j <= events@.len(),
                forall|id: Seq<char>| #[trigger] ends@.contains_key(id) == ended_in(events@, id),
                forall|x: int|
                    0 <= x < ids@.len() ==> unmatched(events@, (#[trigger] ids@[x])@),
                forall|w: int|
                    0 <= w < j && (#[trigger] events@[w]).phase == ActivityPhase::Start
                        && !ended_in(events@, events@[w]@.id) ==> text::texts(ids@).contains(
                        events@[w]@.id,
                    ),
            decreases events@.len() - j,
        {
            if events[j].phase == ActivityPhase::Start && !ends.contains_key(
                events[j].id.as_str(),
            ) {
                let ghost before = ids@;
                ids.push(events[j].id.clone());
                proof {
                    text::lemma_texts_push(before, ids@.last());
                    assert(text::texts(ids@)[before.len() as int] == events@[j as int]@.id);
                    assert forall|x: Seq<char>| text::texts(before).contains(
                        x,
                    ) implies #[trigger] text::texts(ids@).contains(x) by {
                        let w = choose|w: int|
                            0 <= w < text::texts(before).len() && text::texts(before)[w] == x;
                        assert(text::texts(ids@)[w] == x);
                    }
                }
            }
            j = j + 1;
        }
        proof {
            assert forall|id: Seq<char>| #[trigger] text::texts(ids@).contains(id) == unmatched(
                events@,
                id,
            ) by {
                if text::texts(ids@).contains(id) {
                    let w = choose|w: int|
                        0 <= w < text::texts(ids@).len() && text::texts(ids@)[w] == id;
                    assert(ids@[w]@ == id);
                }
            }
        }
        let ghost s0 = self.spine();
        self.apply_unmatched_ids(&ids);
        proof {
            assert(s0.swept(
                |id: Seq<char>| unmatched(events@, id),
                ActivityStatus::Cancelled,
            ).nodes =~= s0.swept(
                |id: Seq<char>| text::texts(ids@).contains(id),
                ActivityStatus::Cancelled,
            ).nodes);
        }
    }

    /// Closes every entry that is still streamed into and forgets the streams.
    pub fn finish_streaming_entries(&mut self)
        requires
            old(self).wf(),
        ensures
            final(self).wf(),
            final(self).spine() == old(self).spine().streams_closed(),
            old(self).same_aside(*final(self)),
    {
        let ghost s0 = self.spine();
        let ghost closed = s0.streams_closed();
        let mut i: usize = 0;
        while i < self.entries.len()
            invariant
                i <= self.entries@.len(),
                self.indexed(),
                s0 == old(self).spine(),
                closed == s0.streams_closed(),
                self.spine() == (Spine { entries: self.spine().entries, ..s0 }),
                self.spine().entries.len() == s0.entries.len(),
                forall|j: int|
                    0 <= j < s0.entries.len() ==> (#[trigger] self.spine().entries[j]) == if j < i {
                        closed.entries[j]
                    } else {
                        s0.entries[j]
                    },
                old(self).same_aside(*self),
            decreases self.entries@.len() - i,
        {
            assert(self.spine().entries[i as int] == self.entries@[i as int]@);
            let ghost before = self.entries@;
            if self.entries[i].streaming {
                let revision: u64 = self.entries[i].revision;
                self.entries[i].streaming = false;
                self.entries[i].revision = revision.saturating_add(1);
            }
            proof {
                assert forall|j: int| 0 <= j < s0.entries.len() implies (
                #[trigger] self.spine().entries[j]) == if j < i + 1 {
                    closed.entries[j]
                } else {
                    s0.entries[j]
                } by {
                    assert(app::entries_view(before)[j] == before[j]@);
                    if j != i {
                        assert(self.entries@[j] == before[j]);
                    }
                }
            }
            i = i + 1;
        }
        self.streams.clear();
        proof {
            assert(self.spine().entries =~= closed.entries);
            s0.lemma_streams_closed();
        }
    }

    /// Empties the transcript and its spine. Settings, the composer, the queue,
    /// the workflow and what was spent are left alone.
    pub fn reset_view(&mut self)
        requires
            old(self).wf(),
        ensures
            final(self).wf(),
            final(self).spine() == blank(),
            (App {
                history_index: 0,
                history_generation: spine::bump(old(self).history_generation),
                ..*old(self)
            }).same_aside(*final(self)),
    {
        self.entries.clear();
        self.streams.clear();
        self.activities.clear();
        self.activity_index.clear();
        self.pending_activity_ends.clear();
        self.activity_by_context.clear();
        self.activity_by_external.clear();
        self.timeline.clear();
        self.scroll = 0;
        self.history_index = 0;
        self.history_generation = self.history_generation.saturating_add(1);
        self.focus = Focus::Input;
        self.focused_activity = None;
        proof {
            assert(self.spine() =~= blank());
        }
    }

    /// What an engine event does besides its part in the transcript.
    pub open spec fn after_event(self, event: UiEvent) -> App {
        match event {
            UiEvent::Model { context, .. } if context@ != "main"@ => self,
            UiEvent::Status { context, text } if context@ == "main"@ => App {
                status: text,
                ..self
            },
            UiEvent::Spend(spend) => App { spend, ..self },
            UiEvent::Context { context, tokens } if context@ == "main"@ => App {
                context_tokens: tokens,
                ..self
            },
            UiEvent::Approval { title, detail, workflow, open } => App {
                overlay_scroll: 0,
                approval: if open {
                    Some(Approval { title, detail, workflow })
                } else {
                    self.approval
                },
                ..self
            },
            _ => self,
        }
    }

    /// Takes an event of the engine. The labels and the status line follow the
    /// main conversation only.
    pub fn event(&mut self, event: UiEvent)
        requires
            old(self).wf(),
        ensures
            final(self).wf(),
            event_effect(*old(self), event, *final(self)),
    {
        match event {
            UiEvent::Model { context, provider, model, effort } => {
                if same(context.as_str(), "main") {
                    self.model_label = text3(provider.as_str(), ":", model.as_str());
                    self.effort_label = match effort {
                        Some(effort) => effort,
                        None => "default".to_owned(),
                    };
                    self.status = text2("Generating | ", context.as_str());
                }
            },
            UiEvent::Delta { context, text } => {
                self.delta(context, text.as_str());
            },
            UiEvent::Message { context, message } => {
                self.message(context, message);
            },
            UiEvent::Status { context, text } => {
                if same(context.as_str(), "main") {
                    self.status = text;
                }
            },
            UiEvent::Spend(spend) => {
                self.spend = spend;
            },
            UiEvent::Context { context, tokens } => {
                if same(context.as_str(), "main") {
                    self.context_tokens = tokens;
                }
            },
            UiEvent::Approval { title, detail, workflow, open } => {
                self.overlay_scroll = 0;
                if open {
                    self.approval = Some(Approval { title, detail, workflow });
                }
            },
            UiEvent::Activity(event) => {
                self.handle_activity_event(event);
            },
        }
    }
}

/// What an event of the engine does.
pub open spec fn event_effect(a: App, event: UiEvent, b: App) -> bool {
    &&& b.spine() == match event {
        UiEvent::Delta { context, text } => a.spine().streamed(context@, text@),
        UiEvent::Message { context, message } => a.spine().told(
            context@,
            message@,
            false,
        ),
        UiEvent::Activity(e) => a.spine().handled(e@),
        _ => a.spine(),
    }
    &&& match event {
        UiEvent::Model { context, provider, model, effort } if context@ == "main"@ => {
            &&& b.model_label@ == provider@ + ":"@ + model@
            &&& b.effort_label@ == match effort {
                Some(e) => e@,
                None => "default"@,
            }
            &&& b.status@ == "Generating | "@ + "main"@
            &&& b == (App {
                model_label: b.model_label,
                effort_label: b.effort_label,
                status: b.status,
                ..a
            })
        },
        _ => a.after_event(event).same_aside(b),
    }
}

} // verus!
