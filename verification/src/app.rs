//! The state of the user interface, and what events do to it.
use crate::input::Input;
use crate::model::{ActivityEvent, ActivityStatus, Selection, Spend, Theme};
use crate::picker::Picker;
use crate::spine;
use crate::spine::{EntryView, Focus, ItemView, NodeView, Spine};
use crate::model;
use std::collections::VecDeque;
use vstd::hash_map::StringHashMap;
use vstd::prelude::*;

verus! {

/// One entry of the chat transcript.
#[derive(Debug)]
pub struct Entry {
    pub role: String,
    pub context: String,
    pub text: String,
    pub revision: u64,
    /// The entry is still being fed by deltas and takes the light renderer.
    /// The message that completes it clears this.
    pub streaming: bool,
    /// The activity that the entry belongs to.
    pub activity_id: Option<String>,
}

impl View for Entry {
    type V = EntryView;

    open spec fn view(&self) -> EntryView {
        EntryView {
            role: self.role@,
            context: self.context@,
            text: self.text@,
            revision: self.revision,
            streaming: self.streaming,
            owner: model::opt_text(self.activity_id),
        }
    }
}

/// One slot of the transcript timeline: a chat entry, by its index, or an
/// activity, by its id, in the order of their arrival.
#[derive(Debug)]
pub enum TimelineItem {
    Entry(usize),
    Activity(String),
}

impl View for TimelineItem {
    type V = ItemView;

    open spec fn view(&self) -> ItemView {
        match *self {
            TimelineItem::Entry(i) => ItemView::Entry(i),
            TimelineItem::Activity(id) => ItemView::Activity(id@),
        }
    }
}

/// The record of an activity: its start, how it ended, and whether what it
/// owns is shown. The revision grows with each change.
#[derive(Debug)]
pub struct ActivityNode {
    pub start: ActivityEvent,
    pub status: Option<ActivityStatus>,
    pub expanded: bool,
    pub revision: u64,
}

impl View for ActivityNode {
    type V = NodeView;

    open spec fn view(&self) -> NodeView {
        NodeView {
            start: self.start@,
            status: self.status,
            expanded: self.expanded,
            revision: self.revision,
        }
    }
}

/// The tool activity, by its index, of a call that a context made.
#[derive(Debug)]
pub struct External {
    pub context: String,
    pub call: String,
    pub index: usize,
}

/// The tool activities by context and call; the latest one counts.
pub open spec fn external_map(v: Seq<External>) -> Map<(Seq<char>, Seq<char>), usize>
    decreases v.len(),
{
    if v.len() == 0 {
        Map::empty()
    } else {
        external_map(v.drop_last()).insert((v.last().context@, v.last().call@), v.last().index)
    }
}

/// A question to the user. A workflow's can also be retried or skipped.
#[derive(Debug)]
pub struct Approval {
    pub title: String,
    pub detail: String,
    pub workflow: bool,
}

/// The front of the queue failed to start. Nothing is drained until the user
/// retries it; what is typed meanwhile waits behind it.
#[derive(Debug)]
pub struct QueueBlocked {
    pub error: String,
    pub pending: usize,
}

/// The state of the user interface.
pub struct App {
    pub entries: Vec<Entry>,
    /// The entry that a context is streaming into.
    pub streams: StringHashMap<usize>,
    pub input: Input,
    pub input_history: Vec<String>,
    pub history_index: usize,
    pub spend: Spend,
    pub context_limit: u32,
    pub context_tokens: u64,
    pub workspace: String,
    pub queued_inputs: VecDeque<String>,
    pub theme: Theme,
    pub selection: Selection,
    pub mode: Option<String>,
    /// When false, wheel and clicks are ignored. It lasts for the session and
    /// survives resets of the view.
    pub mouse_enabled: bool,
    pub workflow_mode: Option<String>,
    pub workflow_complete: bool,
    pub last_workflow_input: Option<String>,
    pub status: String,
    pub model_label: String,
    pub effort_label: String,
    pub effective_agent_label: String,
    /// Distance of the view from the end of the transcript.
    pub scroll: usize,
    pub overlay_scroll: usize,
    pub help: bool,
    pub picker: Option<Picker>,
    pub approval: Option<Approval>,
    /// A run is in flight.
    pub busy: bool,
    pub queue_blocked: Option<QueueBlocked>,
    pub quit: bool,
    /// A reset invalidates cached entries even if the new conversation has the
    /// same length.
    pub history_generation: u64,
    pub activities: Vec<ActivityNode>,
    pub activity_index: StringHashMap<usize>,
    /// Ends that arrived before their starts.
    pub pending_activity_ends: StringHashMap<ActivityStatus>,
    /// The subagent or workflow step that runs in a context.
    pub activity_by_context: StringHashMap<usize>,
    pub activity_by_external: Vec<External>,
    pub timeline: Vec<TimelineItem>,
    pub focus: Focus,
    /// The focused activity; kept while the composer has the focus.
    pub focused_activity: Option<String>,
}

/// The values of chat entries.
pub open spec fn entries_view(v: Seq<Entry>) -> Seq<EntryView> {
    v.map_values(|x: Entry| x@)
}

/// The values of activity records.
pub open spec fn nodes_view(v: Seq<ActivityNode>) -> Seq<NodeView> {
    v.map_values(|x: ActivityNode| x@)
}

/// The values of timeline slots.
pub open spec fn items_view(v: Seq<TimelineItem>) -> Seq<ItemView> {
    v.map_values(|x: TimelineItem| x@)
}

impl App {
    /// The transcript and its activity spine.
    pub open spec fn spine(self) -> Spine {
        Spine {
            entries: entries_view(self.entries@),
            streams: self.streams@,
            nodes: nodes_view(self.activities@),
            pending: self.pending_activity_ends@,
            owners: self.activity_by_context@,
            externals: external_map(self.activity_by_external@),
            timeline: items_view(self.timeline@),
            focus: self.focus,
            focused: model::opt_text(self.focused_activity),
            scroll: self.scroll,
        }
    }

    /// The index finds exactly the records, each by its id.
    pub open spec fn indexed(self) -> bool {
        &&& forall|id: Seq<char>|
            #![trigger self.activity_index@[id]]
            #![trigger self.activity_index@.contains_key(id)]
            self.activity_index@.contains_key(id) ==> self.activity_index@[id]
                < self.activities@.len() && self.activities@[self.activity_index@[id] as int].start.id@
                == id
        &&& forall|i: int|
            0 <= i < self.activities@.len() ==> {
                &&& self.activity_index@.contains_key((#[trigger] self.activities@[i]).start.id@)
                &&& self.activity_index@[self.activities@[i].start.id@] == i
            }
    }

    /// What every operation keeps.
    pub open spec fn wf(self) -> bool {
        &&& self.indexed()
        &&& self.spine().wf()
        &&& self.input.wf()
        &&& self.history_index <= self.input_history@.len()
        &&& self.picker is Some ==> self.picker->0.wf()
    }

    /// Everything but the transcript and its spine is as it was.
    pub open spec fn same_aside(self, after: App) -> bool {
        after == (App {
            entries: after.entries,
            streams: after.streams,
            activities: after.activities,
            activity_index: after.activity_index,
            pending_activity_ends: after.pending_activity_ends,
            activity_by_context: after.activity_by_context,
            activity_by_external: after.activity_by_external,
            timeline: after.timeline,
            focus: after.focus,
            focused_activity: after.focused_activity,
            scroll: after.scroll,
            ..self
        })
    }
}

} // verus!
