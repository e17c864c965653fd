//! What holds across operations of the transcript, the keyboard and the queue.
use crate::app::App;
use crate::choices;
use crate::keys;
use crate::keys::{KeyAction, Pane};
use crate::messages;
use crate::model;
use crate::model::{
    ActivityPhase, ActivityStatus, CallView, EventView, KeyCode, KeyEvent, MessageView, Selection,
    Theme,
};
use crate::picker;
use crate::picker::{Picker, Preset};
use crate::runs;
use crate::runs::{ModelInfo, RunOutcome, Submission};
use crate::spine;
use crate::spine::{Focus, ItemView, NodeView, Spine};
use crate::text;
use vstd::prelude::*;

verus! {

// ---------------------------------------------------------------------------
// Activities
// ---------------------------------------------------------------------------

/// Where everything is in order the focus is where it belongs.
proof fn lemma_already_normal(s: Spine)
    requires
        s.wf(),
    ensures
        s.normalized() == s,
{
}

/// A second start of an activity changes nothing.
pub proof fn law_duplicate_start(s: Spine, e: EventView)
    requires
        s.wf(),
        spine::known(s.nodes, e.id),
        e.phase == ActivityPhase::Start,
    ensures
        s.handled(e) == s,
{
    assert(!s.pending.contains_key(e.id));
    lemma_already_normal(s);
}

/// An end that arrives before its start leaves the same records, in the same
/// order, as one that arrives after it, and the same rows are visible.
pub proof fn law_end_before_start(s: Spine, start: EventView, end: EventView)
    requires
        s.wf(),
        s.nodes.len() < usize::MAX,
        start.id == end.id,
        start.phase == ActivityPhase::Start,
        end.phase == ActivityPhase::End,
        !spine::known(s.nodes, start.id),
        !s.pending.contains_key(start.id),
    ensures
        s.handled(end).handled(start) == s.handled(start).handled(end),
{
    let id = start.id;
    let status = match end.status {
        Some(x) => x,
        None => ActivityStatus::Error,
    };
    // End first: it waits, and nothing else changes.
    let waiting = s.ended(end);
    s.lemma_ended(end);
    assert(waiting.visible() == s.visible());
    assert(waiting.wf());
    lemma_already_normal(waiting);
    assert(s.handled(end) == waiting);
    let early = waiting.started(start);
    waiting.lemma_started(start);
    // Start first.
    let begun = s.started(start);
    s.lemma_started(start);
    let node = NodeView { start, status: None, expanded: false, revision: 0 };
    spine::lemma_pushed_ids(s.nodes, node);
    assert(begun == s.recorded(start));
    assert(waiting.recorded(start).pending.remove(id) =~= s.pending);
    assert(early == begun.settled(s.nodes.len() as int, status));
    let late = begun.normalized().ended(end);
    begun.lemma_normalized();
    assert(late == begun.normalized().settled(s.nodes.len() as int, status));
    // A status does not move the focus.
    messages::lemma_same_shape(
        begun.nodes,
        early.nodes,
        begun.timeline,
        begun.timeline.len() as int,
    );
    assert(early.visible() == begun.visible());
    lemma_same_nearest(begun, early);
    assert(early.normalized().focused == begun.normalized().focused);
    assert(late == early.normalized());
    assert(late.visible() == begun.normalized().visible());
    assert(late.wf());
    lemma_already_normal(late);
}

/// The nearest collapsed ancestor goes by the starts and the expansions alone.
proof fn lemma_same_nearest(a: Spine, b: Spine)
    requires
        messages::same_shape(a.nodes, b.nodes),
        spine::distinct(a.nodes),
    ensures
        forall|id: Seq<char>| #[trigger] a.nearest(id) == b.nearest(id),
{
    spine::lemma_same_ids(a.nodes, b.nodes);
    assert forall|id: Seq<char>| #[trigger] a.nearest(id) == b.nearest(id) by {
        if spine::known(a.nodes, id) {
            let i = spine::pos(a.nodes, id);
            messages::lemma_same_trail(a.nodes, b.nodes, seq![i]);
            spine::lemma_trail_of(a.nodes, i);
            lemma_same_nearest_from(a, b, spine::trail(a.nodes, i), 1);
        }
    }
}

proof fn lemma_same_nearest_from(a: Spine, b: Spine, t: Seq<int>, k: int)
    requires
        messages::same_shape(a.nodes, b.nodes),
        spine::distinct(a.nodes),
        0 <= k,
        forall|j: int| 0 <= j < t.len() ==> 0 <= #[trigger] t[j] < a.nodes.len(),
    ensures
        a.nearest_from(t, k) == b.nearest_from(t, k),
    decreases t.len() - k,
{
    if k < t.len() {
        let i = t[k];
        messages::lemma_same_trail(a.nodes, b.nodes, seq![i]);
        spine::lemma_trail_of(a.nodes, i);
        let tr = spine::trail(a.nodes, i);
        assert forall|j: int| 1 <= j < tr.len() implies a.nodes[#[trigger] tr[j]].expanded
            == b.nodes[tr[j]].expanded by {}
        assert(a.nodes[i].start == b.nodes[i].start);
        lemma_same_nearest_from(a, b, t, k + 1);
    }
}

/// Every record has exactly one row of the timeline.
pub proof fn law_one_row(s: Spine, id: Seq<char>, j: int, k: int)
    requires
        s.wf(),
        spine::known(s.nodes, id),
    ensures
        s.timeline.contains(ItemView::Activity(id)),
        0 <= j < s.timeline.len() && 0 <= k < s.timeline.len() && s.timeline[j]
            == ItemView::Activity(id) && s.timeline[k] == ItemView::Activity(id) ==> j == k,
{
    let i = spine::pos(s.nodes, id);
    assert(s.nodes[i].start.id == id);
}

/// What lies below a collapsed record is hidden: records and owned entries.
pub proof fn law_collapse_hides(s: Spine, a: int, i: int, entry: int)
    requires
        s.wf(),
        0 <= i < s.nodes.len(),
        spine::above(s.nodes, a, i),
        !s.nodes[a].expanded,
    ensures
        !spine::shown(s.nodes, s.nodes[i].start.id),
        !s.visible().contains(s.nodes[i].start.id),
        0 <= entry < s.entries.len() && s.entries[entry].owner == Some(s.nodes[i].start.id)
            ==> !s.entry_shown(entry),
{
    spine::lemma_pos(s.nodes, i);
    spine::lemma_visible(s.nodes, s.timeline, s.timeline.len() as int);
}

/// Flipping the expansion of a record twice brings every expansion back.
pub proof fn law_toggle_twice(s: Spine, id: Seq<char>, i: int)
    requires
        s.wf(),
        0 <= i < s.nodes.len(),
    ensures
        s.expanded(id, None).expanded(id, None).nodes.len() == s.nodes.len(),
        s.expanded(id, None).expanded(id, None).nodes[i].expanded == s.nodes[i].expanded,
        s.expanded(id, None).expanded(id, None).nodes[i].start == s.nodes[i].start,
        s.expanded(id, None).expanded(id, None).nodes[i].status == s.nodes[i].status,
{
    if spine::known(s.nodes, id) {
        let once = s.expanded(id, None);
        assert(spine::same_ids(s.nodes, once.nodes));
        spine::lemma_same_ids(s.nodes, once.nodes);
    }
}

/// Closing open records twice is closing them once.
pub proof fn law_sweep_is_idempotent(
    s: Spine,
    pick: spec_fn(Seq<char>) -> bool,
    status: ActivityStatus,
)
    ensures
        s.swept(pick, status).swept(pick, status) == s.swept(pick, status),
{
    let once = s.swept(pick, status);
    assert(once.swept(pick, status).nodes =~= once.nodes);
}

// ---------------------------------------------------------------------------
// Messages
// ---------------------------------------------------------------------------

/// `b` has what `a` has, in the same places, and perhaps more: the rows of the
/// timeline, the entries and the records. A status that was set is kept.
pub open spec fn grown(a: Spine, b: Spine) -> bool {
    &&& a.timeline.len() <= b.timeline.len()
    &&& b.timeline.take(a.timeline.len() as int) == a.timeline
    &&& a.entries.len() <= b.entries.len()
    &&& forall|i: int|
        0 <= i < a.entries.len() ==> {
            &&& (#[trigger] b.entries[i]).owner == a.entries[i].owner
            &&& b.entries[i].role == a.entries[i].role
            &&& b.entries[i].context == a.entries[i].context
        }
    &&& a.nodes.len() <= b.nodes.len()
    &&& forall|i: int|
        0 <= i < a.nodes.len() ==> {
            &&& (#[trigger] b.nodes[i]).start == a.nodes[i].start
            &&& a.nodes[i].status is Some ==> b.nodes[i].status == a.nodes[i].status
        }
}

proof fn lemma_grown_trans(a: Spine, b: Spine, c: Spine)
    requires
        grown(a, b),
        grown(b, c),
    ensures
        grown(a, c),
{
    assert(c.timeline.take(a.timeline.len() as int) =~= b.timeline.take(a.timeline.len() as int));
    assert forall|i: int| 0 <= i < a.entries.len() implies {
        &&& (#[trigger] c.entries[i]).owner == a.entries[i].owner
        &&& c.entries[i].role == a.entries[i].role
        &&& c.entries[i].context == a.entries[i].context
    } by {
        assert(b.entries[i].owner == a.entries[i].owner);
    }
    assert forall|i: int| 0 <= i < a.nodes.len() implies {
        &&& (#[trigger] c.nodes[i]).start == a.nodes[i].start
        &&& a.nodes[i].status is Some ==> c.nodes[i].status == a.nodes[i].status
    } by {
        assert(b.nodes[i].start == a.nodes[i].start);
    }
}

proof fn lemma_start_grows(s: Spine, e: EventView)
    requires
        s.wf(),
        e.phase == ActivityPhase::Start,
    ensures
        grown(s, s.handled(e)),
{
    let r = s.handled(e);
    if spine::known(s.nodes, e.id) {
        assert(!s.pending.contains_key(e.id));
        assert(r.timeline.take(s.timeline.len() as int) =~= s.timeline);
    } else {
        let node = NodeView { start: e, status: None, expanded: false, revision: 0 };
        spine::lemma_pushed_ids(s.nodes, node);
        assert(s.recorded(e).nodes == s.nodes.push(node));
        assert(r.timeline.take(s.timeline.len() as int) =~= s.timeline);
    }
}

proof fn lemma_push_grows(
    s: Spine,
    role: Seq<char>,
    context: Seq<char>,
    text: Seq<char>,
    owner: Option<Seq<char>>,
)
    ensures
        grown(s, s.pushed(role, context, text, owner)),
{
    let r = s.pushed(role, context, text, owner);
    assert(r.timeline.take(s.timeline.len() as int) =~= s.timeline);
}

proof fn lemma_calls_grow(
    s: Spine,
    context: Seq<char>,
    parent: Option<Seq<char>>,
    calls: Seq<CallView>,
    n: int,
)
    requires
        s.wf(),
        0 <= n <= calls.len(),
        s.nodes.len() + calls.len() < usize::MAX,
    ensures
        grown(s, s.calls_started(context, parent, calls, n)),
        s.calls_started(context, parent, calls, n).wf(),
        s.calls_started(context, parent, calls, n).nodes.len() <= s.nodes.len() + n,
    decreases n,
{
    if n == 0 {
        assert(s.timeline.take(s.timeline.len() as int) =~= s.timeline);
    } else {
        lemma_calls_grow(s, context, parent, calls, n - 1);
        let t = s.calls_started(context, parent, calls, n - 1);
        let e = messages::call_start(t.nodes, context, parent, calls[n - 1]);
        lemma_start_grows(t, e);
        t.lemma_handled(e);
        lemma_grown_trans(s, t, t.handled(e));
    }
}

/// A message leaves everything that is there in its place: it adds rows behind
/// the others, never moves an entry to another owner, and never overwrites a
/// status that an event has set.
pub proof fn law_messages_only_add(s: Spine, context: Seq<char>, m: MessageView, legacy: bool)
    requires
        s.wf(),
        s.entries.len() < usize::MAX,
        s.nodes.len() + m.calls.len() + 1 < usize::MAX,
    ensures
        grown(s, s.told(context, m, legacy)),
{
    assert(s.timeline.take(s.timeline.len() as int) =~= s.timeline);
    let s1 = if legacy && context != "main"@ {
        s.context_owned(context)
    } else {
        s
    };
    if s1 != s {
        let e = messages::context_start(s.nodes, context);
        lemma_start_grows(s, e);
        s.lemma_handled(e);
    }
    assert(grown(s, s1));
    assert(s1.wf());
    assert(s1.entries == s.entries);
    let owner = s1.message_owner(context, m.role, m.call);
    let s2 = s1.result_read(context, m.role, m.call, m.content);
    if m.role == "tool"@ && m.call is Some && s1.externals.contains_key((context, m.call->0)) {
        let i = s1.externals[(context, m.call->0)];
        assert(i < s1.nodes.len());
        if s1.nodes[i as int].status is None {
            s1.lemma_restatused(s2.nodes);
        }
    }
    assert(s2.wf());
    assert(s2.timeline.take(s1.timeline.len() as int) =~= s1.timeline);
    assert(grown(s1, s2));
    lemma_grown_trans(s, s1, s2);
    let text = messages::message_text(m);
    let r = s.told(context, m, legacy);
    if m.role == "assistant"@ && s2.streams.contains_key(context) {
        assert(s2.streams[context] < s2.entries.len());
        assert(r.timeline.take(s2.timeline.len() as int) =~= s2.timeline);
        assert(grown(s2, r));
        lemma_grown_trans(s, s2, r);
    } else if m.incomplete is None && m.role == "assistant"@ {
        let s3 = Spine { scroll: 0, ..s2 };
        s2.lemma_scrolled(0);
        assert(grown(s2, s3)) by {
            assert(s3.timeline.take(s2.timeline.len() as int) =~= s2.timeline);
        }
        lemma_grown_trans(s, s2, s3);
        let s4 = s3.pushed(m.role, context, text, owner);
        lemma_push_grows(s3, m.role, context, text, owner);
        s3.lemma_pushed(m.role, context, text, owner);
        lemma_grown_trans(s, s3, s4);
        if legacy {
            let parent = if s4.owners.contains_key(context) {
                Some(s4.nodes[s4.owners[context] as int].start.id)
            } else {
                None
            };
            lemma_calls_grow(s4, context, parent, m.calls, m.calls.len() as int);
            lemma_grown_trans(s, s4, r);
        }
    } else {
        lemma_push_grows(s2, m.role, context, text, owner);
        lemma_grown_trans(s, s2, r);
    }
}

/// Pieces of text are streamed in one context, one after the other.
pub open spec fn all_streamed(s: Spine, context: Seq<char>, deltas: Seq<Seq<char>>) -> Spine
    decreases deltas.len(),
{
    if deltas.len() == 0 {
        s
    } else {
        all_streamed(s, context, deltas.drop_last()).streamed(context, deltas.last())
    }
}

/// The entry that a context streams into, or is about to open.
pub open spec fn stream_place(s: Spine, context: Seq<char>) -> int {
    if s.streams.contains_key(context) {
        s.streams[context] as int
    } else {
        s.entries.len() as int
    }
}

/// What a context has streamed so far, and the revision of that.
pub open spec fn stream_so_far(s: Spine, context: Seq<char>) -> (Seq<char>, u64) {
    if s.streams.contains_key(context) {
        let e = s.entries[s.streams[context] as int];
        (e.text, e.revision)
    } else {
        (Seq::empty(), 0)
    }
}

/// A revision after `n` changes; it stops at the largest number.
pub open spec fn revised(revision: u64, n: nat) -> u64 {
    if revision + n <= u64::MAX {
        (revision + n) as u64
    } else {
        u64::MAX
    }
}

/// The deltas of one context, however many, add up in one entry: it holds what
/// was streamed before and then all of them in order, its revision counts
/// them, and no other entry is touched.
pub proof fn law_deltas_add_up(s: Spine, context: Seq<char>, deltas: Seq<Seq<char>>)
    requires
        s.wf(),
        s.streams.contains_key(context) || s.entries.len() < usize::MAX,
        deltas.len() > 0,
    ensures
        ({
            let r = all_streamed(s, context, deltas);
            let i = stream_place(s, context);
            let (text, revision) = stream_so_far(s, context);
            &&& r.wf()
            &&& r.streams == s.streams.insert(context, i as usize)
            &&& r.entries[i].text == text + deltas.flatten()
            &&& r.entries[i].revision == revised(revision, deltas.len())
            &&& r.entries[i].streaming
            &&& r.entries.len() == if i < s.entries.len() {
                s.entries.len()
            } else {
                s.entries.len() + 1
            }
            &&& r.timeline == if i < s.entries.len() {
                s.timeline
            } else {
                s.timeline.push(ItemView::Entry(i as usize))
            }
            &&& forall|j: int|
                0 <= j < s.entries.len() && j != i ==> #[trigger] r.entries[j] == s.entries[j]
        }),
    decreases deltas.len(),
{
    let front = deltas.drop_last();
    let before = all_streamed(s, context, front);
    let r = all_streamed(s, context, deltas);
    let i = stream_place(s, context);
    let (text, revision) = stream_so_far(s, context);
    if front.len() > 0 {
        law_deltas_add_up(s, context, front);
        before.lemma_streamed(context, deltas.last());
    } else {
        assert(before == s);
        s.lemma_streamed(context, deltas.last());
        assert(front.flatten_alt() =~= Seq::<char>::empty());
    }
    deltas.lemma_flatten_and_flatten_alt_are_equivalent();
    front.lemma_flatten_and_flatten_alt_are_equivalent();
    assert(deltas.flatten() =~= front.flatten() + deltas.last());
    assert(text + deltas.flatten() =~= (text + front.flatten()) + deltas.last());
    assert(text + front.flatten() =~= if front.len() > 0 {
        before.entries[i].text
    } else {
        text
    });
    assert(r.streams =~= s.streams.insert(context, i as usize));
}

/// The assistant's message takes the place of what was streamed for it, in
/// however many deltas: no row is added, the owner stays, the entry holds the
/// message's text, and that is one revision more.
pub proof fn law_message_completes_stream(
    s: Spine,
    context: Seq<char>,
    deltas: Seq<Seq<char>>,
    m: MessageView,
)
    requires
        s.wf(),
        s.streams.contains_key(context) || s.entries.len() < usize::MAX,
        deltas.len() > 0,
        m.role == "assistant"@,
    ensures
        ({
            let open = all_streamed(s, context, deltas);
            let done = open.told(context, m, false);
            let i = stream_place(s, context);
            &&& done.timeline == open.timeline
            &&& done.entries.len() == open.entries.len()
            &&& done.entries[i].text == messages::message_text(m)
            &&& done.entries[i].owner == open.entries[i].owner
            &&& done.entries[i].revision == revised(
                stream_so_far(s, context).1,
                deltas.len() + 1,
            )
            &&& !done.entries[i].streaming
            &&& done.streams == s.streams.remove(context)
            &&& forall|j: int|
                0 <= j < s.entries.len() && j != i ==> #[trigger] done.entries[j] == s.entries[j]
        }),
{
    reveal_strlit("assistant");
    reveal_strlit("tool");
    assert("assistant"@.len() != "tool"@.len());
    law_deltas_add_up(s, context, deltas);
    let open = all_streamed(s, context, deltas);
    assert(open.streams.contains_key(context));
    assert(open.streams.remove(context) =~= s.streams.remove(context));
}

/// An id that is made up is never one that is taken.
pub proof fn law_made_up_ids_are_free(nodes: Seq<NodeView>, base: Seq<char>)
    ensures
        !spine::known(nodes, messages::free_id(nodes, base)),
{
    if spine::known(nodes, base) {
        let k = lemma_some_free(nodes, base, 2);
        let c = choose|c: nat| messages::first_free(nodes, base, c);
        assert(messages::first_free(nodes, base, c));
    }
}

proof fn lemma_some_free(nodes: Seq<NodeView>, base: Seq<char>, k: nat) -> (r: nat)
    requires
        k >= 2,
        forall|j: nat| 2 <= j < k ==> spine::known(nodes, #[trigger] messages::numbered(base, j)),
    ensures
        messages::first_free(nodes, base, r),
    decreases nodes.len() + 3 - k,
{
    messages::lemma_taken(nodes, base, k);
    if spine::known(nodes, messages::numbered(base, k)) {
        lemma_some_free(nodes, base, k + 1)
    } else {
        k
    }
}

// ---------------------------------------------------------------------------
// Keyboard and queue
// ---------------------------------------------------------------------------

/// What lies over the transcript keeps keys from the composer, its history,
/// the queue and the transcript.
pub proof fn law_overlays_own_the_keys(a: App, key: KeyEvent, b: App, r: Result<KeyAction, String>)
    requires
        match keys::top_pane(a) {
            Pane::Approval => r is Ok && keys::approval_effect(a, key, b, r->Ok_0),
            Pane::Help => r is Ok && keys::help_effect(a, key, b, r->Ok_0),
            Pane::Complete => keys::complete_effect(a, key, b, r),
            Pane::Dialog => r is Ok && keys::dialog_effect(a, key, b, r->Ok_0),
            Pane::Main => false,
        },
    ensures
        b.input == a.input,
        b.input_history == a.input_history,
        b.history_index == a.history_index,
        b.queued_inputs == a.queued_inputs,
        b.spine() == a.spine(),
        b.busy == a.busy,
{
}

/// While the spine owns the keyboard no key reaches the composer, its history
/// or the queue, and none submits.
pub proof fn law_spine_keys_leave_the_composer(a: App, key: KeyEvent, b: App, r: KeyAction)
    requires
        a.focus == Focus::Activity,
        keys::main_effect(a, key, b, r),
    ensures
        b.input == a.input,
        b.input_history == a.input_history,
        b.history_index == a.history_index,
        b.queued_inputs == a.queued_inputs,
        !(r is Submit),
{
}

/// Tab never leaves workflow mode.
pub proof fn law_tab_keeps_the_workflow(a: App, key: KeyEvent, b: App, r: KeyAction)
    requires
        a.workflow_mode is Some,
        key.code == KeyCode::Tab || key.code == KeyCode::BackTab,
        keys::main_effect(a, key, b, r),
    ensures
        b.workflow_mode == a.workflow_mode,
        b.selection == a.selection,
        r is Stay,
{
}

/// A retry that fails leaves the queue as it was, blocked with all of it
/// pending: what was taken from its front is put back there.
pub proof fn law_failed_retry_keeps_the_queue(
    a: App,
    b: App,
    input: String,
    error: Seq<char>,
    c: App,
)
    requires
        runs::retry_effect(a, b, Submission::Retry(input)),
        runs::put_back(b, input, error, c),
    ensures
        c.queued_inputs@ == a.queued_inputs@,
        c.queue_blocked is Some,
        c.queue_blocked->0.pending == a.queued_inputs@.len(),
        c.queue_blocked->0.error@ == error,
{
    assert(seq![input] + b.queued_inputs@ =~= a.queued_inputs@);
}

/// After a run ended and the front of the queue could not be started, the queue
/// is as it was and blocked with all of it pending, and the status says so. A
/// workflow shows that it is complete. Nothing is started again by itself: no
/// run is there to end, and the queue gives nothing out.
pub proof fn law_failed_start_keeps_the_queue(
    a: App,
    outcome: RunOutcome,
    ended: bool,
    b: App,
    info: Result<ModelInfo, String>,
    c: App,
    front: Option<String>,
    d: App,
    error: Seq<char>,
    e: App,
)
    requires
        a.busy,
        a.queue_blocked is None,
        a.queued_inputs@.len() > 0,
        runs::settled(a, Some(outcome), b, ended),
        choices::refreshed(b, info, c),
        runs::taken(c, front, d),
        front is Some ==> runs::put_back(d, front->0, error, e),
    ensures
        ended,
        front == Some(a.queued_inputs@[0]),
        !e.busy,
        e.queued_inputs@ == a.queued_inputs@,
        e.queue_blocked is Some,
        e.queue_blocked->0.pending == a.queued_inputs@.len(),
        e.queue_blocked->0.error@ == error,
        e.status@ == "Queued "@ + text::decimal(a.queued_inputs@.len())
            + " message(s) blocked | start failed; press Enter to retry"@,
        e.workflow_mode == a.workflow_mode,
        a.workflow_mode is Some ==> e.workflow_complete,
        forall|again: Option<RunOutcome>, f: App, r: bool| #[trigger]
            runs::settled(e, again, f, r) ==> !r && f == e,
        forall|f: App, r: Option<String>| #[trigger]
            runs::taken(e, r, f) ==> r is None && f.queued_inputs@ == e.queued_inputs@,
{
    assert(e.queued_inputs@ =~= a.queued_inputs@);
}

/// An input that has to wait waits behind all others.
pub proof fn law_queue_is_first_in_first_out(a: App, b: App)
    requires
        runs::submit_effect(a, b, Submission::Stay),
        b.queued_inputs@.len() > a.queued_inputs@.len(),
        a.queued_inputs@.len() > 0,
    ensures
        b.queued_inputs@[0] == a.queued_inputs@[0],
        b.queued_inputs@.drop_last() == a.queued_inputs@,
{
    assert(b.queued_inputs@.drop_last()[0] == b.queued_inputs@[0]);
}

/// The agent behind the next one is the one in use: a step back undoes a step
/// ahead.
pub proof fn law_agent_cycle_undoes(offered: Seq<Seq<char>>, now: Seq<char>)
    requires
        offered.len() >= 2,
        offered.no_duplicates(),
        offered.contains(now),
    ensures
        choices::next_agent(offered, choices::next_agent(offered, now, false), true) == now,
{
    let n = offered.len() as int;
    let k = choose|k: int| 0 <= k < n && offered[k] == now;
    lemma_place(offered, k, 0);
    let next = (k + 1) % n;
    assert(0 <= next < n) by (nonlinear_arith)
        requires
            next == (k + 1) % n,
            n >= 2,
    ;
    assert(offered[next] == choices::next_agent(offered, now, false));
    lemma_place(offered, next, 0);
    assert((next + n - 1) % n == k) by (nonlinear_arith)
        requires
            next == (k + 1) % n,
            0 <= k < n,
            n >= 2,
    {
        if k == n - 1 {
            assert((k + 1) % n == 0);
            assert((n - 1) % n == n - 1);
        } else {
            assert((k + 1) % n == k + 1);
            assert((k + n) % n == k);
        }
    }
}

/// The agent that was chosen by its listed name is the one in use.
pub proof fn law_chosen_agent_is_in_use(name: Seq<char>, default: Option<Seq<char>>, s: Selection)
    requires
        choices::agent_selection(name, default is Some, s),
    ensures
        model::agent_in_use(s, default) == name,
{
}

/// Each agent is offered once. Where none of them is the default, `default` is
/// offered too, which stands for having none.
pub proof fn law_agents_are_offered_once(names: Seq<Seq<char>>, has_default: bool)
    requires
        names.no_duplicates(),
    ensures
        picker::agent_names(names, has_default).no_duplicates(),
        forall|name: Seq<char>| #[trigger]
            picker::agent_names(names, has_default).contains(name) <==> names.contains(name) || (
            !has_default && name == "default"@),
{
    let keep = |n: Seq<char>| n != "default"@;
    lemma_filtered_once(names, keep);
    let rest = names.filter(keep);
    let all = picker::agent_names(names, has_default);
    if !has_default {
        assert(all == seq!["default"@] + rest);
        assert forall|i: int, j: int| 0 <= i < j < all.len() implies all[i] != all[j] by {
            assert(rest.contains(rest[j - 1]));
            assert(keep(rest[j - 1]));
            if i > 0 {
                assert(rest[i - 1] != rest[j - 1]);
            }
        }
        assert forall|name: Seq<char>| #[trigger] all.contains(name) <==> names.contains(name)
            || name == "default"@ by {
            if all.contains(name) && name != "default"@ {
                let i = choose|i: int| 0 <= i < all.len() && all[i] == name;
                assert(rest[i - 1] == name);
                assert(rest.contains(name));
            }
            if name == "default"@ {
                assert(all[0] == name);
            } else if names.contains(name) {
                assert(keep(name));
                assert(rest.contains(name));
                let i = choose|i: int| 0 <= i < rest.len() && rest[i] == name;
                assert(all[i + 1] == name);
            }
        }
    }
}

/// What is kept of distinct names is distinct, and all that was to be kept.
proof fn lemma_filtered_once(names: Seq<Seq<char>>, keep: spec_fn(Seq<char>) -> bool)
    requires
        names.no_duplicates(),
    ensures
        names.filter(keep).no_duplicates(),
        forall|name: Seq<char>| #[trigger]
            names.filter(keep).contains(name) <==> names.contains(name) && keep(name),
    decreases names.len(),
{
    reveal(Seq::filter);
    if names.len() > 0 {
        let front = names.drop_last();
        let last = names.last();
        lemma_filtered_once(front, keep);
        assert(names =~= front.push(last));
        let old = front.filter(keep);
        assert(!front.contains(last));
        assert(!old.contains(last));
        let new = names.filter(keep);
        assert forall|name: Seq<char>| #[trigger] new.contains(name) <==> names.contains(name)
            && keep(name) by {
            assert(old.contains(name) <==> front.contains(name) && keep(name));
            if names.contains(name) && name != last {
                let i = choose|i: int| 0 <= i < names.len() && names[i] == name;
                assert(front[i] == name);
            }
            if front.contains(name) {
                let i = choose|i: int| 0 <= i < front.len() && front[i] == name;
                assert(names[i] == name);
            }
            if keep(last) {
                assert(new == old.push(last));
                assert(new[old.len() as int] == last);
                if old.contains(name) {
                    let i = choose|i: int| 0 <= i < old.len() && old[i] == name;
                    assert(new[i] == name);
                }
            }
        }
        if keep(last) {
            assert(new == old.push(last));
            assert forall|i: int, j: int| 0 <= i < j < new.len() implies new[i] != new[j] by {
                assert(old.contains(old[i]));
            }
        }
    }
}

/// The agent in use after `n` steps of the cycle.
pub open spec fn cycled(offered: Seq<Seq<char>>, now: Seq<char>, reverse: bool, n: nat) -> Seq<char>
    decreases n,
{
    if n == 0 {
        now
    } else {
        choices::next_agent(offered, cycled(offered, now, reverse, (n - 1) as nat), reverse)
    }
}

/// Where `n` steps from `k` lead on a ring of `m` places, with `n` at most `m`.
spec fn ring(k: int, n: int, m: int, reverse: bool) -> int {
    if reverse {
        if k >= n {
            k - n
        } else {
            k - n + m
        }
    } else if k + n < m {
        k + n
    } else {
        k + n - m
    }
}

proof fn lemma_cycled(offered: Seq<Seq<char>>, k: int, reverse: bool, n: nat)
    requires
        offered.no_duplicates(),
        0 <= k < offered.len(),
        n <= offered.len(),
    ensures
        cycled(offered, offered[k], reverse, n) == offered[ring(
            k,
            n as int,
            offered.len() as int,
            reverse,
        )],
    decreases n,
{
    let m = offered.len() as int;
    if n > 0 {
        lemma_cycled(offered, k, reverse, (n - 1) as nat);
        let at = ring(k, n - 1, m, reverse);
        lemma_place(offered, at, 0);
        vstd::arithmetic::div_mod::lemma_mod_self_0(m);
        if at + 1 < m {
            vstd::arithmetic::div_mod::lemma_small_mod((at + 1) as nat, m as nat);
        }
        vstd::arithmetic::div_mod::lemma_small_mod((m - 1) as nat, m as nat);
        if at > 0 {
            vstd::arithmetic::div_mod::lemma_small_mod((at - 1) as nat, m as nat);
            vstd::arithmetic::div_mod::lemma_mod_add_multiples_vanish(at - 1, m);
        }
    }
}

/// A full turn of the agent cycle, either way, comes to each agent once and
/// leads back to the one in use.
pub proof fn law_agent_cycle_turns(offered: Seq<Seq<char>>, now: Seq<char>, reverse: bool)
    requires
        offered.no_duplicates(),
        offered.contains(now),
    ensures
        cycled(offered, now, reverse, offered.len()) == now,
        forall|i: nat, j: nat|
            i < j < offered.len() ==> #[trigger] cycled(offered, now, reverse, i)
                != #[trigger] cycled(offered, now, reverse, j),
        forall|name: Seq<char>| #[trigger]
            offered.contains(name) ==> exists|i: nat|
                i < offered.len() && #[trigger] cycled(offered, now, reverse, i) == name,
{
    let m = offered.len() as int;
    let k = choose|k: int| 0 <= k < m && offered[k] == now;
    lemma_cycled(offered, k, reverse, offered.len());
    assert forall|i: nat, j: nat| i < j < offered.len() implies #[trigger] cycled(
        offered,
        now,
        reverse,
        i,
    ) != #[trigger] cycled(offered, now, reverse, j) by {
        lemma_cycled(offered, k, reverse, i);
        lemma_cycled(offered, k, reverse, j);
        assert(ring(k, i as int, m, reverse) != ring(k, j as int, m, reverse));
    }
    assert forall|name: Seq<char>| #[trigger] offered.contains(name) implies exists|i: nat|
        i < offered.len() && #[trigger] cycled(offered, now, reverse, i) == name by {
        let p = choose|p: int| 0 <= p < m && offered[p] == name;
        let steps = if reverse {
            k - p
        } else {
            p - k
        };
        let i = (if steps >= 0 {
            steps
        } else {
            steps + m
        }) as nat;
        lemma_cycled(offered, k, reverse, i);
        assert(cycled(offered, now, reverse, i) == name);
    }
}

pub proof fn lemma_place(v: Seq<Seq<char>>, k: int, from: int)
    requires
        v.no_duplicates(),
        0 <= from <= k < v.len(),
    ensures
        spine::place(v, v[k], from) == Some(k),
    decreases k - from,
{
    if from < k {
        assert(v[from] != v[k]);
        lemma_place(v, k, from + 1);
    }
}

/// A theme dialog remembers the theme that was shown when it was opened, over
/// every key that leaves it open, and closing it brings that theme back.
pub proof fn law_theme_dialog_restores(
    shown: Theme,
    configured: Theme,
    presets: Seq<Preset>,
    opened: Picker,
    a: App,
    key: KeyEvent,
    b: App,
    r: KeyAction,
)
    requires
        picker::themes_dialog(opened, shown, configured, presets),
        a.picker is Some && a.picker->0.kind == opened.kind,
        keys::dialog_effect(a, key, b, r),
    ensures
        b.picker is Some ==> b.picker->0.kind == opened.kind,
        picker::key_choice(a.picker->0, key) is Close ==> b.picker is None && b.theme == shown,
{
}

} // verus!
