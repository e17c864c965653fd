//! What holds of the activities in the transcript: what their rows say, in which
//! order they stand, and what starts, ends and keys do to them.
use crate::app::App;
use crate::history;
use crate::history::RowView;
use crate::keys;
use crate::keys::KeyAction;
use crate::messages;
use crate::model::{
    ActivityKind, ActivityPhase, ActivityStatus, EventView, KeyCode, KeyEvent, MessageView,
    ThemeView,
};
use crate::spine;
use crate::spine::{Focus, ItemView, NodeView, Spine};
use crate::style;
use crate::style::{SpanView, Style};
use crate::text;
use vstd::prelude::*;

verus! {

// ---------------------------------------------------------------------------
// What a row says
// ---------------------------------------------------------------------------

/// The spans of a row behind its branches: the mark, the title, the status and
/// how much is hidden.
pub open spec fn behind_branches(node: NodeView, depth: nat, hidden: nat, theme: ThemeView) -> Seq<
    SpanView,
> {
    let spans = history::summary_spans(node, depth, hidden, theme);
    if depth > 0 {
        spans.skip(1)
    } else {
        spans
    }
}

/// Rows of activities that ended differently, or not yet, say so differently.
/// Only a success is `ok`.
pub proof fn law_statuses_are_told_apart(
    a: NodeView,
    b: NodeView,
    depth: nat,
    hidden: nat,
    theme: ThemeView,
)
    ensures
        ({
            let x = behind_branches(a, depth, hidden, theme)[2].content;
            let y = behind_branches(b, depth, hidden, theme)[2].content;
            &&& a.status != b.status <==> x != y
            &&& x == " [ok]"@ <==> a.status == Some(ActivityStatus::Success)
            &&& x == " [error]"@ <==> a.status == Some(ActivityStatus::Error)
            &&& x == " [cancelled]"@ <==> a.status == Some(ActivityStatus::Cancelled)
            &&& x == " [denied]"@ <==> a.status == Some(ActivityStatus::Denied)
            &&& x == " [running]"@ <==> a.status is None
        }),
{
    lemma_behind_branches(a, depth, hidden, theme);
    lemma_behind_branches(b, depth, hidden, theme);
    lemma_status_text(a.status);
    lemma_status_text(b.status);
    reveal_strlit(" [ok]");
    reveal_strlit(" [error]");
    reveal_strlit(" [cancelled]");
    reveal_strlit(" [denied]");
    reveal_strlit(" [running]");
    assert(" [ok]"@.len() == 5);
    assert(" [error]"@.len() == 8);
    assert(" [cancelled]"@.len() == 12);
    assert(" [denied]"@.len() == 9);
    assert(" [running]"@.len() == 10);
}

proof fn lemma_status_text(status: Option<ActivityStatus>)
    ensures
        " ["@ + history::status_word(status) + "]"@ == match status {
            None => " [running]"@,
            Some(ActivityStatus::Success) => " [ok]"@,
            Some(ActivityStatus::Error) => " [error]"@,
            Some(ActivityStatus::Cancelled) => " [cancelled]"@,
            Some(ActivityStatus::Denied) => " [denied]"@,
        },
{
    reveal_strlit(" [");
    reveal_strlit("]");
    reveal_strlit("running");
    reveal_strlit("ok");
    reveal_strlit("error");
    reveal_strlit("cancelled");
    reveal_strlit("denied");
    reveal_strlit(" [ok]");
    reveal_strlit(" [error]");
    reveal_strlit(" [cancelled]");
    reveal_strlit(" [denied]");
    reveal_strlit(" [running]");
    assert(" ["@ + "running"@ + "]"@ =~= " [running]"@);
    assert(" ["@ + "ok"@ + "]"@ =~= " [ok]"@);
    assert(" ["@ + "error"@ + "]"@ =~= " [error]"@);
    assert(" ["@ + "cancelled"@ + "]"@ =~= " [cancelled]"@);
    assert(" ["@ + "denied"@ + "]"@ =~= " [denied]"@);
}

proof fn lemma_behind_branches(node: NodeView, depth: nat, hidden: nat, theme: ThemeView)
    ensures
        ({
            let spans = behind_branches(node, depth, hidden, theme);
            &&& spans.len() == if hidden > 0 {
                4int
            } else {
                3
            }
            &&& spans[0].content == if node.expanded {
                "[-] "@
            } else {
                "[+] "@
            }
            &&& spans[1].content == text::clean_title(node.start.title)
            &&& spans[2].content == " ["@ + history::status_word(node.status) + "]"@
            &&& spans[1].style == Style::strong(history::kind_tint(node.start.kind, theme))
            &&& spans[2].style == Style::colored(history::status_tint(node.status, theme))
            &&& hidden > 0 ==> spans[3].content == " (+"@ + text::decimal(hidden) + ")"@
        }),
{
}

/// A success has the color of a success and a failure that of a failure, in
/// every theme that has different colors for them.
pub proof fn law_failures_look_like_failures(
    node: NodeView,
    depth: nat,
    hidden: nat,
    theme: ThemeView,
)
    requires
        style::color_of(theme.success) != style::color_of(theme.error),
        style::color_of(theme.success) != style::color_of(theme.warning),
        style::color_of(theme.success) != style::color_of(theme.muted),
        style::color_of(theme.error) != style::color_of(theme.warning),
        style::color_of(theme.error) != style::color_of(theme.muted),
    ensures
        ({
            let tint = behind_branches(node, depth, hidden, theme)[2].style.fg;
            &&& tint == Some(style::color_of(theme.success)) <==> node.status == Some(
                ActivityStatus::Success,
            )
            &&& tint == Some(style::color_of(theme.error)) <==> node.status == Some(
                ActivityStatus::Error,
            ) || node.status == Some(ActivityStatus::Denied)
            &&& node.status is None ==> tint == Some(style::color_of(theme.muted))
            &&& node.status == Some(ActivityStatus::Cancelled) ==> tint == Some(
                style::color_of(theme.warning),
            )
        }),
{
    lemma_behind_branches(node, depth, hidden, theme);
}

/// A row says whether it is open, what it is about, and how many rows it hides,
/// if any. It stands three cells further in for each activity above it.
pub proof fn law_rows_say_what_they_are(node: NodeView, depth: nat, hidden: nat, theme: ThemeView)
    ensures
        ({
            let spans = behind_branches(node, depth, hidden, theme);
            &&& spans[0].content == "[-] "@ <==> node.expanded
            &&& spans[0].content == "[+] "@ <==> !node.expanded
            &&& spans[1].content == text::clean_title(node.start.title)
            &&& spans.len() == 4 <==> hidden > 0
            &&& hidden > 0 ==> spans[3].content == " (+"@ + text::decimal(hidden) + ")"@
            &&& depth > 0 ==> history::summary_spans(node, depth, hidden, theme)[0].content.len()
                == 3 * depth
        }),
{
    lemma_behind_branches(node, depth, hidden, theme);
    reveal_strlit("[-] ");
    reveal_strlit("[+] ");
    assert("[-] "@[1] != "[+] "@[1]);
    reveal_strlit("|  ");
    reveal_strlit("│  ");
    lemma_repeated("|  "@, depth);
    lemma_repeated("│  "@, depth);
}

proof fn lemma_repeated(unit: Seq<char>, n: nat)
    requires
        unit.len() == 3,
    ensures
        history::repeated(unit, n).len() == 3 * n,
    decreases n,
{
    if n > 0 {
        lemma_repeated(unit, (n - 1) as nat);
    }
}

/// The title has the color of its kind.
pub proof fn law_kinds_have_their_colors(node: NodeView, depth: nat, hidden: nat, theme: ThemeView)
    ensures
        behind_branches(node, depth, hidden, theme)[1].style.fg == Some(
            style::color_of(
                match node.start.kind {
                    ActivityKind::Tool => theme.tool,
                    ActivityKind::Subagent => theme.assistant,
                    ActivityKind::WorkflowStep => theme.accent,
                },
            ),
        ),
{
    lemma_behind_branches(node, depth, hidden, theme);
}

/// The row of an activity is that of its own record. Only the focused one
/// stands on another background, and only while the spine has the keyboard.
pub proof fn law_rows_belong_to_their_record(s: Spine, i: int, width: int, theme: ThemeView)
    requires
        s.wf(),
        0 <= i < s.nodes.len(),
        style::spans_width(
            history::summary_spans(
                s.nodes[i],
                crate::snapshot::held(spine::depth(s.nodes, i), u8::MAX as int) as nat,
                crate::snapshot::held(s.below(s.nodes[i].start.id) as int, u32::MAX as int) as nat,
                theme,
            ),
        ) <= width,
        width >= 1,
    ensures
        ({
            let id = s.nodes[i].start.id;
            let row = history::summary_row(s, id, width, theme);
            &&& row.spans == history::summary_spans(
                s.nodes[i],
                crate::snapshot::held(spine::depth(s.nodes, i), u8::MAX as int) as nat,
                crate::snapshot::held(s.below(id) as int, u32::MAX as int) as nat,
                theme,
            )
            &&& row.style.bg == if s.focus == Focus::Activity && s.focused == Some(id) {
                Some(style::color_of(theme.cta_background))
            } else {
                None
            }
        }),
{
    spine::lemma_pos(s.nodes, i);
}

// ---------------------------------------------------------------------------
// In which order rows stand
// ---------------------------------------------------------------------------

/// The targets that a click can hit, from top to bottom.
pub open spec fn targets(rows: Seq<RowView>) -> Seq<Seq<char>>
    decreases rows.len(),
{
    if rows.len() == 0 {
        Seq::empty()
    } else {
        let before = targets(rows.drop_last());
        match rows.last().target {
            Some(id) => before.push(id),
            None => before,
        }
    }
}

proof fn lemma_targets_add(a: Seq<RowView>, b: Seq<RowView>)
    ensures
        targets(a + b) == targets(a) + targets(b),
    decreases b.len(),
{
    if b.len() > 0 {
        assert((a + b).drop_last() =~= a + b.drop_last());
        lemma_targets_add(a, b.drop_last());
        assert(targets(a + b) =~= targets(a) + targets(b));
    } else {
        assert(a + b =~= a);
        assert(targets(a) + targets(b) =~= targets(a));
    }
}

proof fn lemma_no_targets(rows: Seq<RowView>)
    requires
        forall|k: int| 0 <= k < rows.len() ==> (#[trigger] rows[k]).target is None,
    ensures
        targets(rows).len() == 0,
    decreases rows.len(),
{
    if rows.len() > 0 {
        lemma_no_targets(rows.drop_last());
    }
}

proof fn lemma_slot_targets(s: Spine, item: ItemView, width: int, theme: ThemeView)
    ensures
        targets(history::slot_rows(s, item, width, theme)) == match item {
            ItemView::Activity(id) if spine::shown(s.nodes, id) => seq![id],
            _ => Seq::empty(),
        },
{
    let slot = history::slot_rows(s, item, width, theme);
    match item {
        ItemView::Activity(id) => {
            if spine::shown(s.nodes, id) {
                assert(slot.len() == 1 && slot.last().target == Some(id));
                assert(slot.drop_last() =~= Seq::<RowView>::empty());
                assert(targets(slot.drop_last()) =~= Seq::<Seq<char>>::empty());
                assert(targets(slot) =~= seq![id]);
            } else {
                assert(targets(slot) =~= Seq::<Seq<char>>::empty());
            }
        },
        ItemView::Entry(_) => {
            lemma_no_targets(slot);
            assert(targets(slot) =~= Seq::<Seq<char>>::empty());
        },
    }
}

proof fn lemma_targets_before(s: Spine, width: int, theme: ThemeView, n: int)
    requires
        s.timeline_ok(),
        0 <= n <= s.timeline.len(),
    ensures
        targets(history::rows_before(s, width, theme, n)) == spine::visible_before(
            s.nodes,
            s.timeline,
            n,
        ),
    decreases n,
{
    if n > 0 {
        let item = s.timeline[n - 1];
        lemma_targets_before(s, width, theme, n - 1);
        let before = history::rows_before(s, width, theme, n - 1);
        let slot = history::slot_rows(s, item, width, theme);
        lemma_targets_add(before, slot);
        lemma_slot_targets(s, item, width, theme);
        assert(s.slot_ok(item));
        let v = targets(before);
        assert(v + Seq::<Seq<char>>::empty() =~= v);
        if item is Activity {
            let id = item->Activity_0;
            assert(v + seq![id] =~= v.push(id));
        }
    }
}

/// The rows that can be clicked are those of the visible activities, each once
/// and in the order in which they arrived.
pub proof fn law_rows_follow_the_timeline(s: Spine, width: int, theme: ThemeView)
    requires
        s.wf(),
    ensures
        targets(history::all_rows(s, width, theme)) == s.visible(),
{
    lemma_targets_before(s, width, theme, s.timeline.len() as int);
}

/// What arrived later stands further down: the rows of the first slots stay
/// where they are when others follow.
pub proof fn law_later_rows_stand_below(s: Spine, width: int, theme: ThemeView, m: int, n: int)
    requires
        0 <= m <= n <= s.timeline.len(),
    ensures
        ({
            let early = history::rows_before(s, width, theme, m);
            let late = history::rows_before(s, width, theme, n);
            early.len() <= late.len() && late.take(early.len() as int) == early
        }),
    decreases n - m,
{
    let early = history::rows_before(s, width, theme, m);
    let late = history::rows_before(s, width, theme, n);
    if m < n {
        law_later_rows_stand_below(s, width, theme, m, n - 1);
        let before = history::rows_before(s, width, theme, n - 1);
        assert(late.take(early.len() as int) =~= before.take(early.len() as int));
    } else {
        assert(late.take(early.len() as int) =~= early);
    }
}

// ---------------------------------------------------------------------------
// Starts and ends
// ---------------------------------------------------------------------------

/// An activity that starts gets one record, behind all others: running, closed
/// and as it was announced. No other record is touched.
pub proof fn law_starts_are_recorded(s: Spine, e: EventView)
    requires
        s.wf(),
        !spine::known(s.nodes, e.id),
        !s.pending.contains_key(e.id),
        e.phase == ActivityPhase::Start,
    ensures
        ({
            let r = s.handled(e);
            let n = s.nodes.len() as int;
            &&& r.nodes.len() == n + 1
            &&& r.nodes[n].start == e
            &&& r.nodes[n].status is None
            &&& !r.nodes[n].expanded
            &&& r.nodes.take(n) == s.nodes
            &&& r.timeline == s.timeline.push(ItemView::Activity(e.id))
            &&& r.entries == s.entries
        }),
{
    let r = s.started(e);
    assert(r == s.recorded(e));
    assert(r.nodes.take(s.nodes.len() as int) =~= s.nodes);
}

/// An activity that ends has the status that it ended with, and one that ends
/// without a status has failed. No other record is touched.
pub proof fn law_ends_are_recorded(s: Spine, e: EventView, i: int)
    requires
        s.wf(),
        0 <= i < s.nodes.len(),
        s.nodes[i].start.id == e.id,
        e.phase == ActivityPhase::End,
    ensures
        ({
            let r = s.handled(e);
            &&& r.nodes.len() == s.nodes.len()
            &&& e.status is Some ==> r.nodes[i].status == e.status
            &&& e.status is None ==> r.nodes[i].status == Some(ActivityStatus::Error)
            &&& r.nodes[i].start == s.nodes[i].start
            &&& r.nodes[i].expanded == s.nodes[i].expanded
            &&& forall|j: int| 0 <= j < s.nodes.len() && j != i ==> #[trigger] r.nodes[j] == s.nodes[j]
            &&& r.timeline == s.timeline
            &&& r.entries == s.entries
        }),
{
    spine::lemma_pos(s.nodes, i);
}

/// A message is shown at the end of the transcript under its role, with all of
/// its text. The result of a call is filed under the call.
pub proof fn law_messages_are_shown(s: Spine, context: Seq<char>, m: MessageView)
    requires
        s.wf(),
        m.role != "assistant"@,
        m.incomplete is None,
    ensures
        ({
            let r = s.told(context, m, false);
            let n = s.entries.len() as int;
            &&& r.entries.len() == n + 1
            &&& r.entries.take(n) == s.entries
            &&& r.entries[n].role == m.role
            &&& r.entries[n].context == context
            &&& r.entries[n].text == m.content
            &&& !r.entries[n].streaming
            &&& r.timeline == s.timeline.push(ItemView::Entry(n as usize))
            &&& m.role == "tool"@ && m.call is Some && s.externals.contains_key((context, m.call->0))
                ==> r.entries[n].owner == Some(
                s.nodes[s.externals[(context, m.call->0)] as int].start.id,
            )
            &&& m.role != "tool"@ && context == "main"@ ==> r.entries[n].owner is None
        }),
{
    let r = s.told(context, m, false);
    assert(r.entries.take(s.entries.len() as int) =~= s.entries);
    if m.role == "tool"@ && m.call is Some && s.externals.contains_key((context, m.call->0)) {
        let i = s.externals[(context, m.call->0)] as int;
        assert(i < s.nodes.len());
    }
}

/// An answer that was cut off is shown as far as it came, and says why.
pub proof fn law_cut_answers_say_so(m: MessageView, reason: Seq<char>)
    requires
        m.incomplete == Some(reason),
    ensures
        text::begins(messages::message_text(m), m.content),
        reason.len() > 0 ==> messages::message_text(m) == m.content + "\n\n[incomplete response: "@
            + reason + "]"@,
        reason.len() == 0 ==> messages::message_text(m) == m.content
            + "\n\n[incomplete response: "@ + "stream ended before completion"@ + "]"@,
        messages::message_text(m).len() > m.content.len(),
{
    let whole = messages::message_text(m);
    reveal_strlit("]");
    assert(whole.take(m.content.len() as int) =~= m.content);
}

/// The result of a call ends its activity, unless that has ended already.
pub proof fn law_results_end_their_call(s: Spine, context: Seq<char>, m: MessageView, i: int)
    requires
        s.wf(),
        m.role == "tool"@,
        m.call is Some,
        s.externals.contains_key((context, m.call->0)),
        i == s.externals[(context, m.call->0)],
    ensures
        ({
            let r = s.told(context, m, false);
            &&& s.nodes[i].status is Some ==> r.nodes == s.nodes
            &&& s.nodes[i].status is None ==> r.nodes[i].status == Some(
                crate::json::result_status(m.content),
            )
            &&& forall|j: int| 0 <= j < s.nodes.len() && j != i ==> #[trigger] r.nodes[j] == s.nodes[j]
        }),
{
    reveal_strlit("assistant");
    reveal_strlit("tool");
    assert("assistant"@.len() != "tool"@.len());
    assert(i < s.nodes.len());
}

// ---------------------------------------------------------------------------
// Keys
// ---------------------------------------------------------------------------

proof fn lemma_place_found(v: Seq<Seq<char>>, id: Seq<char>, from: int, k: int)
    requires
        0 <= from <= k < v.len(),
        v[k] == id,
        forall|j: int| from <= j < k ==> #[trigger] v[j] != id,
    ensures
        spine::place(v, id, from) == Some(k),
    decreases k - from,
{
    if from < k {
        lemma_place_found(v, id, from + 1, k);
    }
}

/// In the spine Down goes to the next visible activity and Up to the one
/// before; at the ends they stay.
pub proof fn law_focus_walks_the_rows(a: App, key: KeyEvent, b: App, r: KeyAction, k: int)
    requires
        a.focus == Focus::Activity,
        a.spine().visible().no_duplicates(),
        0 <= k < a.spine().visible().len(),
        a.spine().focused == Some(a.spine().visible()[k]),
        keys::main_effect(a, key, b, r),
    ensures
        ({
            let v = a.spine().visible();
            &&& key.code == KeyCode::Down ==> b.spine().focused == Some(
                v[if k + 1 < v.len() {
                    k + 1
                } else {
                    k
                }],
            )
            &&& key.code == KeyCode::Up ==> b.spine().focused == Some(
                v[if k > 0 {
                    k - 1
                } else {
                    0
                }],
            )
            &&& key.code == KeyCode::Up || key.code == KeyCode::Down ==> b.spine().nodes
                == a.spine().nodes
        }),
{
    let v = a.spine().visible();
    assert forall|j: int| 0 <= j < k implies #[trigger] v[j] != v[k] by {}
    lemma_place_found(v, v[k], 0, k);
}

/// In the spine Right opens the focused activity, Left closes it, and Enter and
/// the space bar do the one or the other. No other activity is touched.
pub proof fn law_focused_rows_open_and_close(a: App, key: KeyEvent, b: App, r: KeyAction, i: int)
    requires
        a.wf(),
        a.focus == Focus::Activity,
        0 <= i < a.spine().nodes.len(),
        a.spine().focused == Some(a.spine().nodes[i].start.id),
        !(a.busy && key.code == KeyCode::Esc),
        keys::main_effect(a, key, b, r),
    ensures
        ({
            let x = a.spine().nodes;
            let y = b.spine().nodes;
            &&& key.code == KeyCode::Right ==> y[i].expanded
            &&& key.code == KeyCode::Left ==> !y[i].expanded
            &&& key.code == KeyCode::Enter || key.code == KeyCode::Char(' ') ==> y[i].expanded
                == !x[i].expanded
            &&& y.len() == x.len()
            &&& forall|j: int| 0 <= j < x.len() && j != i ==> #[trigger] y[j] == x[j]
            &&& y[i].status == x[i].status && y[i].start == x[i].start
        }),
{
    spine::lemma_pos(a.spine().nodes, i);
    assert(b.spine().nodes.len() == a.spine().nodes.len());
}

/// F6 takes the keyboard to the spine and back, if there is an activity to go
/// to; Esc takes it back as well.
pub proof fn law_keyboard_goes_to_the_spine_and_back(a: App, key: KeyEvent, b: App, r: KeyAction)
    requires
        keys::main_effect(a, key, b, r),
    ensures
        key.code == KeyCode::F(6) && a.focus == Focus::Activity ==> b.focus == Focus::Input,
        key.code == KeyCode::F(6) && a.focus == Focus::Input && a.spine().visible().len() > 0
            ==> b.focus == Focus::Activity,
        key.code == KeyCode::F(6) && a.focus == Focus::Input && a.spine().visible().len() == 0
            ==> b.focus == Focus::Input && b.status@ == "No activity to focus"@,
        key.code == KeyCode::F(6) && (a.focus == Focus::Activity || a.spine().visible().len() > 0)
            ==> b.status@ == a.status@,
        key.code == KeyCode::F(6) ==> b.input == a.input && b.scroll == a.scroll && r is Stay,
        key.code == KeyCode::Esc && a.focus == Focus::Activity ==> b.focus == Focus::Input && r is Stay,
{
    assert(b.spine().focus == b.focus);
    assert(a.spine().focus == a.focus);
}

/// Trails go by the starts of the records alone.
proof fn lemma_trail_by_starts(a: Seq<NodeView>, b: Seq<NodeView>, t: Seq<int>)
    requires
        a.len() == b.len(),
        forall|i: int|
            #![trigger a[i]]
            #![trigger b[i]]
            0 <= i < a.len() ==> a[i].start == b[i].start,
        spine::distinct(a),
        forall|k: int| 0 <= k < t.len() ==> 0 <= #[trigger] t[k] < a.len(),
    ensures
        spine::trail_from(a, t) == spine::trail_from(b, t),
    decreases a.len() + 1 - t.len(),
{
    assert(spine::same_ids(a, b));
    spine::lemma_same_ids(a, b);
    if 0 < t.len() <= a.len() {
        assert(a[t.last()].start == b[t.last()].start);
        assert(spine::up(a, t.last()) == spine::up(b, t.last()));
        match spine::up(a, t.last()) {
            Some(p) if !t.contains(p) => {
                let u = t.push(p);
                assert(spine::known(a, a[t.last()].start.parent->0));
                lemma_trail_by_starts(a, b, u);
            },
            _ => {},
        }
    }
}

/// A record that is opened or closed stays as visible as it was: only what is
/// above it counts.
pub proof fn law_own_state_hides_nothing_of_itself(s: Spine, i: int)
    requires
        s.wf(),
        0 <= i < s.nodes.len(),
    ensures
        ({
            let flipped = s.nodes.update(
                i,
                NodeView { expanded: !s.nodes[i].expanded, ..s.nodes[i] },
            );
            spine::unfolded(flipped, i) == spine::unfolded(s.nodes, i)
        }),
{
    let flipped = s.nodes.update(i, NodeView { expanded: !s.nodes[i].expanded, ..s.nodes[i] });
    lemma_flip_keeps(s.nodes, flipped, i);
}

/// Two lists of records that differ in one place at most, and there neither in
/// what started it.
pub proof fn lemma_flip_keeps(a: Seq<NodeView>, b: Seq<NodeView>, i: int)
    requires
        spine::distinct(a),
        0 <= i < a.len(),
        a.len() == b.len(),
        b[i].start == a[i].start,
        forall|j: int|
            #![trigger a[j]]
            #![trigger b[j]]
            0 <= j < a.len() && j != i ==> a[j] == b[j],
    ensures
        spine::unfolded(b, i) == spine::unfolded(a, i),
{
    lemma_trail_by_starts(a, b, seq![i]);
    spine::lemma_trail_of(a, i);
    let t = spine::trail(a, i);
    assert(spine::trail(b, i) == t);
    assert forall|k: int| 1 <= k < t.len() implies #[trigger] t[k] != i by {
        assert(t[0] == i);
    }
    assert forall|k: int| 1 <= k < t.len() implies a[#[trigger] t[k]] == b[t[k]] by {
        assert(t[k] != i);
    }
    if spine::unfolded(a, i) {
        assert forall|k: int| 1 <= k < spine::trail(b, i).len() implies b[#[trigger] spine::trail(b, i)[k]].expanded by {
            assert(a[spine::trail(a, i)[k]].expanded);
        }
    }
    if spine::unfolded(b, i) {
        assert forall|k: int| 1 <= k < spine::trail(a, i).len() implies a[#[trigger] spine::trail(a, i)[k]].expanded by {
            assert(b[spine::trail(b, i)[k]].expanded);
        }
    }
}

// ---------------------------------------------------------------------------
// Owners
// ---------------------------------------------------------------------------

/// What is said in the context of a subagent or of a step is filed under it.
pub proof fn law_contexts_have_owners(s: Spine, e: EventView, m: MessageView)
    requires
        s.wf(),
        !spine::known(s.nodes, e.id),
        !s.pending.contains_key(e.id),
        e.phase == ActivityPhase::Start,
        e.kind != ActivityKind::Tool,
        e.context != "main"@,
        s.nodes.len() < usize::MAX,
        m.role == "user"@,
        m.incomplete is None,
    ensures
        ({
            let r = s.handled(e).told(e.context, m, false);
            r.entries.last().owner == Some(e.id) && r.entries.last().text == m.content
        }),
{
    reveal_strlit("user");
    reveal_strlit("tool");
    reveal_strlit("assistant");
    assert("user"@[0] != "tool"@[0]);
    assert("user"@.len() == 4 && "assistant"@.len() == 9);
    let t = s.started(e);
    assert(t == s.recorded(e));
    let u = s.handled(e);
    assert(u.nodes == t.nodes && u.owners == t.owners && u.externals == t.externals);
    assert(u.owners[e.context] == s.nodes.len());
    assert(u.nodes[s.nodes.len() as int].start == e);
}

/// The result of a tool's call is filed under the activity of the call.
pub proof fn law_calls_own_their_results(s: Spine, e: EventView, m: MessageView)
    requires
        s.wf(),
        !spine::known(s.nodes, e.id),
        !s.pending.contains_key(e.id),
        e.phase == ActivityPhase::Start,
        e.kind == ActivityKind::Tool,
        e.external is Some,
        s.nodes.len() < usize::MAX,
        m.role == "tool"@,
        m.call == e.external,
        m.incomplete is None,
    ensures
        ({
            let r = s.handled(e).told(e.context, m, false);
            &&& r.entries.last().owner == Some(e.id)
            &&& r.entries.last().text == m.content
            &&& r.nodes.last().status == Some(crate::json::result_status(m.content))
        }),
{
    reveal_strlit("tool");
    reveal_strlit("assistant");
    assert("tool"@.len() == 4 && "assistant"@.len() == 9);
    let t = s.started(e);
    assert(t == s.recorded(e));
    let u = s.handled(e);
    let n = s.nodes.len() as int;
    assert(u.nodes == t.nodes && u.externals == t.externals);
    assert(u.externals[(e.context, e.external->0)] == n);
    assert(u.nodes[n].start == e && u.nodes[n].status is None);
}

/// In a session without records every call of a message gets one record, under
/// its own id and with what it is about in its title.
pub proof fn law_calls_are_recorded(
    s: Spine,
    context: Seq<char>,
    parent: Option<Seq<char>>,
    calls: Seq<crate::model::CallView>,
    n: int,
)
    requires
        s.wf(),
        0 < n <= calls.len(),
        s.pending == Map::<Seq<char>, ActivityStatus>::empty(),
    ensures
        ({
            let before = s.calls_started(context, parent, calls, n - 1);
            let r = s.calls_started(context, parent, calls, n);
            let call = calls[n - 1];
            &&& r.pending == Map::<Seq<char>, ActivityStatus>::empty()
            &&& r.nodes.len() == before.nodes.len() + 1
            &&& r.nodes.len() == s.nodes.len() + n
            &&& r.nodes.last().start.kind == ActivityKind::Tool
            &&& r.nodes.last().start.external == Some(call.id)
            &&& r.nodes.last().start.parent == parent
            &&& r.nodes.last().start.context == context
            &&& r.nodes.last().status is None
            &&& text::begins(r.nodes.last().start.title, "tool "@ + call.name + ": "@)
        }),
    decreases n,
{
    let before = s.calls_started(context, parent, calls, n - 1);
    if n > 1 {
        law_calls_are_recorded(s, context, parent, calls, n - 1);
    }
    let e = messages::call_start(before.nodes, context, parent, calls[n - 1]);
    crate::laws::law_made_up_ids_are_free(
        before.nodes,
        "legacy:tool:"@ + context + ":"@ + calls[n - 1].id,
    );
    let t = before.started(e);
    assert(!before.pending.contains_key(e.id));
    assert(t == before.recorded(e));
    let front = "tool "@ + calls[n - 1].name + ": "@;
    assert(e.title.take(front.len() as int) =~= front);
}

// ---------------------------------------------------------------------------
// Nesting
// ---------------------------------------------------------------------------

/// An activity without a parent stands at the left; so does one whose parent was
/// never started.
pub proof fn law_roots_stand_at_the_left(nodes: Seq<NodeView>, i: int)
    requires
        0 <= i < nodes.len(),
        nodes[i].start.parent is None || !spine::known(nodes, nodes[i].start.parent->0),
    ensures
        spine::depth(nodes, i) == 0,
        spine::unfolded(nodes, i),
{
    assert(spine::up(nodes, i) is None);
    let t = seq![i];
    assert(spine::trail_from(nodes, t) == t);
}

/// An activity stands one level below its parent, and is hidden where the
/// parent is closed.
pub proof fn law_children_stand_below_their_parent(nodes: Seq<NodeView>, i: int, p: int)
    requires
        spine::distinct(nodes),
        0 <= i < nodes.len(),
        0 <= p < nodes.len(),
        i != p,
        nodes[i].start.parent == Some(nodes[p].start.id),
        nodes[p].start.parent is None,
    ensures
        spine::depth(nodes, i) == 1,
        spine::unfolded(nodes, i) == nodes[p].expanded,
        spine::above(nodes, p, i),
{
    spine::lemma_pos(nodes, p);
    reveal_with_fuel(spine::trail_from, 3);
    let t = seq![i];
    assert(spine::up(nodes, i) == Some(p));
    assert(t.last() == i);
    assert(!t.contains(p)) by {
        if t.contains(p) {
            let k = choose|k: int| 0 <= k < t.len() && t[k] == p;
        }
    }
    let u = t.push(p);
    assert(u.last() == p && spine::up(nodes, p) is None);
    if nodes.len() < 2 {
        assert(i == p);
    }
    assert(spine::trail_from(nodes, t) == spine::trail_from(nodes, u));
    assert(spine::trail_from(nodes, u) == u);
    let trail = spine::trail(nodes, i);
    assert(trail == u);
    assert(trail[1] == p);
    if nodes[p].expanded {
        assert forall|k: int| 1 <= k < trail.len() implies nodes[#[trigger] trail[k]].expanded by {}
    }
}

/// The focus of a row that was hidden goes to the closed activity that hides it,
/// which is one above it and in view.
pub proof fn law_focus_goes_to_what_hides_it(s: Spine, id: Seq<char>)
    requires
        s.wf(),
        spine::known(s.nodes, id),
        s.nearest(id) is Some,
    ensures
        ({
            let a = s.nearest(id)->0;
            exists|k: int|
                0 <= k < s.nodes.len() && (#[trigger] s.nodes[k]).start.id == a && !s.nodes[k].expanded
                    && spine::unfolded(s.nodes, k) && spine::above(
                    s.nodes,
                    k,
                    spine::pos(s.nodes, id),
                )
        }),
{
    let i = spine::pos(s.nodes, id);
    let t = spine::trail(s.nodes, i);
    spine::lemma_trail_of(s.nodes, i);
    lemma_nearest_from(s, t, 1);
    let k = choose|k: int|
        1 <= k < t.len() && s.nearest_from(t, 1) == Some(s.nodes[#[trigger] t[k]].start.id)
            && !s.nodes[t[k]].expanded && spine::unfolded(s.nodes, t[k]);
    assert(t[k] == spine::trail(s.nodes, i)[k]);
    assert(0 <= t[k] < s.nodes.len());
    assert(s.nodes[t[k]].start.id == s.nearest(id)->0);
    assert(spine::above(s.nodes, t[k], i));
}

proof fn lemma_nearest_from(s: Spine, t: Seq<int>, k: int)
    requires
        0 <= k,
        s.nearest_from(t, k) is Some,
    ensures
        exists|j: int|
            k <= j < t.len() && s.nearest_from(t, k) == Some(s.nodes[#[trigger] t[j]].start.id)
                && !s.nodes[t[j]].expanded && spine::unfolded(s.nodes, t[j]),
    decreases t.len() - k,
{
    if k < t.len() {
        if !s.nodes[t[k]].expanded && spine::unfolded(s.nodes, t[k]) {
            assert(s.nearest_from(t, k) == Some(s.nodes[t[k]].start.id));
        } else {
            lemma_nearest_from(s, t, k + 1);
            let j = choose|j: int|
                k + 1 <= j < t.len() && s.nearest_from(t, k + 1) == Some(
                    s.nodes[#[trigger] t[j]].start.id,
                ) && !s.nodes[t[j]].expanded && spine::unfolded(s.nodes, t[j]);
            assert(s.nearest_from(t, k) == Some(s.nodes[t[j]].start.id));
        }
    }
}

/// The keyboard comes back to the row that it left, if that is in view, and
/// otherwise goes to the newest one.
pub proof fn law_focus_comes_back(s: Spine)
    requires
        s.focus == Focus::Input,
        s.visible().len() > 0,
    ensures
        s.focus_toggled().focus == Focus::Activity,
        s.focused is Some && s.visible().contains(s.focused->0) ==> s.focus_toggled().focused
            == s.focused,
        !(s.focused is Some && s.visible().contains(s.focused->0)) ==> s.focus_toggled().focused
            == Some(s.visible().last()),
        s.focus_toggled().nodes == s.nodes && s.focus_toggled().entries == s.entries,
{
}

/// The first piece of an answer brings the end of the transcript into view, and
/// the pieces that follow leave the view where the user has it.
pub proof fn law_answers_come_into_view(s: Spine, context: Seq<char>, text: Seq<char>)
    ensures
        !s.streams.contains_key(context) ==> s.streamed(context, text).scroll == 0,
        s.streams.contains_key(context) ==> s.streamed(context, text).scroll == s.scroll,
        s.streamed(context, text).streams.contains_key(context),
        s.streamed(context, text).nodes == s.nodes,
{
}

/// A tool result whose call was never seen belongs to nothing, also in a
/// context that has an owner.
pub proof fn law_stray_results_have_no_owner(s: Spine, context: Seq<char>, m: MessageView)
    requires
        m.role == "tool"@,
        m.call is None || !s.externals.contains_key((context, m.call->0)),
        m.incomplete is None,
    ensures
        ({
            let r = s.told(context, m, false);
            &&& r.entries.len() == s.entries.len() + 1
            &&& r.entries.last().owner is None
            &&& r.entries.last().text == m.content
            &&& r.nodes == s.nodes
        }),
{
    reveal_strlit("tool");
    reveal_strlit("assistant");
    assert("tool"@.len() == 4 && "assistant"@.len() == 9);
}

/// Where no visible row has the focus, Down takes it to the newest one and Up
/// to the oldest one.
pub proof fn law_focus_enters_at_an_end(s: Spine)
    requires
        s.visible().len() > 0,
        s.focused is None || !s.visible().contains(s.focused->0),
    ensures
        s.focus_moved(true).focused == Some(s.visible().last()),
        s.focus_moved(false).focused == Some(s.visible()[0]),
{
    if s.focused is Some {
        lemma_no_place(s.visible(), s.focused->0, 0);
    }
}

proof fn lemma_no_place(v: Seq<Seq<char>>, id: Seq<char>, k: int)
    requires
        !v.contains(id),
        0 <= k,
    ensures
        spine::place(v, id, k) is None,
    decreases v.len() - k,
{
    if k < v.len() {
        assert(v[k] != id);
        lemma_no_place(v, id, k + 1);
    }
}

/// An entry is hidden while its owner is closed or was never seen, and an entry
/// without an owner is always shown.
pub proof fn law_entries_are_shown_with_their_owner(s: Spine, entry: int, i: int)
    requires
        spine::distinct(s.nodes),
        0 <= entry < s.entries.len(),
        0 <= i < s.nodes.len(),
    ensures
        s.entries[entry].owner is None ==> s.entry_shown(entry),
        s.entries[entry].owner == Some(s.nodes[i].start.id) && !s.nodes[i].expanded
            ==> !s.entry_shown(entry),
        s.entries[entry].owner == Some(s.nodes[i].start.id) && s.nodes[i].expanded
            && s.nodes[i].start.parent is None ==> s.entry_shown(entry),
        s.entries[entry].owner is Some && !spine::known(s.nodes, s.entries[entry].owner->0)
            ==> !s.entry_shown(entry),
{
    spine::lemma_pos(s.nodes, i);
    if s.nodes[i].start.parent is None {
        law_roots_stand_at_the_left(s.nodes, i);
    }
}

} // verus!
