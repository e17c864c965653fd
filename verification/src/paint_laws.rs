//! What holds of the cells on the screen: artwork and rules are painted where
//! they belong, rows below an activity are counted, and failures are written
//! into the transcript.
use crate::app::App;
use crate::artwork;
use crate::artwork::Cell;
use crate::choices;
use crate::choices::{ModeAction, ModeInfo};
use crate::commands;
use crate::commands::CommandAction;
use crate::entries;
use crate::messages;
use crate::model::ActivityKind;
use crate::panes;
use crate::renderer::Rect;
use crate::runs;
use crate::runs::ModelInfo;
use crate::scene;
use crate::spine;
use crate::spine::{ItemView, NodeView, Spine};
use crate::spine_laws;
use crate::style::{Color, LineView, Style};
use crate::text;
use crate::width;
use vstd::prelude::*;

verus! {

// ---------------------------------------------------------------------------
// Artwork and rules
// ---------------------------------------------------------------------------

/// Characters of one cell each are painted one beside the other, from the left
/// of the area on, each in its style.
pub proof fn law_artwork_is_painted_in_order(glyphs: Seq<(char, Style)>, area: Rect, y: u16, k: int)
    requires
        area.x + area.width <= u16::MAX,
        glyphs.len() <= area.width,
        forall|i: int|
            0 <= i < glyphs.len() ==> !text::white((#[trigger] glyphs[i]).0) && width::cells(
                glyphs[i].0,
            ) == 1,
        0 <= k < glyphs.len(),
    ensures
        artwork::stroke(glyphs, area, y).cells.len() == glyphs.len(),
        artwork::stroke(glyphs, area, y).cells[k].x == area.x + k,
        artwork::stroke(glyphs, area, y).cells[k].y == y,
        artwork::stroke(glyphs, area, y).cells[k].symbol == glyphs[k].0,
        artwork::stroke(glyphs, area, y).cells[k].style == glyphs[k].1,
        artwork::stroke(glyphs, area, y).start == Some(area.x),
        artwork::stroke(glyphs, area, y).end == area.x + glyphs.len(),
{
    lemma_stroke(glyphs, area, y);
}

proof fn lemma_stroke(glyphs: Seq<(char, Style)>, area: Rect, y: u16)
    requires
        area.x + area.width <= u16::MAX,
        glyphs.len() <= area.width,
        forall|i: int|
            0 <= i < glyphs.len() ==> !text::white((#[trigger] glyphs[i]).0) && width::cells(
                glyphs[i].0,
            ) == 1,
    ensures
        ({
            let r = artwork::stroke(glyphs, area, y);
            &&& r.column == glyphs.len()
            &&& r.cells.len() == glyphs.len()
            &&& forall|k: int|
                0 <= k < glyphs.len() ==> {
                    &&& (#[trigger] r.cells[k]).x == area.x + k
                    &&& r.cells[k].y == y
                    &&& r.cells[k].symbol == glyphs[k].0
                    &&& r.cells[k].style == glyphs[k].1
                }
            &&& glyphs.len() > 0 ==> r.start == Some(area.x) && r.end == area.x + glyphs.len()
            &&& glyphs.len() == 0 ==> r.start is None && r.end == 0
        }),
    decreases glyphs.len(),
{
    if glyphs.len() > 0 {
        let front = glyphs.drop_last();
        assert forall|i: int| 0 <= i < front.len() implies !text::white((#[trigger] front[i]).0)
            && width::cells(front[i].0) == 1 by {
            assert(front[i] == glyphs[i]);
        }
        lemma_stroke(front, area, y);
        let last = glyphs[glyphs.len() - 1];
        assert(!text::white(last.0) && width::cells(last.0) == 1);
        let before = artwork::stroke(front, area, y);
        let r = artwork::stroke(glyphs, area, y);
        assert(before.column == front.len());
        assert(before.column < area.width);
        lemma_stroke_push(front, last.0, last.1, area, y);
        let all = front.push((last.0, last.1));
        assert(all =~= glyphs);
        assert forall|k: int| 0 <= k < glyphs.len() implies {
            &&& (#[trigger] r.cells[k]).x == area.x + k
            &&& r.cells[k].y == y
            &&& r.cells[k].symbol == glyphs[k].0
            &&& r.cells[k].style == glyphs[k].1
        } by {
            if k < front.len() {
                assert(r.cells[k] == before.cells[k]);
                assert(front[k] == glyphs[k]);
            }
        }
    }
}

proof fn lemma_stroke_push(glyphs: Seq<(char, Style)>, c: char, style: Style, area: Rect, y: u16)
    requires
        area.x + area.width <= u16::MAX,
        !text::white(c),
        width::cells(c) == 1,
        artwork::stroke(glyphs, area, y).column < area.width,
    ensures
        ({
            let before = artwork::stroke(glyphs, area, y);
            let r = artwork::stroke(glyphs.push((c, style)), area, y);
            let x = (area.x + before.column) as u16;
            &&& r.column == before.column + 1
            &&& r.cells.len() == before.cells.len() + 1
            &&& r.cells.last() == (Cell { x, y, symbol: c, style })
            &&& forall|k: int|
                0 <= k < before.cells.len() ==> #[trigger] r.cells[k] == before.cells[k]
            &&& before.start is None || before.start->0 >= x ==> r.start == Some(x)
            &&& before.start is Some && before.start->0 < x ==> r.start == before.start
            &&& before.end <= x ==> r.end == x + 1
        }),
{
    let all = glyphs.push((c, style));
    assert(all.drop_last() =~= glyphs);
    assert(all.last() == (c, style));
}

/// White space of the artwork paints nothing, but takes its cells.
pub proof fn law_artwork_has_holes(glyphs: Seq<(char, Style)>, area: Rect, y: u16, c: char, style: Style)
    requires
        text::white(c),
    ensures
        ({
            let before = artwork::stroke(glyphs, area, y);
            let r = artwork::stroke(glyphs.push((c, style)), area, y);
            &&& r.cells == before.cells && r.start == before.start && r.end == before.end
            &&& before.column + width::cells(c) <= u16::MAX ==> r.column == before.column
                + width::cells(c)
        }),
{
    assert(glyphs.push((c, style)).drop_last() =~= glyphs);
}

/// Artwork that is no larger than its area stands whole at its upper right.
pub proof fn law_artwork_stands_at_the_right(rows: Seq<LineView>, area: Rect, screen: Rect)
    requires
        0 < artwork::widest(rows) <= area.width <= screen.width,
        0 < rows.len() <= area.height,
        area.y + area.height <= screen.height,
        area.x + area.width <= u16::MAX,
    ensures
        ({
            let r = artwork::artwork_area(rows, area, screen);
            &&& r.width == artwork::widest(rows)
            &&& r.height == rows.len()
            &&& r.x + r.width == area.x + area.width
            &&& r.y == area.y
        }),
{
}

/// The divider has no gap: it paints every column from the left of its band to
/// its end, all in one row, with a corner at its left.
pub proof fn law_divider_is_unbroken(
    band: Rect,
    reservation: Option<Rect>,
    ascii: bool,
    tint: Color,
    column: int,
)
    requires
        band.width >= 2,
        band.height > 0,
        band.x + band.width <= u16::MAX,
        reservation is Some ==> reservation->0.x > band.x,
        band.x <= column < band.x + band.width,
        reservation is Some ==> column < reservation->0.x,
    ensures
        ({
            let cells = scene::divider_cells(band, reservation, ascii, tint);
            &&& 0 <= column - band.x < cells.len()
            &&& cells[column - band.x].x == column
            &&& cells[column - band.x].y == band.y
            &&& cells[column - band.x].style == Style::colored(tint)
            &&& cells[0].symbol == if ascii {
                '+'
            } else {
                '╭'
            }
            &&& column > band.x ==> cells[column - band.x].symbol == if ascii {
                '-'
            } else {
                '─'
            }
            &&& reservation is None ==> cells.last().x == band.x + band.width - 1
                && cells.last().symbol == if ascii {
                '+'
            } else {
                '╮'
            }
        }),
{
}

/// An overlay lies inside of what it covers, and covers most of it.
pub proof fn law_overlays_lie_inside(area: Rect)
    requires
        area.x + area.width <= u16::MAX,
        area.y + area.height <= u16::MAX,
    ensures
        ({
            let r = panes::overlay_area(area);
            &&& area.x <= r.x && r.x + r.width <= area.x + area.width
            &&& area.y <= r.y && r.y + r.height <= area.y + area.height
            &&& 2 * r.width >= area.width || area.width < 2
            &&& 2 * r.height >= area.height || area.height < 2
        }),
{
}

/// The path of the workspace takes at most half of its row, and no more than
/// it needs.
pub proof fn law_paths_leave_room(app: App, row: Rect)
    ensures
        2 * panes::path_cells(app, row) <= row.width,
        panes::path_cells(app, row) <= width::text_width(app.workspace@),
        2 * width::text_width(app.workspace@) <= row.width ==> panes::path_cells(app, row)
            == width::text_width(app.workspace@),
{
}

/// The text of an entry has all of the width but the two cells of its gutter.
pub proof fn law_entries_use_the_width(width: int)
    requires
        width >= 3,
    ensures
        entries::text_cells(width) == width - 2,
{
}

/// A size is given in kibibytes that hold it, and no more of them than needed.
pub proof fn law_sizes_are_rounded_up(bytes: nat)
    ensures
        entries::kib(bytes) * 1024 >= bytes,
        bytes > 0 ==> (entries::kib(bytes) - 1) * 1024 < bytes,
{
}

// ---------------------------------------------------------------------------
// Rows below an activity
// ---------------------------------------------------------------------------

/// The rows below an activity are those of its children, not its own row, not
/// one that belongs to nothing and not one of another root.
pub proof fn law_hidden_rows_are_counted(s: Spine, p: int, n: int, i: int)
    requires
        spine::distinct(s.nodes),
        0 <= p < s.nodes.len(),
        s.nodes[p].start.parent is None,
        0 < n <= s.timeline.len(),
        0 <= i < s.nodes.len(),
    ensures
        ({
            let id = s.nodes[p].start.id;
            let owner = spine::slot_owner(s.entries, s.timeline[n - 1]);
            let more = spine::below_before(s, id, n) - spine::below_before(s, id, n - 1);
            &&& owner == Some(s.nodes[i].start.id) && i != p && s.nodes[i].start.parent == Some(id)
                ==> more == 1
            &&& owner == Some(s.nodes[i].start.id) && s.nodes[i].start.parent is None ==> more == 0
            &&& owner is None ==> more == 0
        }),
{
    let id = s.nodes[p].start.id;
    spine::lemma_pos(s.nodes, p);
    spine::lemma_pos(s.nodes, i);
    if i != p && s.nodes[i].start.parent == Some(id) {
        spine_laws::law_children_stand_below_their_parent(s.nodes, i, p);
        assert(s.nodes[i].start.id != id);
    }
    if s.nodes[i].start.parent is None {
        spine_laws::law_roots_stand_at_the_left(s.nodes, i);
        assert(!spine::above(s.nodes, p, i));
    }
}

/// A slot of an entry belongs to the owner of the entry, a slot of an activity
/// to the activity.
pub proof fn law_slots_have_owners(s: Spine, id: Seq<char>, k: usize)
    requires
        k < s.entries.len(),
    ensures
        spine::slot_owner(s.entries, ItemView::Activity(id)) == Some(id),
        spine::slot_owner(s.entries, ItemView::Entry(k)) == s.entries[k as int].owner,
{
}

/// A context of a session without records is a subagent where its name says
/// so, and a step of a workflow otherwise. It stands by itself, under an id
/// that no other record has.
pub proof fn law_old_contexts_get_a_record(nodes: Seq<NodeView>, rest: Seq<char>, other: Seq<char>)
    requires
        other.len() < "subagent:"@.len() || other.take("subagent:"@.len() as int) != "subagent:"@,
    ensures
        messages::context_start(nodes, "subagent:"@ + rest).kind == ActivityKind::Subagent,
        messages::context_start(nodes, other).kind == ActivityKind::WorkflowStep,
        messages::context_start(nodes, other).parent is None,
        messages::context_start(nodes, other).context == other,
        messages::context_start(nodes, other).title == other,
        !spine::known(nodes, "legacy:context:"@ + other) ==> messages::context_start(
            nodes,
            other,
        ).id == "legacy:context:"@ + other,
{
    let whole = "subagent:"@ + rest;
    assert(whole.take("subagent:"@.len() as int) =~= "subagent:"@);
}

// ---------------------------------------------------------------------------
// What is written into the transcript
// ---------------------------------------------------------------------------

/// Why an input could not be started is the last entry of the transcript, as
/// an error.
pub proof fn law_failed_starts_are_shown(a: App, input: String, error: Seq<char>, b: App)
    requires
        runs::put_back(a, input, error, b),
    ensures
        b.spine().entries.len() == a.spine().entries.len() + 1,
        b.spine().entries.last().role == "error"@,
        b.spine().entries.last().text == error,
        b.queued_inputs@.len() == a.queued_inputs@.len() + 1,
        b.queued_inputs@[0] == input,
        forall|k: int|
            0 <= k < a.queued_inputs@.len() ==> (#[trigger] a.queued_inputs@[k])
                == b.queued_inputs@[k + 1],
{
}

/// A model that could not be resolved leaves the labels as they are, and the
/// reason in the transcript.
pub proof fn law_lost_models_are_shown(a: App, info: Result<ModelInfo, String>, b: App)
    requires
        choices::refreshed(a, info, b),
    ensures
        info is Ok ==> b.entries == a.entries && b.model_label@ == info->Ok_0.provider@ + ":"@
            + info->Ok_0.model@,
        info is Err ==> {
            &&& b.spine().entries.len() == a.spine().entries.len() + 1
            &&& b.spine().entries.last().role == "error"@
            &&& b.spine().entries.last().text == info->Err_0@
            &&& b.model_label == a.model_label && b.effort_label == a.effort_label
        },
        b.selection == a.selection && b.busy == a.busy,
{
}

/// `/cost` writes into the transcript what was spent, and how many requests
/// have no price.
pub proof fn law_spending_is_shown(a: App, text: Seq<char>, b: App, r: Result<CommandAction, String>)
    requires
        commands::command_effect(a, text, b, r),
        commands::head_of(text) == "/cost"@,
    ensures
        r is Ok,
        b.spine().entries.len() == a.spine().entries.len() + 1,
        b.spine().entries.last().role == "status"@,
        b.spine().entries.last().text == "Spend: "@ + a.spend.label@ + " ("@ + text::decimal(
            a.spend.unpriced_requests as nat,
        ) + " unpriced requests)"@,
        b.busy == a.busy && b.quit == a.quit && b.spend == a.spend,
{
    reveal_strlit("/cost");
    reveal_strlit("/quit");
    reveal_strlit(":q");
    reveal_strlit("/help");
    reveal_strlit("/mouse");
    assert("/cost"@[1] == 'c' && "/quit"@[1] == 'q' && "/help"@[1] == 'h' && "/mouse"@[1] == 'm');
    assert(":q"@.len() == 2 && "/cost"@.len() == 5);
}

/// A mode that is asked for by its name comes with its own agent and workflow,
/// and with no model or effort of the user's. A name that neither an agent nor
/// a mode has is refused, and nothing changes.
pub proof fn law_modes_are_asked_for_by_name(
    a: App,
    rest: Seq<char>,
    names: Seq<Seq<char>>,
    default: Option<Seq<char>>,
    modes: Seq<ModeInfo>,
    b: App,
    r: Result<ModeAction, String>,
    k: int,
)
    requires
        choices::mode_effect(a, rest, names, default, modes, b, r),
        rest.len() > 0,
        rest != "default"@,
        !names.contains(rest),
    ensures
        b == a,
        0 <= k < modes.len() && modes[k].name@ == rest && (forall|j: int|
            0 <= j < k ==> (#[trigger] modes[j]).name@ != rest) ==> {
            &&& r matches Ok(ModeAction::Mode { selection, workflow, name })
            &&& selection.agent == modes[k].agent
            &&& selection.agent_mode == modes[k].agent_mode
            &&& selection.model is None && selection.effort is None
            &&& workflow == modes[k].workflow
            &&& name@ == rest
        },
        (forall|j: int| 0 <= j < modes.len() ==> (#[trigger] modes[j]).name@ != rest) ==> r is Err
            && r->Err_0@ == "Unknown mode"@,
{
    if 0 <= k < modes.len() && modes[k].name@ == rest && (forall|j: int|
        0 <= j < k ==> (#[trigger] modes[j]).name@ != rest) {
        lemma_mode_named(modes, rest, 0, k);
    }
    if forall|j: int| 0 <= j < modes.len() ==> (#[trigger] modes[j]).name@ != rest {
        lemma_no_mode(modes, rest, 0);
    }
}

proof fn lemma_mode_named(modes: Seq<ModeInfo>, name: Seq<char>, from: int, k: int)
    requires
        0 <= from <= k < modes.len(),
        modes[k].name@ == name,
        forall|j: int| 0 <= j < k ==> (#[trigger] modes[j]).name@ != name,
    ensures
        choices::mode_named(modes, name, from) == Some(modes[k]),
    decreases k - from,
{
    if from < k {
        lemma_mode_named(modes, name, from + 1, k);
    }
}

proof fn lemma_no_mode(modes: Seq<ModeInfo>, name: Seq<char>, from: int)
    requires
        0 <= from <= modes.len(),
        forall|j: int| 0 <= j < modes.len() ==> (#[trigger] modes[j]).name@ != name,
    ensures
        choices::mode_named(modes, name, from) is None,
    decreases modes.len() - from,
{
    if from < modes.len() {
        lemma_no_mode(modes, name, from + 1);
    }
}

} // verus!
