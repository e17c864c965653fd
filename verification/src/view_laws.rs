//! What holds of the view: of the cache behind it, of the rows in it, and of
//! what is painted around it.
use crate::app;
use crate::app::App;
use crate::artwork;
use crate::draw;
use crate::draw::{Plan, Regions};
use crate::entries;
use crate::history;
use crate::history::RowView;
use crate::layout;
use crate::layout::Part;
use crate::messages;
use crate::model::{CallView, EventView, MessageView, ThemeView};
use crate::panes;
use crate::picker::Picker;
use crate::renderer;
use crate::renderer::{Rect, Renderer};
use crate::scene;
use crate::scene::PaintView;
use crate::spine;
use crate::spine::{EntryView, ItemView, Spine};
use crate::style;
use crate::style::{Color, LineView, Style};
use crate::text_laws;
use crate::width;
use crate::wrap;
use vstd::prelude::*;

verus! {

// ---------------------------------------------------------------------------
// Cache
// ---------------------------------------------------------------------------

/// An entry that differs has another revision. The largest revision cannot
/// grow any more, and tells nothing.
pub open spec fn marked(a: Seq<EntryView>, b: Seq<EntryView>) -> bool {
    &&& a.len() <= b.len()
    &&& forall|i: int|
        0 <= i < a.len() && (#[trigger] a[i]).revision < u64::MAX && b[i].revision == a[i].revision
            ==> b[i] == a[i]
}

proof fn lemma_handled_entries(s: Spine, e: EventView)
    ensures
        s.handled(e).entries == s.entries,
        s.handled(e).streams == s.streams,
{
}

proof fn lemma_calls_entries(
    s: Spine,
    context: Seq<char>,
    parent: Option<Seq<char>>,
    calls: Seq<CallView>,
    n: int,
)
    ensures
        s.calls_started(context, parent, calls, n).entries == s.entries,
    decreases n,
{
    if n > 0 {
        lemma_calls_entries(s, context, parent, calls, n - 1);
        let t = s.calls_started(context, parent, calls, n - 1);
        lemma_handled_entries(t, messages::call_start(t.nodes, context, parent, calls[n - 1]));
    }
}

/// A message marks every entry that it changes.
pub proof fn law_messages_mark_changes(s: Spine, context: Seq<char>, m: MessageView, legacy: bool)
    requires
        s.wf(),
    ensures
        marked(s.entries, s.told(context, m, legacy).entries),
{
    let s1 = if legacy && context != "main"@ {
        s.context_owned(context)
    } else {
        s
    };
    lemma_handled_entries(s, messages::context_start(s.nodes, context));
    assert(s1.entries == s.entries && s1.streams == s.streams);
    let s2 = s1.result_read(context, m.role, m.call, m.content);
    assert(s2.entries == s.entries && s2.streams == s.streams);
    if m.role == "assistant"@ && s2.streams.contains_key(context) {
        assert(s.streams[context] < s.entries.len());
    } else if m.incomplete is None && m.role == "assistant"@ && legacy {
        let owner = s1.message_owner(context, m.role, m.call);
        let s4 = (Spine { scroll: 0, ..s2 }).pushed(
            m.role,
            context,
            messages::message_text(m),
            owner,
        );
        let parent = if s4.owners.contains_key(context) {
            Some(s4.nodes[s4.owners[context] as int].start.id)
        } else {
            None
        };
        lemma_calls_entries(s4, context, parent, m.calls, m.calls.len() as int);
    }
}

/// A delta marks the entry that it changes.
pub proof fn law_deltas_mark_changes(s: Spine, context: Seq<char>, delta: Seq<char>)
    requires
        s.wf(),
        s.entries.len() < usize::MAX,
    ensures
        marked(s.entries, s.streamed(context, delta).entries),
{
    if s.streams.contains_key(context) {
        assert(s.streams[context] < s.entries.len());
    }
}

/// Closing the streams marks every entry that it changes.
pub proof fn law_closing_marks_changes(s: Spine)
    ensures
        marked(s.entries, s.streams_closed().entries),
{
}

/// An activity event leaves all entries as they are: no row of the cache is
/// rendered again for it.
pub proof fn law_activities_leave_entries(s: Spine, e: EventView)
    ensures
        s.handled(e).entries == s.entries,
{
    lemma_handled_entries(s, e);
}

/// A cache that has the rows of all entries is right for every later state in
/// which changed entries are marked: what it has at an entry's revision are
/// that entry's rows.
pub proof fn law_cache_stays_true(r: Renderer, a: App, b: App, width: usize)
    requires
        renderer::caches(
            r.cache@,
            app::entries_view(a.entries@),
            width as int,
            a.theme@,
        ),
        r.kept(a, width),
        marked(app::entries_view(a.entries@), app::entries_view(b.entries@)),
        forall|i: int| 0 <= i < a.entries@.len() ==> (#[trigger] a.entries@[i]).revision < u64::MAX,
    ensures
        r.truthful(b, r.width),
{
    let ea = app::entries_view(a.entries@);
    let eb = app::entries_view(b.entries@);
    assert forall|i: int|
        0 <= i < b.entries@.len() && r.has_rows(b, r.width, i) implies style::lines_view(
        (#[trigger] r.cache@[i]).lines@,
    ) == entries::rows_of(b.entries@[i]@, r.width as int, b.theme@) by {
        assert(ea[i] == a.entries@[i]@);
        assert(eb[i] == b.entries@[i]@);
        assert(ea[i].revision < u64::MAX);
        assert(eb[i] == ea[i]);
    }
}

/// A second draw of the same state renders no entry again.
pub proof fn law_redraw_renders_nothing(r: Renderer, a: App, width: usize, n: int)
    requires
        renderer::caches(
            r.cache@,
            app::entries_view(a.entries@),
            width as int,
            a.theme@,
        ),
        r.kept(a, width),
        0 <= n <= a.entries@.len(),
    ensures
        r.stale(a, width, n) == 0,
    decreases n,
{
    if n > 0 {
        law_redraw_renders_nothing(r, a, width, n - 1);
        assert(r.cache@[n - 1].revision == app::entries_view(a.entries@)[n - 1].revision);
        assert(app::entries_view(a.entries@)[n - 1] == a.entries@[n - 1]@);
    }
}

// ---------------------------------------------------------------------------
// Rows in view
// ---------------------------------------------------------------------------

/// Only the summary of a visible activity is a target, and it is that
/// activity's.
pub proof fn law_targets_are_summaries(s: Spine, width: int, theme: ThemeView, n: int, k: int)
    requires
        0 <= n <= s.timeline.len(),
        0 <= k < history::rows_before(s, width, theme, n).len(),
    ensures
        ({
            let row = history::rows_before(s, width, theme, n)[k];
            row.target is Some ==> {
                &&& spine::shown(s.nodes, row.target->0)
                &&& row.line == history::summary_row(s, row.target->0, width, theme)
                &&& s.timeline.contains(ItemView::Activity(row.target->0))
            }
        }),
    decreases n,
{
    if n > 0 {
        let before = history::rows_before(s, width, theme, n - 1);
        if k < before.len() {
            law_targets_are_summaries(s, width, theme, n - 1, k);
        } else {
            assert(s.timeline[n - 1] == s.timeline[n - 1]);
            let slot = history::slot_rows(s, s.timeline[n - 1], width, theme);
            assert(history::rows_before(s, width, theme, n)[k] == slot[k - before.len()]);
        }
    }
}

/// The view shows as many rows as fit, and no more than there are.
pub proof fn law_view_is_full(rows: Seq<RowView>, height: int, scroll: int)
    requires
        height >= 0,
        scroll >= 0,
    ensures
        history::window(rows, height, scroll).len() == if rows.len() < height {
            rows.len() as int
        } else {
            height
        },
{
}

/// Without scrolling the view ends with the last row.
pub proof fn law_view_starts_at_the_end(rows: Seq<RowView>, height: int)
    requires
        0 < height,
        rows.len() > 0,
    ensures
        history::window(rows, height, 0).last() == rows.last(),
{
}

/// Scrolled all the way, the view starts with the first row, and scrolling
/// further changes nothing.
pub proof fn law_view_stops_at_the_beginning(rows: Seq<RowView>, height: int, scroll: int)
    requires
        0 < height,
        rows.len() > 0,
        scroll >= rows.len(),
    ensures
        history::window(rows, height, scroll)[0] == rows[0],
        history::window(rows, height, scroll) == history::window(
            rows,
            height,
            rows.len() as int,
        ),
{
}

// ---------------------------------------------------------------------------
// Around the view
// ---------------------------------------------------------------------------

/// The artwork paints inside of its area only.
pub proof fn law_artwork_stays_inside(rows: Seq<LineView>, area: Rect, n: int, k: int)
    requires
        area.x + area.width <= u16::MAX,
        area.y + area.height <= u16::MAX,
        0 <= n <= rows.len(),
        n <= area.height,
        0 <= k < artwork::painted_cells(rows, area, n).len(),
    ensures
        artwork::inside(
            area,
            artwork::painted_cells(rows, area, n)[k].x,
            artwork::painted_cells(rows, area, n)[k].y,
        ),
    decreases n,
{
    let before = artwork::painted_cells(rows, area, n - 1);
    let y = artwork::cells16(area.y + n - 1);
    let glyphs = artwork::inked(rows[n - 1].spans, rows[n - 1].style);
    if k < before.len() {
        law_artwork_stays_inside(rows, area, n - 1, k);
    } else {
        lemma_stroke_inside(glyphs, area, y, k - before.len());
        assert(artwork::painted_cells(rows, area, n)[k] == artwork::stroke(
            glyphs,
            area,
            y,
        ).cells[k - before.len()]);
    }
}

proof fn lemma_stroke_inside(glyphs: Seq<(char, Style)>, area: Rect, y: u16, k: int)
    requires
        area.x + area.width <= u16::MAX,
        0 <= k < artwork::stroke(glyphs, area, y).cells.len(),
    ensures
        artwork::stroke(glyphs, area, y).cells[k].y == y,
        area.x <= artwork::stroke(glyphs, area, y).cells[k].x < area.x + area.width,
    decreases glyphs.len(),
{
    if glyphs.len() > 0 {
        let front = glyphs.drop_last();
        let before = artwork::stroke(front, area, y);
        lemma_stroke_grows(front, glyphs.last().0, glyphs.last().1, area, y, k);
        assert(front.push((glyphs.last().0, glyphs.last().1)) =~= glyphs);
        if k < before.cells.len() {
            lemma_stroke_inside(front, area, y, k);
        }
    }
}

/// One character more paints at most one cell more, at its column.
proof fn lemma_stroke_grows(
    front: Seq<(char, Style)>,
    c: char,
    style: Style,
    area: Rect,
    y: u16,
    k: int,
)
    ensures
        ({
            let before = artwork::stroke(front, area, y);
            let after = artwork::stroke(front.push((c, style)), area, y);
            let n = before.cells.len();
            &&& 0 <= k < n ==> after.cells[k] == before.cells[k]
            &&& n <= k < after.cells.len() ==> {
                &&& before.column < area.width
                &&& after.cells[k].x == artwork::cells16(area.x + before.column)
                &&& after.cells[k].y == y
            }
        }),
{
    let all = front.push((c, style));
    assert(all.drop_last() =~= front);
    assert(all.last() == (c, style));
}

/// The divider never reaches the columns of the artwork.
pub proof fn law_divider_stops_at_the_artwork(
    band: Rect,
    reserved: Rect,
    ascii: bool,
    tint: Color,
    k: int,
)
    requires
        band.x + band.width <= u16::MAX,
        0 <= k < scene::divider_cells(band, Some(reserved), ascii, tint).len(),
    ensures
        scene::divider_cells(band, Some(reserved), ascii, tint)[k].x < reserved.x,
        scene::divider_cells(band, Some(reserved), ascii, tint)[k].y == band.y,
{
}

/// The composer never takes the rows of the header, the divider, one row of
/// the transcript and the footer.
pub proof fn law_composer_leaves_room(text_rows: int, content: Rect)
    requires
        text_rows >= 0,
    ensures
        draw::composer_height(text_rows, content) <= 12,
        content.height >= draw::INPUT_RESERVED_ROWS ==> draw::composer_height(text_rows, content)
            + draw::INPUT_RESERVED_ROWS <= content.height,
        content.height < draw::INPUT_RESERVED_ROWS ==> draw::composer_height(text_rows, content)
            == 0,
{
}

/// On a screen with at least five rows inside of its margin the bands stack up
/// without gaps: two rows of header at the top, the transcript with at least
/// the row of its divider, the composer, and two rows of footer at the bottom.
/// From six rows on the transcript has a row below its divider.
pub proof fn law_bands_stack_up(p: Plan, g: Regions, app: App, r: Renderer, screen: Rect)
    requires
        draw::is_plan(p, r, app, screen),
        draw::arranged(app, p, g),
        p.content.height >= 5,
        screen.y + screen.height <= u16::MAX,
    ensures
        ({
            let bands = g.bands@;
            &&& bands[0].y == p.content.y && bands[0].height == 2
            &&& bands[1].y == p.content.y + 2 && bands[1].height >= 1
            &&& p.content.height >= 6 ==> bands[1].height >= 2
            &&& bands[2].y == bands[1].y + bands[1].height && bands[2].height == p.input_height
            &&& bands[3].y == bands[2].y + bands[2].height && bands[3].height == 2
            &&& bands[3].y + bands[3].height == p.content.y + p.content.height
        }),
{
    let parts = draw::band_parts(p);
    lemma_four(parts[0], parts[1], parts[2], parts[3], p.content.height as int);
    assert(parts =~= seq![parts[0], parts[1], parts[2], parts[3]]);
    assert(layout::fits(p.content, true, parts));
    assert(g.bands@[0] == layout::laid_out(p.content, true, parts, 0));
    assert(g.bands@[1] == layout::laid_out(p.content, true, parts, 1));
    assert(g.bands@[2] == layout::laid_out(p.content, true, parts, 2));
    assert(g.bands@[3] == layout::laid_out(p.content, true, parts, 3));
}

/// Four parts of which the second can grow.
proof fn lemma_four(a: Part, b: Part, c: Part, d: Part, cells: int)
    requires
        a is Length && b is Min && c is Length && d is Length,
    ensures
        ({
            let parts = seq![a, b, c, d];
            let rest = cells - a->Length_0 - c->Length_0 - d->Length_0;
            &&& layout::growing(parts) == 1
            &&& layout::needed(parts) == a->Length_0 + b->Min_0 + c->Length_0 + d->Length_0
            &&& layout::fixed(parts) == a->Length_0 + c->Length_0 + d->Length_0
            &&& layout::cells_before(parts, rest, 0) == 0
            &&& layout::cells_before(parts, rest, 1) == a->Length_0
            &&& layout::cells_before(parts, rest, 2) == a->Length_0 + rest
            &&& layout::cells_before(parts, rest, 3) == a->Length_0 + rest + c->Length_0
        }),
{
    let parts = seq![a, b, c, d];
    assert(parts.drop_last() =~= seq![a, b, c]);
    assert(seq![a, b, c].drop_last() =~= seq![a, b]);
    assert(seq![a, b].drop_last() =~= seq![a]);
    assert(seq![a].drop_last() =~= Seq::<Part>::empty());
    reveal_with_fuel(layout::growing, 5);
    reveal_with_fuel(layout::needed, 5);
    reveal_with_fuel(layout::fixed, 5);
    reveal_with_fuel(layout::cells_before, 4);
}

/// Where the artwork is shown its columns are the last ones of the header, as
/// many as it is wide, and the text of the header ends one cell before them.
pub proof fn law_header_text_stops_at_the_artwork(
    p: Plan,
    g: Regions,
    app: App,
    r: Renderer,
    screen: Rect,
)
    requires
        draw::is_plan(p, r, app, screen),
        draw::arranged(app, p, g),
        p.show_kitty,
        screen.x + screen.width <= u16::MAX,
    ensures
        ({
            let columns = g.columns@;
            &&& columns[0].x == p.content.x && columns[0].width == draw::HEADER_LOGO_WIDTH
            &&& columns[1].x == p.content.x + draw::HEADER_LOGO_WIDTH
            &&& columns[1].width >= draw::HEADER_MIN_METADATA_WIDTH
            &&& columns[1].x + columns[1].width + draw::HEADER_SEPARATOR_WIDTH == columns[3].x
            &&& columns[3].width == p.kitty_width
            &&& columns[3].x + columns[3].width == p.content.x + p.content.width
        }),
{
    let band = g.bands@[0];
    let parts = draw::column_parts(p);
    assert(layout::lies_in(g.bands@[0], p.content, true));
    lemma_four(parts[0], parts[1], parts[2], parts[3], band.width as int);
    assert(parts =~= seq![parts[0], parts[1], parts[2], parts[3]]);
    assert(layout::fits(band, false, parts));
    assert(g.columns@[0] == layout::laid_out(band, false, parts, 0));
    assert(g.columns@[1] == layout::laid_out(band, false, parts, 1));
    assert(g.columns@[3] == layout::laid_out(band, false, parts, 3));
}

/// Where all parts have room there is only one way to split an area.
proof fn lemma_one_split(area: Rect, vertical: bool, parts: Seq<Part>, a: Seq<Rect>, b: Seq<Rect>)
    requires
        layout::fits(area, vertical, parts),
        layout::is_split(area, vertical, parts, a),
        layout::is_split(area, vertical, parts, b),
    ensures
        a == b,
{
    assert forall|k: int| 0 <= k < a.len() implies a[k] == b[k] by {
        assert(a[k] == layout::laid_out(area, vertical, parts, k));
        assert(b[k] == layout::laid_out(area, vertical, parts, k));
    }
    assert(a =~= b);
}

/// Two parts.
proof fn lemma_two(a: Part, b: Part, cells: int)
    ensures
        ({
            let parts = seq![a, b];
            let n = layout::part_cells(a, a->Min_0 as int) + layout::part_cells(b, b->Min_0 as int);
            let fixed = layout::part_cells(a, 0) + layout::part_cells(b, 0);
            &&& layout::needed(parts) == n
            &&& layout::fixed(parts) == fixed
            &&& layout::growing(parts) == (if a is Min {
                1int
            } else {
                0
            }) + (if b is Min {
                1int
            } else {
                0
            })
            &&& layout::cells_before(parts, cells, 1) == layout::part_cells(a, cells)
        }),
{
    let parts = seq![a, b];
    assert(parts.drop_last() =~= seq![a]);
    assert(seq![a].drop_last() =~= Seq::<Part>::empty());
    reveal_with_fuel(layout::growing, 3);
    reveal_with_fuel(layout::needed, 3);
    reveal_with_fuel(layout::fixed, 3);
    reveal_with_fuel(layout::cells_before, 2);
}

/// The screen is large enough for every part of every pane: seven rows and
/// seven columns inside of its margin.
pub open spec fn roomy(screen: Rect) -> bool {
    &&& screen.width >= 9 && screen.height >= 9
    &&& screen.x + screen.width <= u16::MAX
    &&& screen.y + screen.height <= u16::MAX
}

/// The header and the footer of a roomy screen are split in one way only.
proof fn lemma_one_header(p: Plan, g: Regions, h: Regions, app: App, r: Renderer, screen: Rect)
    requires
        draw::is_plan(p, r, app, screen),
        draw::arranged(app, p, g),
        draw::arranged(app, p, h),
        roomy(screen),
    ensures
        g.bands@ == h.bands@,
        g.columns@ == h.columns@,
        g.metadata@ == h.metadata@,
        g.footer@ == h.footer@,
        g.ends@ == h.ends@,
{
    let parts = draw::band_parts(p);
    lemma_four(parts[0], parts[1], parts[2], parts[3], p.content.height as int);
    assert(parts =~= seq![parts[0], parts[1], parts[2], parts[3]]);
    lemma_one_split(p.content, true, parts, g.bands@, h.bands@);
    law_bands_stack_up(p, g, app, r, screen);
    let top = g.bands@[0];
    let foot = g.bands@[3];
    assert(layout::lies_in(g.bands@[0], p.content, true));
    assert(layout::lies_in(g.bands@[3], p.content, true));
    let columns = draw::column_parts(p);
    lemma_four(columns[0], columns[1], columns[2], columns[3], top.width as int);
    assert(columns =~= seq![columns[0], columns[1], columns[2], columns[3]]);
    lemma_one_split(top, false, columns, g.columns@, h.columns@);
    let one = Part::Length(1);
    let two = seq![one, one];
    lemma_two(one, one, 0);
    assert(layout::lies_in(g.columns@[1], top, false));
    lemma_one_split(g.columns@[1], true, two, g.metadata@, h.metadata@);
    lemma_one_split(foot, true, two, g.footer@, h.footer@);
    let row = g.footer@[1];
    assert(layout::lies_in(g.footer@[1], foot, true));
    let path = Part::Length(panes::path_cells(app, foot));
    lemma_two(Part::Min(1), path, 0);
    lemma_one_split(row, false, seq![Part::Min(1), path], g.ends@, h.ends@);
}

/// The dialogs and overlays of a roomy screen are split in one way only.
proof fn lemma_one_dialog(p: Plan, g: Regions, h: Regions, app: App, r: Renderer, screen: Rect)
    requires
        draw::is_plan(p, r, app, screen),
        draw::arranged(app, p, g),
        draw::arranged(app, p, h),
        roomy(screen),
    ensures
        g.dialog@ == h.dialog@,
        g.overlay@ == h.overlay@,
        g.approval@ == h.approval@,
{
    let one = Part::Length(1);
    let rest = Part::Min(0);
    let dialog = scene::within(panes::dialog_area(p.content));
    lemma_four(Part::Length(3), rest, one, one, 0);
    lemma_one_split(
        dialog,
        true,
        seq![Part::Length(3), rest, one, one],
        g.dialog@,
        h.dialog@,
    );
    let inside = scene::within(panes::overlay_area(p.content));
    lemma_two(Part::Length(0), rest, 0);
    lemma_one_split(inside, true, seq![Part::Length(0), rest], g.overlay@, h.overlay@);
    lemma_two(one, rest, 0);
    lemma_one_split(inside, true, seq![one, rest], g.approval@, h.approval@);
}

/// On a roomy screen a frame is determined: whatever the layout's solver does,
/// the same things are painted.
pub proof fn law_frame_is_determined(
    a: Renderer,
    app: App,
    screen: Rect,
    p: Plan,
    g: Regions,
    b: Renderer,
    out: Seq<PaintView>,
    q: Plan,
    h: Regions,
    c: Renderer,
    other: Seq<PaintView>,
)
    requires
        draw::is_frame(a, app, screen, p, g, b, out),
        draw::is_frame(a, app, screen, q, h, c, other),
        roomy(screen),
    ensures
        out == other,
{
    assert(style::lines_view(p.rows@).len() == p.rows@.len());
    assert(style::lines_view(q.rows@).len() == q.rows@.len());
    assert(draw::arranged(app, q, g));
    lemma_one_header(q, g, h, app, a, screen);
    lemma_one_dialog(q, g, h, app, a, screen);
    assert(draw::reservation(p, g) == draw::reservation(q, h));
    assert(draw::canvas_area(p, g, screen) == draw::canvas_area(q, h, screen));
    assert(draw::history_scene(app, p, g) == draw::history_scene(app, q, h));
    assert(draw::modal_scene(app, p, g) == draw::modal_scene(app, q, h));
}

/// The cursor of the composer stays inside of its border.
pub proof fn law_caret_stays_in_the_composer(app: App, area: Rect)
    requires
        area.x + area.width <= u16::MAX,
        area.y + area.height <= u16::MAX,
        panes::input_scene(app, area).len() == 3,
    ensures
        panes::input_scene(app, area)[2] matches PaintView::Cursor { x, y } && artwork::inside(
            scene::within(area),
            x,
            y,
        ),
{
}

proof fn lemma_cells_taken(s: Seq<char>, want: int, k: int, gone: int)
    requires
        0 <= k <= s.len(),
        gone + wrap::cell_sum(s.skip(k)) >= want,
    ensures
        panes::query_start(s, want, k, gone).1 >= want,
    decreases s.len() - k,
{
    if k < s.len() && gone < want {
        assert(s.skip(k) =~= seq![s[k]] + s.skip(k + 1));
        text_laws::lemma_cell_sum_front(s[k], s.skip(k + 1));
        lemma_cells_taken(s, want, k + 1, gone + width::cells(s[k]));
    } else if k == s.len() {
        assert(s.skip(k) =~= Seq::<char>::empty());
    }
}

proof fn lemma_cell_sum_of_prefix(s: Seq<char>, k: int)
    requires
        0 <= k <= s.len(),
    ensures
        wrap::cell_sum(s.take(k)) <= wrap::cell_sum(s),
    decreases s.len(),
{
    if k < s.len() {
        assert(s.drop_last().take(k) =~= s.take(k));
        lemma_cell_sum_of_prefix(s.drop_last(), k);
    } else {
        assert(s.take(k) =~= s);
    }
}

/// The cursor of a dialog's search field stays inside of its border, whatever
/// is in front of it, unless that takes more cells as a string than its
/// characters take one by one. Text with an emoji variation sequence does: a
/// narrow symbol with U+FE0F behind it, such as U+263A U+FE0F, is one cell and
/// none by itself, and two as a string. Behind as many of these as the field
/// has cells the cursor is past the border.
pub proof fn law_caret_stays_in_the_search_field(p: Picker, area: Rect, theme: ThemeView)
    requires
        p.query.wf(),
        area.x + area.width <= u16::MAX,
        area.y + area.height <= u16::MAX,
        panes::search_scene(p, area, true, theme).len() == 3,
        width::text_width(p.query.text@.take(p.query.at())) <= wrap::cell_sum(
            p.query.text@.take(p.query.at()),
        ),
    ensures
        panes::search_scene(p, area, true, theme)[2] matches PaintView::Cursor { x, y }
            && artwork::inside(scene::within(area), x, y),
{
    let s = p.query.text@;
    let field = scene::within(area);
    let column = width::text_width(s.take(p.query.at())) as int;
    let want = panes::short_of(column, field.width - 1);
    lemma_cell_sum_of_prefix(s, p.query.at());
    assert(s.skip(0) =~= s);
    lemma_cells_taken(s, want, 0, 0);
}

} // verus!
