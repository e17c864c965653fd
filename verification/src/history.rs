//! The window of the transcript that is on screen: entry rows from a cache,
//! and one summary row for each visible activity.
use crate::app;
use crate::app::App;
use crate::entries;
use crate::model::{ActivityKind, ActivityStatus, Theme, ThemeView};
use crate::snapshot;
use crate::snapshot::LayoutSnapshot;
use crate::spine;
use crate::spine::{Focus, ItemView, NodeView, Spine};
use crate::style;
use crate::style::{color, Color, Line, LineView, Span, SpanView, Style};
use crate::text;
use crate::text::{decimal_text, same, sanitize_id, sanitize_title, text2, text3};
use crate::wrap;
use crate::wrap::truncate_line;
use vstd::prelude::*;
use vstd::string::*;

verus! {

/// The activity whose summary occupies a row of the view.
#[derive(Debug)]
pub struct ActivitySummary {
    pub id: String,
}

/// The rows of an entry at a revision.
#[derive(Debug)]
pub struct CachedEntry {
    pub revision: u64,
    pub lines: Vec<Line>,
}

/// A row of the view: its line, and the activity whose summary it is.
#[verifier::ext_equal]
pub struct RowView {
    pub line: LineView,
    pub target: Option<Seq<char>>,
}

// ---------------------------------------------------------------------------
// Summaries
// ---------------------------------------------------------------------------

/// `unit`, `n` times.
pub open spec fn repeated(unit: Seq<char>, n: nat) -> Seq<char>
    decreases n,
{
    if n == 0 {
        Seq::empty()
    } else {
        repeated(unit, (n - 1) as nat) + unit
    }
}

/// The branches in front of a summary, one for each level.
pub open spec fn indent_of(depth: nat, ascii: bool) -> Seq<char> {
    repeated(
        if ascii {
            "|  "@
        } else {
            "│  "@
        },
        depth,
    )
}

/// The color of a kind of activity.
pub open spec fn kind_tint(kind: ActivityKind, theme: ThemeView) -> Color {
    style::color_of(
        match kind {
            ActivityKind::Tool => theme.tool,
            ActivityKind::Subagent => theme.assistant,
            ActivityKind::WorkflowStep => theme.accent,
        },
    )
}

/// What a summary says of a status.
pub open spec fn status_word(status: Option<ActivityStatus>) -> Seq<char> {
    match status {
        None => "running"@,
        Some(ActivityStatus::Success) => "ok"@,
        Some(ActivityStatus::Error) => "error"@,
        Some(ActivityStatus::Cancelled) => "cancelled"@,
        Some(ActivityStatus::Denied) => "denied"@,
    }
}

/// The color of a status.
pub open spec fn status_tint(status: Option<ActivityStatus>, theme: ThemeView) -> Color {
    style::color_of(
        match status {
            None => theme.muted,
            Some(ActivityStatus::Success) => theme.success,
            Some(ActivityStatus::Error) => theme.error,
            Some(ActivityStatus::Cancelled) => theme.warning,
            Some(ActivityStatus::Denied) => theme.error,
        },
    )
}

/// The spans of the summary of a record.
pub open spec fn summary_spans(node: NodeView, depth: nat, hidden: nat, theme: ThemeView) -> Seq<
    SpanView,
> {
    let muted = Style::colored(style::color_of(theme.muted));
    let front = if depth > 0 {
        seq![
            SpanView {
                content: indent_of(depth, theme.ascii),
                style: Style::colored(style::color_of(theme.border)),
            },
        ]
    } else {
        Seq::empty()
    };
    let middle = front.push(
        SpanView {
            content: if node.expanded {
                "[-] "@
            } else {
                "[+] "@
            },
            style: muted,
        },
    ).push(
        SpanView {
            content: text::clean_title(node.start.title),
            style: Style::strong(kind_tint(node.start.kind, theme)),
        },
    ).push(
        SpanView {
            content: " ["@ + status_word(node.status) + "]"@,
            style: Style::colored(status_tint(node.status, theme)),
        },
    );
    if hidden > 0 {
        middle.push(
            SpanView { content: " (+"@ + text::decimal(hidden) + ")"@, style: muted },
        )
    } else {
        middle
    }
}

/// The row that sums up an activity: its place in the tree, whether it is
/// open, its title, its status and how many rows lie below it. The focused one
/// stands on another background.
pub open spec fn summary_row(s: Spine, id: Seq<char>, width: int, theme: ThemeView) -> LineView {
    if spine::known(s.nodes, id) {
        let i = spine::pos(s.nodes, id);
        let row = wrap::one_row(
            summary_spans(
                s.nodes[i],
                snapshot::held(spine::depth(s.nodes, i), u8::MAX as int) as nat,
                snapshot::held(s.below(id) as int, u32::MAX as int) as nat,
                theme,
            ),
            width,
        );
        if s.focus == Focus::Activity && s.focused == Some(id) {
            LineView {
                style: Style { bg: Some(style::color_of(theme.cta_background)), ..Style::plain() },
                ..row
            }
        } else {
            row
        }
    } else {
        style::styled_line("[?] "@ + text::clean_id(id), Style::plain())
    }
}

/// The rows of a timeline slot; none where it is hidden.
pub open spec fn slot_rows(s: Spine, item: ItemView, width: int, theme: ThemeView) -> Seq<RowView> {
    match item {
        ItemView::Activity(id) => if spine::shown(s.nodes, id) {
            seq![RowView { line: summary_row(s, id, width, theme), target: Some(id) }]
        } else {
            Seq::empty()
        },
        ItemView::Entry(i) => if i < s.entries.len() && s.entry_shown(i as int) {
            entries::rows_of(s.entries[i as int], width, theme).map_values(
                |line: LineView| RowView { line, target: None },
            )
        } else {
            Seq::empty()
        },
    }
}

/// The rows of the first `n` timeline slots.
pub open spec fn rows_before(s: Spine, width: int, theme: ThemeView, n: int) -> Seq<RowView>
    decreases n,
{
    if n <= 0 {
        Seq::empty()
    } else {
        rows_before(s, width, theme, n - 1) + slot_rows(s, s.timeline[n - 1], width, theme)
    }
}

/// The rows of the whole transcript.
pub open spec fn all_rows(s: Spine, width: int, theme: ThemeView) -> Seq<RowView> {
    rows_before(s, width, theme, s.timeline.len() as int)
}

/// The first row of the view: the view ends with the last row, `scroll` rows
/// further up, but never above the first one.
pub open spec fn view_start(total: int, height: int, scroll: int) -> int {
    let most = if total > height {
        total - height
    } else {
        0
    };
    most - if scroll < most {
        scroll
    } else {
        most
    }
}

/// The end of the view.
pub open spec fn view_end(total: int, height: int, scroll: int) -> int {
    let end = view_start(total, height, scroll) + height;
    if end < total {
        end
    } else {
        total
    }
}

/// The rows in view.
pub open spec fn window(rows: Seq<RowView>, height: int, scroll: int) -> Seq<RowView> {
    rows.subrange(
        view_start(rows.len() as int, height, scroll),
        view_end(rows.len() as int, height, scroll),
    )
}

/// The lines of rows.
pub open spec fn row_lines(rows: Seq<RowView>) -> Seq<LineView> {
    rows.map_values(|r: RowView| r.line)
}

/// The targets of rows.
pub open spec fn row_targets(rows: Seq<RowView>) -> Seq<Option<Seq<char>>> {
    rows.map_values(|r: RowView| r.target)
}

/// The targets of a hit map.
pub open spec fn hits_view(hits: Seq<Option<ActivitySummary>>) -> Seq<Option<Seq<char>>> {
    hits.map_values(
        |h: Option<ActivitySummary>|
            match h {
                Some(summary) => Some(summary.id@),
                None => None,
            },
    )
}

/// The branches in front of a summary.
fn summary_indent(depth: usize, ascii: bool) -> (r: String)
    ensures
        r@ == indent_of(depth as nat, ascii),
{
    let unit = if ascii {
        "|  "
    } else {
        "│  "
    };
    let mut out = String::new();
    let mut k: usize = 0;
    assert(out@ =~= repeated(unit@, 0));
    while k < depth
        invariant
            k <= depth,
            out@ == repeated(unit@, k as nat),
        decreases depth - k,
    {
        out.append(unit);
        k = k + 1;
    }
    out
}

/// The color of a kind of activity.
fn kind_color(kind: ActivityKind, theme: &Theme) -> (r: Color)
    ensures
        r == kind_tint(kind, theme@),
{
    match kind {
        ActivityKind::Tool => color(theme.tool.as_str()),
        ActivityKind::Subagent => color(theme.assistant.as_str()),
        ActivityKind::WorkflowStep => color(theme.accent.as_str()),
    }
}

/// What a summary says of a status.
fn status_label(status: Option<ActivityStatus>) -> (r: &'static str)
    ensures
        r@ == status_word(status),
{
    match status {
        None => "running",
        Some(ActivityStatus::Success) => "ok",
        Some(ActivityStatus::Error) => "error",
        Some(ActivityStatus::Cancelled) => "cancelled",
        Some(ActivityStatus::Denied) => "denied",
    }
}

/// The color of a status.
fn status_color(status: Option<ActivityStatus>, theme: &Theme) -> (r: Color)
    ensures
        r == status_tint(status, theme@),
{
    match status {
        None => color(theme.muted.as_str()),
        Some(ActivityStatus::Success) => color(theme.success.as_str()),
        Some(ActivityStatus::Error) => color(theme.error.as_str()),
        Some(ActivityStatus::Cancelled) => color(theme.warning.as_str()),
        Some(ActivityStatus::Denied) => color(theme.error.as_str()),
    }
}

/// The row that sums up an activity, from a snapshot of the spine.
pub fn activity_summary_line_snapshot(
    app: &App,
    snapshot: &LayoutSnapshot,
    id: &str,
    width: usize,
    theme: &Theme,
) -> (r: Line)
    requires
        app.indexed(),
        snapshot.describes(app.spine()),
    ensures
        r@ == summary_row(app.spine(), id@, width as int, theme@),
{
    let ghost s = app.spine();
    let node = match app.activity(id) {
        Some(node) => node,
        None => {
            let clean = sanitize_id(id);
            return Line::raw(text2("[?] ", clean.as_str()).as_str());
        },
    };
    let ghost i = spine::pos(s.nodes, id@);
    proof {
        assert(s.nodes[i].start.id == id@);
        spine::lemma_trail_of(s.nodes, i);
    }
    let depth: usize = app.depth_for(snapshot, id) as usize;
    let count: u32 = app.descendant_count_for(snapshot, id);
    let muted = Style::new().fg(color(theme.muted.as_str()));
    let mut spans: Vec<Span> = Vec::new();
    assert(style::spans_view(spans@) =~= Seq::<SpanView>::empty());
    if depth > 0 {
        let indent = summary_indent(depth, theme.ascii);
        spans.push(Span::styled(indent, Style::new().fg(color(theme.border.as_str()))));
        assert(style::spans_view(spans@) =~= seq![
            SpanView {
                content: indent@,
                style: Style::colored(style::color_of(theme@.border)),
            },
        ]);
    }
    let marker = if node.expanded {
        "[-] ".to_owned()
    } else {
        "[+] ".to_owned()
    };
    let first = Span::styled(marker, muted);
    let title = Span::styled(
        sanitize_title(node.start.title.as_str()),
        Style::new().fg(kind_color(node.start.kind, theme)).bold(),
    );
    let status = Span::styled(
        text3(" [", status_label(node.status), "]"),
        Style::new().fg(status_color(node.status, theme)),
    );
    proof {
        style::lemma_spans_push(spans@, first);
        style::lemma_spans_push(spans@.push(first), title);
        style::lemma_spans_push(spans@.push(first).push(title), status);
    }
    spans.push(first);
    spans.push(title);
    spans.push(status);
    if count > 0 {
        let digits = decimal_text(count as u128);
        let badge = Span::styled(text3(" (+", digits.as_str(), ")"), muted);
        proof {
            style::lemma_spans_push(spans@, badge);
        }
        spans.push(badge);
    }
    let mut line = truncate_line(spans, width);
    let focused = match &app.focused_activity {
        Some(focused) => app.focus == Focus::Activity && same(focused.as_str(), id),
        None => false,
    };
    if focused {
        line.style = Style::new().bg(color(theme.cta_background.as_str()));
    }
    line
}

/// The entry is shown, by a snapshot of the spine.
pub fn entry_visible(app: &App, snapshot: &LayoutSnapshot, index: usize) -> (r: bool)
    requires
        app.indexed(),
        snapshot.describes(app.spine()),
    ensures
        r == app.spine().entry_shown(index as int),
{
    if index >= app.entries.len() {
        return true;
    }
    assert(app.spine().entries[index as int] == app.entries@[index as int]@);
    match &app.entries[index].activity_id {
        None => true,
        Some(owner) => {
            proof {
                let s = app.spine();
                if spine::known(s.nodes, owner@) {
                    let i = spine::pos(s.nodes, owner@);
                    assert(s.nodes[i].start.id == owner@);
                }
            }
            match app.activity(owner.as_str()) {
                Some(node) => node.expanded && app.ancestor_visible_for(snapshot, owner.as_str()),
                None => false,
            }
        },
    }
}

} // verus!
