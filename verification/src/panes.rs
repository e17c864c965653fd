//! The composer, the footer, the dialogs and the overlays, as things to paint.
use crate::app::App;
use crate::artwork;
use crate::artwork::{add16, min16, to16};
use crate::markdown;
use crate::markdown::markdown;
use crate::model::{Theme, ThemeView};
use crate::picker;
use crate::picker::{Picker, PickerKind};
use crate::renderer::Rect;
use crate::runs;
use crate::scene;
use crate::scene::{
    border_paint, button, inner_area, paint, rows_paint, text_paint, Paint, PaintView,
};
use crate::style;
use crate::style::{color, Line, LineView, Span, SpanView, Style};
use crate::text;
use crate::text::{
    chars_of, count_text, same, sanitize_terminal_text, starts_with_text, string_of, text2, text3,
};
use crate::width;
use crate::width::{cell_width, str_width};
use crate::wrap;
use crate::wrap::{tail_text, wrap_lines};
use vstd::prelude::*;
use vstd::string::*;

verus! {

/// What is left of rows when some are scrolled away.
pub open spec fn past(rows: Seq<LineView>, n: int) -> Seq<LineView> {
    if n < rows.len() {
        rows.skip(n)
    } else {
        Seq::empty()
    }
}

/// The rows behind the first `n` ones.
fn drop_rows(rows: Vec<Line>, n: usize) -> (r: Vec<Line>)
    ensures
        style::lines_view(r@) == past(style::lines_view(rows@), n as int),
{
    let ghost all = style::lines_view(rows@);
    let ghost want = past(all, n as int);
    let mut out: Vec<Line> = Vec::new();
    let mut i: usize = n;
    assert(style::lines_view(out@) =~= want.take(0));
    while i < rows.len()
        invariant
            n <= i,
            n < rows@.len() ==> i <= rows@.len(),
            n >= rows@.len() ==> i == n,
            all == style::lines_view(rows@),
            all.len() == rows@.len(),
            want == past(all, n as int),
            style::lines_view(out@) == want.take(i - n),
        decreases rows@.len() - i,
    {
        let line = rows[i].duplicate();
        proof {
            assert(all[i as int] == rows@[i as int]@);
            style::lemma_lines_push(out@, line);
            assert(want.take(i + 1 - n) =~= want.take(i - n).push(line@));
        }
        out.push(line);
        i = i + 1;
    }
    assert(want.take(i - n) =~= want);
    out
}

// ---------------------------------------------------------------------------
// Composer
// ---------------------------------------------------------------------------

/// The rows of a text in the composer.
pub open spec fn composer_rows(s: Seq<char>, cells: int) -> Seq<LineView> {
    wrap::hard_wrapped(
        seq![style::styled_line(s, Style::plain())],
        wrap::at_least_one(cells),
    )
}

/// Row and column of the cursor behind a text: past a full row it goes to the
/// next one.
pub open spec fn caret(before: Seq<char>, cells: int) -> (int, int) {
    let rows = composer_rows(before, cells);
    let column = text::clip(style::spans_width(rows.last().spans) as int);
    if column >= cells && cells > 0 {
        (rows.len() as int, 0)
    } else {
        (rows.len() - 1, column)
    }
}

/// The rows of the composer: the text, a row for a cursor behind a full one,
/// and an accent on a command.
pub open spec fn shown_input(app: App, cells: int) -> Seq<LineView> {
    let s = app.input.text@;
    let rows = composer_rows(s, cells);
    let before = composer_rows(s.take(app.input.at()), cells);
    let full = caret(s.take(app.input.at()), cells).0 == before.len();
    let rows = if full {
        rows.push(style::styled_line(""@, Style::plain()))
    } else {
        rows
    };
    if runs::is_command(s) {
        rows.map_values(
            |l: LineView|
                LineView { style: Style::colored(style::color_of(app.theme@.accent)), ..l },
        )
    } else {
        rows
    }
}

/// The composer: a border, the text scrolled to the cursor, and the cursor
/// unless something lies over it.
pub open spec fn input_scene(app: App, area: Rect) -> Seq<PaintView> {
    let inner = scene::within(area);
    let (row, column) = caret(app.input.text@.take(app.input.at()), inner.width as int);
    let offset = short_of(row, inner.height - 1);
    let base = seq![
        scene::bordered(area, " Input "@, app.theme@, style::color_of(app.theme@.accent)),
        scene::rows_at(inner, past(shown_input(app, inner.width as int), offset)),
    ];
    if app.approval is None && !app.help && app.picker is None && inner.width > 0 && inner.height
        > 0 {
        base.push(
            PaintView::Cursor {
                x: artwork::cells16(
                    inner.x + artwork::least(artwork::cells16(column), (inner.width - 1) as u16),
                ),
                y: artwork::cells16(
                    inner.y + artwork::least(
                        artwork::cells16(row - offset),
                        (inner.height - 1) as u16,
                    ),
                ),
            },
        )
    } else {
        base
    }
}

/// `a` less `b`, and not below zero; all of `a` for a negative `b`.
pub open spec fn short_of(a: int, b: int) -> int {
    if b < 0 {
        a
    } else if a < b {
        0
    } else {
        a - b
    }
}

/// The rows of a text in the composer.
pub fn input_rows(s: &str, cells: usize) -> (r: Vec<Line>)
    ensures
        style::lines_view(r@) == composer_rows(s@, cells as int),
        r@.len() >= 1,
{
    let mut lines: Vec<Line> = Vec::new();
    lines.push(Line::raw(s));
    let ghost one = style::lines_view(lines@);
    assert(one =~= seq![style::styled_line(s@, Style::plain())]);
    let rows = wrap_lines(&lines, cells);
    proof {
        let limit = wrap::at_least_one(cells as int);
        reveal_with_fuel(wrap::hard_wrapped, 2);
        assert(one.drop_last() =~= Seq::<LineView>::empty());
        assert(wrap::hard_wrapped(one, limit) =~= wrap::hard_wrapped_line(one.last(), limit));
        assert(style::lines_view(rows@).len() == rows@.len());
    }
    rows
}

/// Draws the composer.
pub fn draw_input(app: &App, area: Rect) -> (r: Vec<Paint>)
    requires
        app.input.wf(),
    ensures
        scene::paints_view(r@) == input_scene(*app, area),
{
    let theme = &app.theme;
    let inner = inner_area(area);
    let cells: usize = inner.width as usize;
    let before = app.input.before();
    let mut lines = input_rows(app.input.text.as_str(), cells);
    let prefix = input_rows(before.as_str(), cells);
    let n: usize = prefix.len();
    let mut row: usize = n - 1;
    let mut column: usize = prefix[n - 1].width();
    proof {
        assert(style::lines_view(prefix@)[n - 1] == prefix@[n - 1]@);
        assert(style::lines_view(prefix@).last() == prefix@[n - 1]@);
    }
    if column >= cells && cells > 0 {
        row = row + 1;
        column = 0;
        let empty = Line::raw("");
        proof {
            style::lemma_lines_push(lines@, empty);
        }
        lines.push(empty);
    }
    assert(caret(before@, cells as int) == (row as int, column as int));
    let text = app.input.text.as_str();
    if starts_with_text(text, "/") || same(text, ":q") {
        let accent = Style::new().fg(color(theme.accent.as_str()));
        let ghost plain = style::lines_view(lines@);
        let ghost want = plain.map_values(|l: LineView| LineView { style: accent, ..l });
        let mut i: usize = 0;
        while i < lines.len()
            invariant
                i <= lines@.len(),
                lines@.len() == plain.len(),
                want == plain.map_values(|l: LineView| LineView { style: accent, ..l }),
                forall|j: int|
                    0 <= j < lines@.len() ==> (#[trigger] lines@[j])@ == if j < i {
                        want[j]
                    } else {
                        plain[j]
                    },
            decreases lines@.len() - i,
        {
            assert(lines@[i as int]@ == plain[i as int]);
            lines[i].style = accent;
            i = i + 1;
        }
        assert(style::lines_view(lines@) =~= want);
    }
    assert(style::lines_view(lines@) == shown_input(*app, cells as int));
    let visible: usize = inner.height.saturating_sub(1) as usize;
    let offset: usize = if inner.height == 0 {
        row
    } else {
        row.saturating_sub(visible)
    };
    let mut out: Vec<Paint> = Vec::new();
    out.push(border_paint(area, " Input ", theme, color(theme.accent.as_str())));
    out.push(rows_paint(inner, drop_rows(lines, offset)));
    let ghost base = scene::paints_view(out@);
    assert(base =~= input_scene(*app, area).take(2));
    if app.approval.is_none() && !app.help && app.picker.is_none() && inner.width > 0
        && inner.height > 0 {
        let x: u16 = add16(inner.x, min16(to16(column), inner.width - 1));
        let y: u16 = add16(inner.y, min16(to16(row - offset), inner.height - 1));
        paint(&mut out, Paint::Cursor { x, y });
    }
    assert(scene::paints_view(out@) =~= input_scene(*app, area));
    out
}

// ---------------------------------------------------------------------------
// Footer
// ---------------------------------------------------------------------------

/// The cells that the workspace gets: as many as it needs, at most half of
/// the row.
pub open spec fn path_cells(app: App, row: Rect) -> u16 {
    artwork::least(
        artwork::cells16(width::text_width(app.workspace@) as int),
        (row.width / 2) as u16,
    )
}

/// What can be done now.
pub open spec fn button_spans(busy: bool, theme: ThemeView) -> Seq<SpanView> {
    if busy {
        seq![
            scene::button_span(" Ctrl+C Cancel "@, theme),
            scene::raw_span("  /tools and /mcp work during a run"@),
        ]
    } else {
        seq![
            scene::button_span(" Enter Send "@, theme),
            scene::raw_span("  "@),
            scene::button_span(" /help Commands "@, theme),
            scene::raw_span("  Tab agent | Alt+Enter newline | F6 activity"@),
        ]
    }
}

/// The footer: the status line, and below it what can be done and the
/// workspace.
pub open spec fn footer_scene(app: App, status: Rect, left: Rect, right: Rect, path: u16) -> Seq<
    PaintView,
> {
    let muted = Style::colored(style::color_of(app.theme@.muted));
    seq![
        scene::text_at(status, text::clean_text(app.status@, false), muted, false),
        scene::rows_at(left, seq![style::plain_line(button_spans(app.busy, app.theme@))]),
        scene::text_at(right, wrap::tail_of(app.workspace@, path as int), muted, true),
    ]
}

/// The cells that the workspace gets.
pub fn path_column(app: &App, row: Rect) -> (r: u16)
    ensures
        r == path_cells(*app, row),
{
    min16(to16(str_width(app.workspace.as_str())), row.width / 2)
}

/// Draws the footer.
pub fn draw_footer(app: &App, status: Rect, left: Rect, right: Rect, path: u16) -> (r: Vec<Paint>)
    ensures
        scene::paints_view(r@) == footer_scene(*app, status, left, right, path),
{
    let theme = &app.theme;
    let muted = Style::new().fg(color(theme.muted.as_str()));
    let clean = sanitize_terminal_text(app.status.as_str(), false);
    let tail = tail_text(app.workspace.as_str(), path as usize);
    let mut spans: Vec<Span> = Vec::new();
    if app.busy {
        spans.push(button(" Ctrl+C Cancel ", theme));
        spans.push(Span::raw("  /tools and /mcp work during a run"));
    } else {
        spans.push(button(" Enter Send ", theme));
        spans.push(Span::raw("  "));
        spans.push(button(" /help Commands ", theme));
        spans.push(Span::raw("  Tab agent | Alt+Enter newline | F6 activity"));
    }
    assert(style::spans_view(spans@) =~= button_spans(app.busy, theme@));
    let mut lines: Vec<Line> = Vec::new();
    lines.push(Line::from_spans(spans));
    assert(style::lines_view(lines@) =~= seq![
        style::plain_line(button_spans(app.busy, theme@)),
    ]);
    let mut out: Vec<Paint> = Vec::new();
    out.push(text_paint(status, clean.as_str(), muted, false));
    out.push(rows_paint(left, lines));
    out.push(text_paint(right, tail.as_str(), muted, true));
    assert(scene::paints_view(out@) =~= footer_scene(*app, status, left, right, path));
    out
}

// ---------------------------------------------------------------------------
// Dialogs
// ---------------------------------------------------------------------------

/// The place of a dialog: in the middle, at most a hundred cells wide and two
/// dozen rows high.
pub open spec fn dialog_area(area: Rect) -> Rect {
    let w = artwork::least(area.width, 100);
    let h = artwork::least(area.height, 24);
    Rect {
        x: artwork::cells16(area.x + (area.width - w) / 2),
        y: artwork::cells16(area.y + (area.height - h) / 2),
        width: w,
        height: h,
    }
}

/// How far a query is scrolled: characters leave it at the front, from the
/// `k`-th on, until `want` cells have.
pub open spec fn query_start(s: Seq<char>, want: int, k: int, gone: int) -> (int, int)
    decreases s.len() - k,
{
    if 0 <= k < s.len() && gone < want {
        query_start(s, want, k + 1, gone + width::cells(s[k]))
    } else {
        (k, gone)
    }
}

/// The search field: the query, scrolled so that the cursor shows.
pub open spec fn search_scene(p: Picker, area: Rect, focused: bool, theme: ThemeView) -> Seq<
    PaintView,
> {
    let field = scene::within(area);
    let column = width::text_width(p.query.text@.take(p.query.at())) as int;
    let (k, gone) = query_start(
        p.query.text@,
        short_of(column, field.width - 1),
        0,
        0,
    );
    let frame = seq![
        scene::bordered(area, " Search "@, theme, style::color_of(theme.border)),
    ];
    if field.width > 0 && field.height > 0 {
        let shown = frame.push(
            scene::text_at(field, p.query.text@.skip(k), Style::plain(), false),
        );
        if focused {
            shown.push(
                PaintView::Cursor {
                    x: artwork::cells16(
                        field.x + artwork::cells16(short_of(column, gone)),
                    ),
                    y: field.y,
                },
            )
        } else {
            shown
        }
    } else {
        frame
    }
}

/// The first row of a list that shows: the selection is kept in the middle.
pub open spec fn list_start(selected: int, height: int, count: int) -> int {
    let a = short_of(selected, height / 2);
    let b = short_of(count, height);
    if a < b {
        a
    } else {
        b
    }
}

/// The row of a choice, with its state in front if it has one.
pub open spec fn choice_row(c: picker::ChoiceView, selected: bool, theme: ThemeView) -> LineView {
    let label = if selected {
        scene::button_span(c.label, theme)
    } else {
        scene::raw_span(c.label)
    };
    style::plain_line(
        match c.enabled {
            Some(on) => seq![
                SpanView {
                    content: if on {
                        "[on ] "@
                    } else {
                        "[off] "@
                    },
                    style: Style::colored(
                        style::color_of(
                            if on {
                                theme.success
                            } else {
                                theme.muted
                            },
                        ),
                    ),
                },
                label,
            ],
            None => seq![label],
        },
    )
}

/// The rows of a list in view.
pub open spec fn list_rows(p: Picker, height: int, theme: ThemeView) -> Seq<LineView> {
    let n = p.matches@.len() as int;
    let start = list_start(p.selected as int, height, n);
    let count = if n - start < height {
        n - start
    } else {
        height
    };
    Seq::new(
        count as nat,
        |i: int|
            choice_row(
                p.choices@[p.matches@[start + i] as int]@,
                start + i == p.selected,
                theme,
            ),
    )
}

/// The title of a dialog, with how many of its rows match.
pub open spec fn dialog_title(p: Picker) -> Seq<char> {
    " "@ + picker::title_of(p) + " ("@ + text::decimal(p.matches@.len()) + "/"@ + text::decimal(
        p.choices@.len(),
    ) + ") "@
}

/// A dialog in an area, with its four parts: the search field, the list, the
/// hint and the buttons.
pub open spec fn dialog_scene(
    p: Picker,
    area: Rect,
    parts: Seq<Rect>,
    focused: bool,
    theme: ThemeView,
) -> Seq<PaintView> {
    let muted = Style::colored(style::color_of(theme.muted));
    seq![
        PaintView::Clear { area },
        PaintView::Border {
            area,
            title: dialog_title(p),
            bottom: Seq::empty(),
            all: true,
            ascii: theme.ascii,
            border: Style::colored(style::color_of(theme.accent)),
            style: scene::base_style(theme),
        },
    ] + search_scene(p, parts[0], focused, theme) + seq![
        if p.matches@.len() == 0 {
            scene::text_at(parts[1], "No matching entries"@, muted, false)
        } else {
            scene::rows_at(parts[1], list_rows(p, parts[1].height as int, theme))
        },
        scene::text_at(parts[2], picker::hint_of(p), muted, false),
        scene::rows_at(
            parts[3],
            seq![
                style::plain_line(
                    seq![
                        scene::button_span(
                            if p.kind is Mcps {
                                " Enter Toggle "@
                            } else {
                                " Enter Select "@
                            },
                            theme,
                        ),
                        scene::raw_span(" Up/Down browse | PgUp/PgDn | Esc close"@),
                    ],
                ),
            ],
        ),
    ]
}

/// The place of a dialog.
pub fn dialog_place(area: Rect) -> (r: Rect)
    ensures
        r == dialog_area(area),
{
    let w: u16 = min16(area.width, 100);
    let h: u16 = min16(area.height, 24);
    Rect {
        x: add16(area.x, (area.width - w) / 2),
        y: add16(area.y, (area.height - h) / 2),
        width: w,
        height: h,
    }
}

/// Draws the search field.
fn draw_search(p: &Picker, area: Rect, focused: bool, theme: &Theme) -> (r: Vec<Paint>)
    requires
        p.query.wf(),
    ensures
        scene::paints_view(r@) == search_scene(*p, area, focused, theme@),
{
    let field = inner_area(area);
    let mut out: Vec<Paint> = Vec::new();
    out.push(border_paint(area, " Search ", theme, color(theme.border.as_str())));
    assert(scene::paints_view(out@) =~= seq![
        scene::bordered(area, " Search "@, theme@, style::color_of(theme@.border)),
    ]);
    if field.width == 0 || field.height == 0 {
        return out;
    }
    let before = p.query.before();
    let column: usize = str_width(before.as_str());
    let want: usize = column.saturating_sub(field.width as usize - 1);
    let v = chars_of(p.query.text.as_str());
    let mut gone: u128 = 0;
    let mut k: usize = 0;
    while k < v.len() && gone < want as u128
        invariant
            k <= v@.len(),
            v@ == p.query.text@,
            gone <= want + 3,
            query_start(v@, want as int, 0, 0) == query_start(
                v@,
                want as int,
                k as int,
                gone as int,
            ),
        decreases v@.len() - k,
    {
        let c: char = v[k];
        let n: usize = cell_width(c);
        gone = gone + n as u128;
        k = k + 1;
    }
    let shown = string_of(&v, k, v.len());
    assert(shown@ =~= p.query.text@.skip(k as int));
    paint(&mut out, text_paint(field, shown.as_str(), Style::new(), false));
    if focused {
        let left: usize = if gone >= column as u128 {
            0
        } else {
            column - gone as usize
        };
        let x: u16 = add16(field.x, to16(left));
        paint(&mut out, Paint::Cursor { x, y: field.y });
    }
    out
}

/// The row of a choice.
fn choice_line(p: &Picker, position: usize, theme: &Theme) -> (r: Line)
    requires
        p.wf(),
        position < p.matches@.len(),
    ensures
        r@ == choice_row(
            p.choices@[p.matches@[position as int] as int]@,
            position == p.selected,
            theme@,
        ),
{
    let choice = &p.choices[p.matches[position]];
    let label = if position == p.selected {
        button(choice.label.as_str(), theme)
    } else {
        Span::raw(choice.label.as_str())
    };
    let mut spans: Vec<Span> = Vec::new();
    match choice.enabled {
        Some(on) => {
            spans.push(
                Span::styled(
                    if on {
                        "[on ] ".to_owned()
                    } else {
                        "[off] ".to_owned()
                    },
                    Style::new().fg(
                        if on {
                            color(theme.success.as_str())
                        } else {
                            color(theme.muted.as_str())
                        },
                    ),
                ),
            );
        },
        None => {},
    }
    spans.push(label);
    proof {
        let want = choice_row(
            p.choices@[p.matches@[position as int] as int]@,
            position == p.selected,
            theme@,
        );
        assert(style::spans_view(spans@) =~= want.spans);
    }
    Line::from_spans(spans)
}

/// The rows of a list in view.
fn list_lines(p: &Picker, height: usize, theme: &Theme) -> (r: Vec<Line>)
    requires
        p.wf(),
    ensures
        style::lines_view(r@) == list_rows(*p, height as int, theme@),
{
    let n: usize = p.matches.len();
    let a: usize = p.selected.saturating_sub(height / 2);
    let b: usize = n.saturating_sub(height);
    let start: usize = if a < b {
        a
    } else {
        b
    };
    let count: usize = if n - start < height {
        n - start
    } else {
        height
    };
    let ghost want = list_rows(*p, height as int, theme@);
    let mut out: Vec<Line> = Vec::new();
    let mut i: usize = 0;
    assert(style::lines_view(out@) =~= want.take(0));
    while i < count
        invariant
            p.wf(),
            i <= count,
            start + count <= n,
            n == p.matches@.len(),
            want.len() == count,
            start == list_start(p.selected as int, height as int, n as int),
            want == list_rows(*p, height as int, theme@),
            style::lines_view(out@) == want.take(i as int),
        decreases count - i,
    {
        let line = choice_line(p, start + i, theme);
        proof {
            assert(want[i as int] == line@);
            style::lemma_lines_push(out@, line);
            assert(want.take(i + 1) =~= want.take(i as int).push(line@));
        }
        out.push(line);
        i = i + 1;
    }
    assert(want.take(i as int) =~= want);
    out
}

/// Draws a dialog in an area that is split into its four parts.
pub fn draw_picker(p: &Picker, theme: &Theme, area: Rect, parts: &Vec<Rect>, focused: bool) -> (r:
    Vec<Paint>)
    requires
        p.wf(),
        parts@.len() == 4,
    ensures
        scene::paints_view(r@) == dialog_scene(*p, area, parts@, focused, theme@),
{
    let muted = Style::new().fg(color(theme.muted.as_str()));
    let mut out: Vec<Paint> = Vec::new();
    let matching = count_text(p.matches.len());
    let all = count_text(p.choices.len());
    let title = text3(
        text3(
            text3(" ", p.title(), " (").as_str(),
            matching.as_str(),
            "/",
        ).as_str(),
        all.as_str(),
        ") ",
    );
    let bottom = String::new();
    assert(bottom@ =~= Seq::<char>::empty());
    out.push(Paint::Clear { area });
    out.push(
        Paint::Border {
            area,
            title,
            bottom,
            all: true,
            ascii: theme.ascii,
            border: Style::new().fg(color(theme.accent.as_str())),
            style: Style::new().bg(color(theme.background.as_str())).fg(
                color(theme.foreground.as_str()),
            ),
        },
    );
    let ghost head = scene::paints_view(out@);
    let mut search = draw_search(p, parts[0], focused, theme);
    let ghost middle = scene::paints_view(search@);
    let list = if p.matches.len() == 0 {
        text_paint(parts[1], "No matching entries", muted, false)
    } else {
        rows_paint(parts[1], list_lines(p, parts[1].height as usize, theme))
    };
    let hint = p.hint();
    let mut spans: Vec<Span> = Vec::new();
    spans.push(
        button(
            match p.kind {
                PickerKind::Mcps => " Enter Toggle ",
                _ => " Enter Select ",
            },
            theme,
        ),
    );
    spans.push(Span::raw(" Up/Down browse | PgUp/PgDn | Esc close"));
    let mut lines: Vec<Line> = Vec::new();
    lines.push(Line::from_spans(spans));
    let mut tail: Vec<Paint> = Vec::new();
    tail.push(list);
    tail.push(text_paint(parts[2], hint.as_str(), muted, false));
    tail.push(rows_paint(parts[3], lines));
    proof {
        let want = dialog_scene(*p, area, parts@, focused, theme@);
        let k = 2 + middle.len() as int;
        assert(head =~= want.take(2));
        assert(style::spans_view(spans@) =~= want[k + 2]->Text_lines[0].spans);
        assert(style::lines_view(lines@) =~= want[k + 2]->Text_lines);
        assert(scene::paints_view(tail@) =~= want.skip(k));
    }
    let ghost end = scene::paints_view(tail@);
    out.append(&mut search);
    assert(scene::paints_view(out@) =~= head + middle);
    out.append(&mut tail);
    assert(scene::paints_view(out@) =~= head + middle + end);
    assert(scene::paints_view(out@) =~= dialog_scene(*p, area, parts@, focused, theme@));
    out
}

// ---------------------------------------------------------------------------
// Overlays
// ---------------------------------------------------------------------------

/// The place of an overlay: five sixths of the area, a twelfth from its left
/// and its top.
pub open spec fn overlay_area(area: Rect) -> Rect {
    Rect {
        x: artwork::cells16(area.x + area.width / 12),
        y: artwork::cells16(area.y + area.height / 12),
        width: (area.width * 5 / 6) as u16,
        height: (area.height * 5 / 6) as u16,
    }
}

/// An overlay in an area, with the row of its choices and the area of its
/// text. The text is scrolled, but not past its end.
pub open spec fn overlay_scene(
    title: Seq<char>,
    body: Seq<char>,
    choices: Option<Seq<char>>,
    scroll: int,
    area: Rect,
    parts: Seq<Rect>,
    theme: ThemeView,
) -> Seq<PaintView> {
    let rows = wrap::hard_wrapped(
        markdown::markdown_rows(body, theme, style::color_of(theme.foreground)),
        wrap::at_least_one(parts[1].width as int),
    );
    let most = short_of(rows.len() as int, parts[1].height as int);
    let offset = if scroll < most {
        scroll
    } else {
        most
    };
    let frame = seq![
        PaintView::Clear { area },
        PaintView::Border {
            area,
            title: text::clean_text(title, false),
            bottom: " PgUp/PgDn scroll "@,
            all: true,
            ascii: theme.ascii,
            border: Style::colored(
                style::color_of(
                    if choices is Some {
                        theme.warning
                    } else {
                        theme.accent
                    },
                ),
            ),
            style: Style { bg: Some(style::color_of(theme.background)), ..Style::plain() },
        },
    ];
    let framed = match choices {
        Some(c) => frame.push(
            scene::rows_at(
                parts[0],
                seq![style::plain_line(seq![scene::button_span(c, theme)])],
            ),
        ),
        None => frame,
    };
    framed.push(scene::rows_at(parts[1], past(rows, offset)))
}

/// What the overlay of a finished workflow says.
pub open spec fn complete_text(app: App) -> Seq<char> {
    let base = "n: start a new workflow\nr: repeat this workflow\nq: exit workflow mode"@;
    match app.queue_blocked {
        Some(blocked) => base + "\n\nQueue blocked ("@ + text::decimal(blocked.pending as nat)
            + " message(s) pending):\n"@ + blocked.error@
            + "\n\nPress Enter to retry the front message."@,
        None => base,
    }
}

/// The answers to an approval.
pub open spec fn approval_choices(workflow: bool) -> Seq<char> {
    if workflow {
        " y Continue | r Retry | s Skip | q Abort "@
    } else {
        " y Yes | n No | q Abort "@
    }
}

/// The place of an overlay.
pub fn overlay_place(area: Rect) -> (r: Rect)
    ensures
        r == overlay_area(area),
{
    Rect {
        x: add16(area.x, area.width / 12),
        y: add16(area.y, area.height / 12),
        width: (area.width as u32 * 5 / 6) as u16,
        height: (area.height as u32 * 5 / 6) as u16,
    }
}

/// Draws an overlay in an area that is split into its two parts.
pub fn draw_overlay(
    title: &str,
    body: &str,
    choices: Option<&str>,
    scroll: usize,
    theme: &Theme,
    area: Rect,
    parts: &Vec<Rect>,
) -> (r: Vec<Paint>)
    requires
        parts@.len() == 2,
    ensures
        scene::paints_view(r@) == overlay_scene(
            title@,
            body@,
            crate::model::opt_view(choices),
            scroll as int,
            area,
            parts@,
            theme@,
        ),
{
    let styled = markdown(body, theme, color(theme.foreground.as_str()));
    let rows = wrap_lines(&styled, parts[1].width as usize);
    assert(style::lines_view(rows@).len() == rows@.len());
    let most: usize = rows.len().saturating_sub(parts[1].height as usize);
    let offset: usize = if scroll < most {
        scroll
    } else {
        most
    };
    let clean = sanitize_terminal_text(title, false);
    let mut out: Vec<Paint> = Vec::new();
    out.push(Paint::Clear { area });
    out.push(
        Paint::Border {
            area,
            title: clean,
            bottom: " PgUp/PgDn scroll ".to_owned(),
            all: true,
            ascii: theme.ascii,
            border: Style::new().fg(
                if choices.is_some() {
                    color(theme.warning.as_str())
                } else {
                    color(theme.accent.as_str())
                },
            ),
            style: Style::new().bg(color(theme.background.as_str())),
        },
    );
    let ghost want = overlay_scene(
        title@,
        body@,
        crate::model::opt_view(choices),
        scroll as int,
        area,
        parts@,
        theme@,
    );
    assert(scene::paints_view(out@) =~= want.take(2));
    if let Some(c) = choices {
        let mut spans: Vec<Span> = Vec::new();
        spans.push(button(c, theme));
        assert(style::spans_view(spans@) =~= seq![scene::button_span(c@, theme@)]);
        let mut lines: Vec<Line> = Vec::new();
        lines.push(Line::from_spans(spans));
        assert(style::lines_view(lines@) =~= seq![
            style::plain_line(seq![scene::button_span(c@, theme@)]),
        ]);
        paint(&mut out, rows_paint(parts[0], lines));
        assert(scene::paints_view(out@) =~= want.take(3));
    }
    paint(&mut out, rows_paint(parts[1], drop_rows(rows, offset)));
    assert(scene::paints_view(out@) =~= want);
    out
}

/// What the overlay of a finished workflow says.
pub fn complete_body(app: &App) -> (r: String)
    ensures
        r@ == complete_text(*app),
{
    let base = "n: start a new workflow\nr: repeat this workflow\nq: exit workflow mode";
    match &app.queue_blocked {
        Some(blocked) => {
            let pending = count_text(blocked.pending);
            text2(
                text3(
                    text3(base, "\n\nQueue blocked (", pending.as_str()).as_str(),
                    " message(s) pending):\n",
                    blocked.error.as_str(),
                ).as_str(),
                "\n\nPress Enter to retry the front message.",
            )
        },
        None => base.to_owned(),
    }
}

} // verus!
