//! What holds of a frame: the cursor stands where the next letter goes, the
//! selected row is in view, what is on top is painted last, and what the user
//! has to know is there to be read.
use crate::app::App;
use crate::artwork;
use crate::commands;
use crate::draw;
use crate::draw::{Plan, Regions};
use crate::keys;
use crate::model::ThemeView;
use crate::panes;
use crate::picker::Picker;
use crate::renderer::Rect;
use crate::result_laws;
use crate::runs;
use crate::scene;
use crate::scene::PaintView;
use crate::style;
use crate::style::{LineView, SpanView, Style};
use crate::text;
use crate::width;
use crate::wrap;
use crate::wrap::Flow;
use vstd::prelude::*;

verus! {

/// No character of the text is a line break, a tab or unsafe in a terminal.
pub open spec fn plain_text(s: Seq<char>) -> bool {
    forall|i: int| 0 <= i < s.len() ==> !text::hostile(#[trigger] s[i])
}

proof fn lemma_plain(s: Seq<char>)
    requires
        plain_text(s),
    ensures
        forall|i: int| 0 <= i < s.len() ==> #[trigger] s[i] != '\n' && s[i] != '\t',
{
    assert(text::hostile('\n') && text::hostile('\t'));
}

/// The spans of a plain text: the text itself, if there is any.
proof fn lemma_raw_spans(s: Seq<char>)
    requires
        plain_text(s),
    ensures
        s.len() > 0 ==> style::raw_spans(s) == seq![SpanView { content: s, style: Style::plain() }],
        s.len() == 0 ==> style::raw_spans(s) == Seq::<SpanView>::empty(),
{
    lemma_plain(s);
    text::lemma_split_whole(s, '\n');
    if s.len() > 0 {
        assert(style::raw_spans(s) =~= seq![SpanView { content: s, style: Style::plain() }]);
    } else {
        assert(style::raw_spans(s) =~= Seq::<SpanView>::empty());
    }
}

proof fn lemma_styled_text(s: Seq<char>, st: Style)
    requires
        plain_text(s),
    ensures
        style::styled_line(s, st).text() == s,
{
    lemma_raw_spans(s);
    reveal_with_fuel(style::span_text, 2);
    let spans = style::raw_spans(s);
    if s.len() > 0 {
        assert(spans.drop_last() =~= Seq::<SpanView>::empty());
        assert(style::span_text(spans) =~= s);
    } else {
        assert(style::span_text(spans) =~= s);
    }
}

// ---------------------------------------------------------------------------
// The cursor of the composer
// ---------------------------------------------------------------------------

/// Nothing has been filled yet.
pub open spec fn no_flow() -> Flow {
    Flow { rows: Seq::empty(), spans: Seq::empty(), used: 0, text: Seq::empty() }
}

pub proof fn lemma_one_row(s: Seq<char>, st: Style, limit: int)
    requires
        plain_text(s),
        wrap::cell_sum(s) <= limit,
    ensures
        no_flow().characters(s, st, limit) == (Flow {
            rows: Seq::empty(),
            spans: Seq::empty(),
            used: wrap::cell_sum(s),
            text: s,
        }),
    decreases s.len(),
{
    if s.len() > 0 {
        lemma_plain(s);
        let front = s.drop_last();
        assert forall|i: int| 0 <= i < front.len() implies !text::hostile(#[trigger] front[i]) by {
            assert(s[i] == front[i]);
        }
        lemma_one_row(front, st, limit);
        assert(s[s.len() - 1] == s.last());
        assert(front.push(s.last()) =~= s);
    } else {
        assert(s =~= Seq::<char>::empty());
    }
}

proof fn lemma_composer_row(s: Seq<char>, cells: int)
    requires
        plain_text(s),
        cells >= 1,
        wrap::cell_sum(s) <= cells,
    ensures
        ({
            let rows = panes::composer_rows(s, cells);
            &&& rows.len() == 1
            &&& s.len() > 0 ==> rows[0].spans == seq![
                SpanView { content: s, style: Style::plain().patched(Style::plain()) },
            ]
            &&& s.len() == 0 ==> rows[0].spans.len() == 0
        }),
{
    let st = Style::plain().patched(Style::plain());
    let line = style::styled_line(s, Style::plain());
    lemma_raw_spans(s);
    lemma_one_row(s, st, cells);
    let all = seq![line];
    assert(all.drop_last() =~= Seq::<LineView>::empty());
    assert(wrap::hard_wrapped(all.drop_last(), cells) =~= Seq::<LineView>::empty());
    let f = wrap::flow_spans(line.spans, line.style, cells);
    if s.len() > 0 {
        assert(line.spans.drop_last() =~= Seq::<SpanView>::empty());
        assert(wrap::flow_spans(line.spans.drop_last(), line.style, cells) == no_flow());
        let g = no_flow().characters(s, st, cells);
        assert(f == g.closed_span(st));
        assert(f.spans =~= seq![SpanView { content: s, style: st }]);
    } else {
        assert(f == no_flow());
    }
    let row = style::plain_line(f.spans);
    assert(wrap::hard_wrapped_line(line, cells) =~= seq![row]);
    assert(panes::composer_rows(s, cells) =~= seq![row]);
}

/// The cursor of the composer stands right behind the text in front of it, as
/// long as that is less than a row: as many cells to the right of the border as
/// the text is wide.
pub proof fn law_caret_stands_behind_the_text(app: App, area: Rect)
    requires
        app.approval is None && !app.help && app.picker is None,
        0 <= app.input.at() <= app.input.text@.len(),
        area.width > 2 && area.height > 2,
        area.x + area.width <= u16::MAX,
        area.y + area.height <= u16::MAX,
        ({
            let before = app.input.text@.take(app.input.at());
            &&& plain_text(before)
            &&& wrap::cell_sum(before) <= area.width - 2
            &&& width::text_width(before) < area.width - 2
            &&& before.len() == 0 ==> width::text_width(before) == 0
        }),
    ensures
        panes::input_scene(app, area).last() == (PaintView::Cursor {
            x: (area.x + 1 + width::text_width(app.input.text@.take(app.input.at()))) as u16,
            y: (area.y + 1) as u16,
        }),
{
    let before = app.input.text@.take(app.input.at());
    let cells = area.width - 2;
    let rows = panes::composer_rows(before, cells);
    lemma_composer_row(before, cells);
    assert(scene::within(area).width == cells);
    reveal_with_fuel(style::spans_width, 2);
    if before.len() > 0 {
        assert(rows[0].spans.drop_last() =~= Seq::<SpanView>::empty());
        assert(style::spans_width(rows[0].spans) == width::text_width(before));
    } else {
        assert(style::spans_width(rows[0].spans) == 0);
    }
    assert(panes::caret(before, cells) == (0int, width::text_width(before) as int));
}

proof fn lemma_solid_tail(content: Seq<char>, st: Style, limit: int, n: int)
    requires
        limit >= 1,
        0 < n <= content.len(),
        wrap::solid_run(content),
    ensures
        ({
            let f = no_flow().characters(content.take(n), st, limit);
            &&& f.spans.len() == 0
            &&& 0 < f.text.len() <= limit
            &&& f.used == f.text.len()
            &&& n == f.rows.len() * limit + f.text.len()
            &&& f.text == content.subrange(n - f.text.len(), n)
        }),
    decreases n,
{
    let part = content.take(n);
    let c = content[n - 1];
    assert(wrap::solid(c));
    assert(text::hostile('\t') && text::hostile('\n'));
    assert(part.drop_last() =~= content.take(n - 1));
    assert(part.last() == c);
    let f = no_flow().characters(part, st, limit);
    if n == 1 {
        assert(content.take(0) =~= Seq::<char>::empty());
        assert(no_flow().characters(content.take(0), st, limit) == no_flow());
        assert(f.text =~= content.subrange(0, 1));
        assert(f.rows.len() * limit == 0) by (nonlinear_arith)
            requires
                f.rows.len() == 0,
        ;
    } else {
        lemma_solid_tail(content, st, limit, n - 1);
        let h = no_flow().characters(content.take(n - 1), st, limit);
        if h.used + 1 > limit {
            assert(f.text =~= content.subrange(n - 1, n));
            assert((h.rows.len() + 1) * limit == h.rows.len() * limit + limit) by (nonlinear_arith);
        } else {
            assert(f.text =~= content.subrange(n - 1 - h.text.len(), n));
        }
    }
}

/// Text without gaps fills row after row. The cursor is in the row that the
/// last of it is in, right behind it, and behind a full row at the start of the
/// next one.
pub proof fn law_caret_follows_into_the_next_row(before: Seq<char>, cells: int, k: int)
    requires
        before.len() > 0,
        wrap::solid_run(before),
        cells >= 1,
        k >= 0,
        k * cells < before.len() <= (k + 1) * cells,
    ensures
        ({
            let tail = before.skip(k * cells);
            &&& width::text_width(tail) < cells ==> panes::caret(before, cells) == (
                k,
                width::text_width(tail) as int,
            )
            &&& width::text_width(tail) >= cells ==> panes::caret(before, cells) == (k + 1, 0int)
        }),
{
    assert forall|i: int| 0 <= i < before.len() implies !text::hostile(#[trigger] before[i]) by {
        assert(wrap::solid(before[i]));
    }
    let st = Style::plain().patched(Style::plain());
    let line = style::styled_line(before, Style::plain());
    let n = before.len() as int;
    lemma_raw_spans(before);
    lemma_solid_tail(before, st, cells, n);
    assert(before.take(n) =~= before);
    let g = no_flow().characters(before, st, cells);
    let m = g.rows.len() as int;
    assert(m == k) by (nonlinear_arith)
        requires
            k * cells < n <= (k + 1) * cells,
            n == m * cells + g.text.len(),
            0 < g.text.len() <= cells,
            cells >= 1,
            k >= 0,
            m >= 0,
    ;
    assert(g.text =~= before.skip(k * cells));
    assert(line.spans.drop_last() =~= Seq::<SpanView>::empty());
    assert(wrap::flow_spans(line.spans.drop_last(), line.style, cells) == no_flow());
    let f = wrap::flow_spans(line.spans, line.style, cells);
    assert(f == g.closed_span(st));
    assert(f.spans =~= seq![SpanView { content: g.text, style: st }]);
    let all = seq![line];
    assert(all.drop_last() =~= Seq::<LineView>::empty());
    assert(wrap::hard_wrapped(all.drop_last(), cells) =~= Seq::<LineView>::empty());
    let rows = panes::composer_rows(before, cells);
    assert(rows =~= f.rows.push(style::plain_line(f.spans)));
    reveal_with_fuel(style::spans_width, 2);
    assert(f.spans.drop_last() =~= Seq::<SpanView>::empty());
    assert(style::spans_width(rows.last().spans) == width::text_width(g.text));
}

/// The composer shows all of its text while that has room, and a command in the
/// accent of the theme.
pub proof fn law_composer_shows_the_text(app: App, area: Rect)
    requires
        0 <= app.input.at() <= app.input.text@.len(),
        area.width > 2 && area.height > 2,
        plain_text(app.input.text@),
        wrap::cell_sum(app.input.text@) <= area.width - 2,
        plain_text(app.input.text@.take(app.input.at())),
        wrap::cell_sum(app.input.text@.take(app.input.at())) <= area.width - 2,
        width::text_width(app.input.text@.take(app.input.at())) < area.width - 2,
    ensures
        panes::input_scene(app, area)[1] matches PaintView::Text { lines, .. } && lines.len() == 1
            && lines[0].text() == app.input.text@ && (runs::is_command(app.input.text@) ==> lines[0].style.fg
            == Some(style::color_of(app.theme@.accent))) && (!runs::is_command(app.input.text@)
            ==> lines[0].style.fg is None),
{
    let s = app.input.text@;
    let before = s.take(app.input.at());
    let cells = area.width - 2;
    assert(scene::within(area).width == cells);
    lemma_composer_row(s, cells);
    lemma_composer_row(before, cells);
    reveal_with_fuel(style::spans_width, 2);
    reveal_with_fuel(style::span_text, 2);
    let rows = panes::composer_rows(s, cells);
    let front = panes::composer_rows(before, cells);
    if before.len() > 0 {
        assert(front[0].spans.drop_last() =~= Seq::<SpanView>::empty());
    }
    assert(panes::caret(before, cells).0 == 0);
    if s.len() > 0 {
        assert(rows[0].spans.drop_last() =~= Seq::<SpanView>::empty());
    }
    assert(rows[0].text() =~= s);
    let shown = panes::shown_input(app, cells);
    assert(shown.len() == 1 && shown[0].spans == rows[0].spans);
    assert(panes::past(shown, 0) =~= shown);
}

/// The search field shows the query and the cursor right behind what is in
/// front of it, as long as that is less than the field.
pub proof fn law_search_cursor_stands_behind_the_text(p: Picker, area: Rect, theme: ThemeView)
    requires
        area.width > 2 && area.height > 2,
        area.x + area.width <= u16::MAX,
        area.y + area.height <= u16::MAX,
        width::text_width(p.query.text@.take(p.query.at())) < area.width - 2,
    ensures
        panes::search_scene(p, area, true, theme).last() == (PaintView::Cursor {
            x: (area.x + 1 + width::text_width(p.query.text@.take(p.query.at()))) as u16,
            y: (area.y + 1) as u16,
        }),
        panes::search_scene(p, area, true, theme)[1] == scene::text_at(
            scene::within(area),
            p.query.text@,
            Style::plain(),
            false,
        ),
{
    assert(p.query.text@.skip(0) =~= p.query.text@);
}

// ---------------------------------------------------------------------------
// Dialogs and overlays
// ---------------------------------------------------------------------------

/// The selected row of a dialog is in view, and it alone is marked.
pub proof fn law_selected_row_is_in_view(p: Picker, height: int, theme: ThemeView)
    requires
        p.wf(),
        p.matches@.len() > 0,
        height >= 1,
    ensures
        ({
            let rows = panes::list_rows(p, height, theme);
            let start = panes::list_start(p.selected as int, height, p.matches@.len() as int);
            let marked = Some(style::color_of(theme.cta_background));
            &&& start <= p.selected < start + rows.len()
            &&& rows.len() == if p.matches@.len() < height {
                p.matches@.len() as int
            } else {
                height
            }
            &&& forall|i: int|
                0 <= i < rows.len() ==> (#[trigger] rows[i]).spans.last().content
                    == p.choices@[p.matches@[start + i] as int].label@
            &&& forall|i: int|
                0 <= i < rows.len() ==> ((#[trigger] rows[i]).spans.last().style.bg == marked
                    <==> start + i == p.selected)
        }),
{
    let start = panes::list_start(p.selected as int, height, p.matches@.len() as int);
    let rows = panes::list_rows(p, height, theme);
    assert forall|i: int| 0 <= i < rows.len() implies {
        &&& (#[trigger] rows[i]).spans.last().content
            == p.choices@[p.matches@[start + i] as int].label@
        &&& rows[i].spans.last().style.bg == Some(style::color_of(theme.cta_background))
            <==> start + i == p.selected
    } by {
        let c = p.choices@[p.matches@[start + i] as int]@;
        assert(rows[i] == panes::choice_row(c, start + i == p.selected, theme));
    }
}

/// The row of a server says whether it is on.
pub proof fn law_rows_say_what_is_on(c: crate::picker::ChoiceView, on: bool, theme: ThemeView, sel: bool)
    requires
        c.enabled == Some(on),
    ensures
        panes::choice_row(c, sel, theme).spans.len() == 2,
        panes::choice_row(c, sel, theme).spans[0].content == "[on ] "@ <==> on,
        panes::choice_row(c, sel, theme).spans[0].content == "[off] "@ <==> !on,
        on ==> panes::choice_row(c, sel, theme).spans[0].style.fg == Some(style::color_of(theme.success)),
        !on ==> panes::choice_row(c, sel, theme).spans[0].style.fg == Some(style::color_of(theme.muted)),
        panes::choice_row(c, sel, theme).spans[1].content == c.label,
        sel ==> panes::choice_row(c, sel, theme).spans[1].style.bg == Some(
            style::color_of(theme.cta_background),
        ),
        !sel ==> panes::choice_row(c, sel, theme).spans[1].style.bg is None,
{
    reveal_strlit("[on ] ");
    reveal_strlit("[off] ");
    assert("[on ] "@[2] != "[off] "@[2]);
}

/// A dialog says how many of its rows match, and says so if none does.
pub proof fn law_dialogs_count_their_rows(p: Picker, area: Rect, parts: Seq<Rect>, theme: ThemeView)
    ensures
        ({
            let paint = panes::dialog_scene(p, area, parts, false, theme);
            &&& paint[1] matches PaintView::Border { title, .. } && result_laws::shown_in(
                "("@ + text::decimal(p.matches@.len()) + "/"@ + text::decimal(p.choices@.len()) + ")"@,
                title,
            )
            &&& p.matches@.len() == 0 ==> paint.contains(
                scene::text_at(
                    parts[1],
                    "No matching entries"@,
                    Style::colored(style::color_of(theme.muted)),
                    false,
                ),
            )
            &&& p.matches@.len() > 0 ==> paint.contains(
                scene::rows_at(parts[1], panes::list_rows(p, parts[1].height as int, theme)),
            )
        }),
{
    let paint = panes::dialog_scene(p, area, parts, false, theme);
    let n = text::decimal(p.matches@.len());
    let m = text::decimal(p.choices@.len());
    let title = panes::dialog_title(p);
    reveal_strlit(" (");
    reveal_strlit("(");
    reveal_strlit(") ");
    reveal_strlit(")");
    reveal_strlit(" ");
    assert(" ("@ =~= " "@ + "("@);
    assert(") "@ =~= ")"@ + " "@);
    let part = "("@ + n + "/"@ + m + ")"@;
    let front = " "@ + crate::picker::title_of(p) + " "@;
    assert(title =~= front + part + " "@);
    assert(title.subrange(front.len() as int, (front.len() + part.len()) as int) =~= part);
    let k = 2 + panes::search_scene(p, parts[0], false, theme).len();
    assert(paint[1] == panes::dialog_scene(p, area, parts, false, theme)[1]);
    assert(paint[k as int] == if p.matches@.len() == 0 {
        scene::text_at(
            parts[1],
            "No matching entries"@,
            Style::colored(style::color_of(theme.muted)),
            false,
        )
    } else {
        scene::rows_at(parts[1], panes::list_rows(p, parts[1].height as int, theme))
    });
}

/// A dialog stands in the middle of what it lies over.
pub proof fn law_dialogs_are_centred(area: Rect)
    requires
        area.x + area.width <= u16::MAX,
        area.y + area.height <= u16::MAX,
    ensures
        ({
            let d = panes::dialog_area(area);
            let left = d.x - area.x;
            let right = area.x + area.width - d.x - d.width;
            let top = d.y - area.y;
            let bottom = area.y + area.height - d.y - d.height;
            &&& 0 <= left <= right <= left + 1
            &&& 0 <= top <= bottom <= top + 1
            &&& area.width <= 100 ==> d.width == area.width
            &&& area.height <= 24 ==> d.height == area.height
            &&& d.width <= 100 && d.height <= 24
        }),
{
}

/// The rows of an overlay start where it is scrolled to, but some of them always
/// fill it: scrolled as far as it goes, it ends with the last row.
pub proof fn law_overlays_scroll_to_their_end(
    title: Seq<char>,
    body: Seq<char>,
    choices: Option<Seq<char>>,
    area: Rect,
    parts: Seq<Rect>,
    theme: ThemeView,
    scroll: int,
)
    requires
        parts.len() == 2,
        parts[1].height >= 1,
        scroll >= 0,
    ensures
        ({
            let rows = wrap::hard_wrapped(
                crate::markdown::markdown_rows(body, theme, style::color_of(theme.foreground)),
                wrap::at_least_one(parts[1].width as int),
            );
            let h = parts[1].height as int;
            panes::overlay_scene(title, body, choices, scroll, area, parts, theme).last() matches PaintView::Text {
                lines,
                ..
            } && (scroll == 0 && rows.len() > 0 ==> lines == rows) && (rows.len() > h && scroll
                >= rows.len() ==> lines == rows.skip(rows.len() - h)) && (scroll + h <= rows.len()
                ==> lines == rows.skip(scroll)) && (rows.len() <= h && rows.len() > 0 ==> lines == rows)
        }),
{
    let rows = wrap::hard_wrapped(
        crate::markdown::markdown_rows(body, theme, style::color_of(theme.foreground)),
        wrap::at_least_one(parts[1].width as int),
    );
    assert(rows.skip(0) =~= rows);
}

/// An approval shows its title, and the answers that it can be given.
pub proof fn law_approvals_show_their_answers(
    title: Seq<char>,
    body: Seq<char>,
    workflow: bool,
    area: Rect,
    parts: Seq<Rect>,
    theme: ThemeView,
)
    requires
        plain_text(title),
    ensures
        ({
            let answers = panes::approval_choices(workflow);
            let paint = panes::overlay_scene(title, body, Some(answers), 0, area, parts, theme);
            &&& paint[1] matches PaintView::Border { title: t, .. } && t == title
            &&& paint[2] matches PaintView::Text { lines, .. } && lines.len() == 1
                && lines[0].text() == answers
            &&& result_laws::shown_in("q Abort"@, answers)
            &&& workflow ==> result_laws::shown_in("y Continue"@, answers)
                && result_laws::shown_in("r Retry"@, answers) && result_laws::shown_in(
                "s Skip"@,
                answers,
            )
            &&& !workflow ==> result_laws::shown_in("y Yes"@, answers) && result_laws::shown_in(
                "n No"@,
                answers,
            )
        }),
{
    lemma_clean_plain(title, false);
    let answers = panes::approval_choices(workflow);
    reveal_with_fuel(style::span_text, 2);
    let spans = seq![scene::button_span(answers, theme)];
    assert(spans.drop_last() =~= Seq::<SpanView>::empty());
    assert(style::span_text(spans) =~= answers);
    lemma_answers(workflow);
}

proof fn lemma_step_answers()
    ensures
        ({
            let answers = " y Continue | r Retry | s Skip | q Abort "@;
            &&& result_laws::shown_in("y Continue"@, answers)
            &&& result_laws::shown_in("r Retry"@, answers)
            &&& result_laws::shown_in("s Skip"@, answers)
            &&& result_laws::shown_in("q Abort"@, answers)
        }),
{
    let answers = " y Continue | r Retry | s Skip | q Abort "@;
    reveal_strlit(" y Continue | r Retry | s Skip | q Abort ");
    reveal_strlit("q Abort");
    reveal_strlit("y Continue");
    reveal_strlit("r Retry");
    reveal_strlit("s Skip");
    assert(answers.subrange(1int, 1int + "y Continue"@.len()) =~= "y Continue"@);
    assert(answers.subrange(14int, 14int + "r Retry"@.len()) =~= "r Retry"@);
    assert(answers.subrange(24int, 24int + "s Skip"@.len()) =~= "s Skip"@);
    assert(answers.subrange(33int, 33int + "q Abort"@.len()) =~= "q Abort"@);
}

proof fn lemma_answers(workflow: bool)
    ensures
        ({
            let answers = panes::approval_choices(workflow);
            &&& result_laws::shown_in("q Abort"@, answers)
            &&& workflow ==> result_laws::shown_in("y Continue"@, answers)
                && result_laws::shown_in("r Retry"@, answers) && result_laws::shown_in(
                "s Skip"@,
                answers,
            )
            &&& !workflow ==> result_laws::shown_in("y Yes"@, answers) && result_laws::shown_in(
                "n No"@,
                answers,
            )
        }),
{
    if workflow {
        lemma_step_answers();
    } else {
        let answers = " y Yes | n No | q Abort "@;
        reveal_strlit(" y Yes | n No | q Abort ");
        reveal_strlit("q Abort");
        reveal_strlit("y Yes");
        reveal_strlit("n No");
        assert(answers.subrange(1int, 1int + "y Yes"@.len()) =~= "y Yes"@);
        assert(answers.subrange(9int, 9int + "n No"@.len()) =~= "n No"@);
        assert(answers.subrange(16int, 16int + "q Abort"@.len()) =~= "q Abort"@);
    }
}

proof fn lemma_clean_plain(s: Seq<char>, multiline: bool)
    requires
        plain_text(s),
    ensures
        text::clean_text(s, multiline) == s,
    decreases s.len(),
{
    if s.len() > 0 {
        let front = s.drop_last();
        assert forall|i: int| 0 <= i < front.len() implies !text::hostile(#[trigger] front[i]) by {
            assert(s[i] == front[i]);
        }
        lemma_clean_plain(front, multiline);
        lemma_plain(s);
        assert(s[s.len() - 1] == s.last());
        assert(front.push(s.last()) =~= s);
    } else {
        assert(s =~= Seq::<char>::empty());
    }
}

/// What the keyboard talks to is painted last, over everything else.
pub proof fn law_top_pane_is_painted_last(app: App, p: Plan, g: Regions)
    ensures
        ({
            let paint = draw::modal_scene(app, p, g);
            let theme = app.theme@;
            let scroll = app.overlay_scroll as int;
            let place = panes::overlay_area(p.content);
            let last = match keys::top_pane(app) {
                keys::Pane::Approval => panes::overlay_scene(
                    app.approval->0.title@,
                    app.approval->0.detail@,
                    Some(panes::approval_choices(app.approval->0.workflow)),
                    scroll,
                    place,
                    g.approval@,
                    theme,
                ),
                keys::Pane::Help => panes::overlay_scene(
                    "Help"@,
                    commands::HELP@,
                    None,
                    scroll,
                    place,
                    g.overlay@,
                    theme,
                ),
                keys::Pane::Complete => panes::overlay_scene(
                    "Workflow complete"@,
                    panes::complete_text(app),
                    None,
                    scroll,
                    place,
                    g.overlay@,
                    theme,
                ),
                keys::Pane::Dialog => panes::dialog_scene(
                    app.picker->0,
                    panes::dialog_area(p.content),
                    g.dialog@,
                    true,
                    theme,
                ),
                keys::Pane::Main => Seq::empty(),
            };
            last.len() <= paint.len() && paint.skip(paint.len() - last.len()) == last
        }),
{
    let paint = draw::modal_scene(app, p, g);
    let theme = app.theme@;
    let scroll = app.overlay_scroll as int;
    let place = panes::overlay_area(p.content);
    match keys::top_pane(app) {
        keys::Pane::Approval => {
            let last = panes::overlay_scene(
                app.approval->0.title@,
                app.approval->0.detail@,
                Some(panes::approval_choices(app.approval->0.workflow)),
                scroll,
                place,
                g.approval@,
                theme,
            );
            assert(paint.skip(paint.len() - last.len()) =~= last);
        },
        keys::Pane::Help => {
            let last = panes::overlay_scene(
                "Help"@,
                commands::HELP@,
                None,
                scroll,
                place,
                g.overlay@,
                theme,
            );
            assert(paint.skip(paint.len() - last.len()) =~= last);
        },
        keys::Pane::Complete => {
            let last = panes::overlay_scene(
                "Workflow complete"@,
                panes::complete_text(app),
                None,
                scroll,
                place,
                g.overlay@,
                theme,
            );
            assert(paint.skip(paint.len() - last.len()) =~= last);
        },
        keys::Pane::Dialog => {
            let last = panes::dialog_scene(
                app.picker->0,
                panes::dialog_area(p.content),
                g.dialog@,
                true,
                theme,
            );
            assert(paint.skip(paint.len() - last.len()) =~= last);
        },
        keys::Pane::Main => {
            assert(paint.skip(paint.len() as int) =~= Seq::<PaintView>::empty());
        },
    }
}

/// The overlay of a finished workflow says why the queue is blocked and how many
/// inputs wait, if it is.
pub proof fn law_blocked_queues_are_explained(app: App)
    requires
        app.queue_blocked is Some,
    ensures
        result_laws::shown_in(app.queue_blocked->0.error@, panes::complete_text(app)),
        result_laws::shown_in(
            text::decimal(app.queue_blocked->0.pending as nat) + " message(s) pending"@,
            panes::complete_text(app),
        ),
{
    let base = "n: start a new workflow\nr: repeat this workflow\nq: exit workflow mode"@;
    let blocked = app.queue_blocked->0;
    let n = text::decimal(blocked.pending as nat);
    let whole = panes::complete_text(app);
    let front = base + "\n\nQueue blocked ("@;
    reveal_strlit(" message(s) pending");
    reveal_strlit(" message(s) pending):\n");
    reveal_strlit("):\n");
    let middle = " message(s) pending"@;
    assert(" message(s) pending):\n"@ =~= middle + "):\n"@);
    let i = front.len() as int;
    assert(whole.subrange(i, i + (n + middle).len()) =~= n + middle);
    let before = front + n + " message(s) pending):\n"@;
    let j = before.len() as int;
    assert(whole.subrange(j, j + blocked.error@.len()) =~= blocked.error@);
}

// ---------------------------------------------------------------------------
// Header and footer
// ---------------------------------------------------------------------------

proof fn lemma_text_rows(s: Seq<char>)
    requires
        plain_text(s),
    ensures
        scene::text_rows(s).len() == 1,
        scene::text_rows(s)[0].text() == s,
{
    lemma_plain(s);
    lemma_styled_text(s, Style::plain());
    text::lemma_split_whole(s, '\n');
    if s.len() > 0 {
        assert(text::lines_of(s) =~= seq![s]);
    }
}

/// The footer shows the status line as it is, and what can be done now: a run in
/// flight can be cancelled, and without one an input can be sent.
pub proof fn law_footer_shows_the_status(app: App, status: Rect, left: Rect, right: Rect, path: u16)
    requires
        plain_text(app.status@),
    ensures
        ({
            let paint = panes::footer_scene(app, status, left, right, path);
            &&& paint.len() == 3
            &&& paint[0] matches PaintView::Text { area, lines, .. } && area == status && lines.len()
                == 1 && lines[0].text() == app.status@
            &&& paint[1] matches PaintView::Text { area, lines, .. } && area == left && lines.len()
                == 1 && (app.busy ==> lines[0].spans[0].content == " Ctrl+C Cancel "@) && (!app.busy
                ==> lines[0].spans[0].content == " Enter Send "@)
            &&& paint[2] matches PaintView::Text { area, right: r, .. } && area == right && r
        }),
{
    lemma_clean_plain(app.status@, false);
    lemma_text_rows(app.status@);
}

/// The footer shows the workspace, or as much of its end as there is room for.
pub proof fn law_footer_shows_the_workspace(app: App, status: Rect, left: Rect, right: Rect, path: u16)
    requires
        plain_text(app.workspace@),
        width::text_width(app.workspace@) <= path,
        path > 0,
    ensures
        panes::footer_scene(app, status, left, right, path)[2] matches PaintView::Text { lines, .. }
            && lines.len() == 1 && lines[0].text() == app.workspace@,
{
    lemma_text_rows(app.workspace@);
}

/// The header shows the model, the agent and the effort in use, and below them
/// what was spent and how full the context is; the cost has a warning color if
/// some of it is unknown.
pub proof fn law_header_shows_what_is_in_use(app: App, logo: Rect, top: Rect, bottom: Rect)
    requires
        ({
            let s = app.model_label@ + " | agent "@ + app.effective_agent_label@ + " | effort "@
                + app.effort_label@;
            plain_text(s) && width::text_width(s) <= top.width
        }),
        plain_text(
            app.spend.label@ + " | context "@ + text::decimal(app.context_tokens as nat) + "/"@
                + text::decimal(app.context_limit as nat),
        ),
    ensures
        ({
            let paint = scene::header_scene(app, logo, top, bottom);
            &&& paint[1] matches PaintView::Text { area, lines, .. } && area == top && lines.len() == 1
                && lines[0].text() == app.model_label@ + " | agent "@ + app.effective_agent_label@
                + " | effort "@ + app.effort_label@
            &&& paint[2] matches PaintView::Text { area, lines, style, .. } && area == bottom
                && lines.len() == 1 && lines[0].text() == app.spend.label@ + " | context "@
                + text::decimal(app.context_tokens as nat) + "/"@ + text::decimal(
                app.context_limit as nat,
            ) && (app.spend.unpriced_requests == 0 ==> style.fg == Some(
                style::color_of(app.theme@.success),
            )) && (app.spend.unpriced_requests > 0 ==> style.fg == Some(
                style::color_of(app.theme@.warning),
            ))
        }),
{
    let s = app.model_label@ + " | agent "@ + app.effective_agent_label@ + " | effort "@
        + app.effort_label@;
    lemma_clean_plain(s, false);
    lemma_text_rows(s);
    lemma_text_rows(
        app.spend.label@ + " | context "@ + text::decimal(app.context_tokens as nat) + "/"@
            + text::decimal(app.context_limit as nat),
    );
}

/// A frame holds all of its parts: header, transcript, composer and footer, and
/// what lies over them comes behind them.
pub proof fn law_frames_hold_their_parts(app: App, screen: Rect, p: Plan, g: Regions)
    ensures
        ({
            let paint = draw::frame_scene(app, screen, p, g);
            let header = scene::header_scene(app, g.columns@[0], g.metadata@[0], g.metadata@[1]);
            let composer = panes::input_scene(app, g.bands@[2]);
            let footer = panes::footer_scene(
                app,
                g.footer@[0],
                g.ends@[0],
                g.ends@[1],
                panes::path_cells(app, g.bands@[3]),
            );
            let over = draw::modal_scene(app, p, g);
            let history = draw::history_scene(app, p, g);
            let n = paint.len() - over.len();
            &&& paint.skip(n) == over
            &&& paint.subrange(n - footer.len(), n) == footer
            &&& paint.subrange(n - footer.len() - composer.len(), n - footer.len()) == composer
            &&& paint.subrange(1, (1 + header.len()) as int) == header
            &&& paint.subrange(
                (1 + header.len()) as int,
                (1 + header.len() + history.len()) as int,
            ) == history
        }),
{
    let header = scene::header_scene(app, g.columns@[0], g.metadata@[0], g.metadata@[1]);
    let composer = panes::input_scene(app, g.bands@[2]);
    let footer = panes::footer_scene(
        app,
        g.footer@[0],
        g.ends@[0],
        g.ends@[1],
        panes::path_cells(app, g.bands@[3]),
    );
    let over = draw::modal_scene(app, p, g);
    let history = draw::history_scene(app, p, g);
    let canvas = draw::canvas_area(p, g, screen);
    let art = draw::glyphs(
        artwork::painted_cells(style::lines_view(p.rows@), canvas, draw::canvas_rows(p, canvas)),
    );
    let base = seq![PaintView::Fill { area: screen, style: scene::base_style(app.theme@) }];
    lemma_parts(base, header, history, art, composer, footer, over);
}

proof fn lemma_parts(
    a: Seq<PaintView>,
    b: Seq<PaintView>,
    c: Seq<PaintView>,
    d: Seq<PaintView>,
    e: Seq<PaintView>,
    f: Seq<PaintView>,
    g: Seq<PaintView>,
)
    ensures
        ({
            let all = a + b + c + d + e + f + g;
            let n = all.len() - g.len();
            &&& all.skip(n) == g
            &&& all.subrange(n - f.len(), n) == f
            &&& all.subrange(n - f.len() - e.len(), n - f.len()) == e
            &&& all.subrange(a.len() as int, (a.len() + b.len()) as int) == b
            &&& all.subrange(
                (a.len() + b.len()) as int,
                (a.len() + b.len() + c.len()) as int,
            ) == c
        }),
{
    let all = a + b + c + d + e + f + g;
    let n = all.len() - g.len();
    assert(all.skip(n) =~= g);
    assert(all.subrange(n - f.len(), n) =~= f);
    assert(all.subrange(n - f.len() - e.len(), n - f.len()) =~= e);
    assert(all.subrange(a.len() as int, (a.len() + b.len()) as int) =~= b);
    assert(all.subrange((a.len() + b.len()) as int, (a.len() + b.len() + c.len()) as int) =~= c);
}

/// The composer is as high as its text and its border, from five rows up to a
/// dozen, where there is room for it.
pub proof fn law_composer_grows_with_its_text(text_rows: int, content: Rect)
    requires
        text_rows >= 0,
        content.height >= draw::INPUT_RESERVED_ROWS + 12,
    ensures
        ({
            let h = draw::composer_height(text_rows, content);
            &&& 5 <= h <= 12
            &&& 3 <= text_rows <= 10 ==> h == text_rows + 2
        }),
{
}

/// The rows of the transcript are painted inside of its borders, in the order
/// in which they are in view.
pub proof fn law_transcript_is_painted(app: App, p: Plan, g: Regions)
    requires
        g.bands@[1].height > 0,
    ensures
        draw::history_scene(app, p, g).last() matches PaintView::Text { area, lines, .. } && area
            == draw::view_area(g.bands@[1]) && lines.len() == draw::rows_in_view(
            app,
            g.bands@[1],
        ).len() && forall|i: int|
            0 <= i < lines.len() ==> #[trigger] lines[i] == draw::rows_in_view(app, g.bands@[1])[i].line,
{
}

/// One row of scrolling moves the view by one row, as long as there is more.
pub proof fn law_scrolling_moves_the_view(
    rows: Seq<crate::history::RowView>,
    height: int,
    scroll: int,
)
    requires
        0 < height,
        0 <= scroll,
        scroll + height < rows.len(),
    ensures
        crate::history::window(rows, height, scroll) == rows.subrange(
            rows.len() - height - scroll,
            rows.len() - scroll,
        ),
        crate::history::window(rows, height, scroll + 1).drop_first()
            == crate::history::window(rows, height, scroll).drop_last(),
{
    let a = crate::history::window(rows, height, scroll);
    let b = crate::history::window(rows, height, scroll + 1);
    assert(a =~= rows.subrange(rows.len() - height - scroll, rows.len() - scroll));
    assert(b.drop_first() =~= a.drop_last());
}

// ---------------------------------------------------------------------------
// Places
// ---------------------------------------------------------------------------

/// A border takes one cell on every side, and so does the margin of the screen.
pub proof fn law_borders_take_one_cell(area: Rect)
    requires
        area.width >= 2,
        area.height >= 2,
        area.x + area.width <= u16::MAX,
        area.y + area.height <= u16::MAX,
    ensures
        ({
            let inner = scene::within(area);
            &&& inner.x == area.x + 1 && inner.y == area.y + 1
            &&& inner.width == area.width - 2 && inner.height == area.height - 2
            &&& scene::content_of(area) == inner
        }),
{
}

/// A click hits the activity whose row it is on, unless the artwork is painted
/// there or the click is outside of the transcript.
pub proof fn law_clicks_hit_their_row(r: crate::renderer::Renderer, area: Rect, column: u16, row: u16)
    requires
        r.last_history_rect == Some(area),
        area.x + area.width <= u16::MAX,
        area.y + area.height <= u16::MAX,
        r.hit_map@.len() <= area.height,
    ensures
        ({
            let hit = artwork::target_at(r, column, row);
            let inside = area.x <= column < area.x + area.width && area.y <= row < area.y + area.height;
            let covered = exists|k: int|
                0 <= k < r.last_kitty_paint@.len() && (#[trigger] r.last_kitty_paint@[k]).0 == row
                    && r.last_kitty_paint@[k].1 <= column < r.last_kitty_paint@[k].2;
            &&& !inside ==> hit is None
            &&& covered ==> hit is None
            &&& inside && !covered && row - area.y < r.hit_map@.len() ==> hit
                == crate::history::hits_view(r.hit_map@)[row - area.y]
            &&& inside && row - area.y >= r.hit_map@.len() ==> hit is None
        }),
{
}

/// The artwork moves only during a run, starts each run at rest, and shows each
/// picture for its time before the next one comes.
pub proof fn law_artwork_moves_during_runs(r: crate::renderer::Renderer, busy: bool, now: u128)
    requires
        r.processing_frame < usize::MAX,
    ensures
        ({
            let b = artwork::advanced(r, busy, now);
            &&& !busy ==> b.processing_frame == 0 && b.processing_tick is None && !b.was_busy
            &&& busy && !r.was_busy ==> b.processing_frame == 0 && b.processing_tick == Some(now)
                && b.was_busy
            &&& busy && r.was_busy ==> b.processing_frame == r.processing_frame
                || b.processing_frame == r.processing_frame + 1
            &&& busy && r.was_busy && r.processing_tick is Some && now <= r.processing_tick->0 ==> b == r
            &&& busy && r.was_busy && r.processing_tick is Some && now >= r.processing_tick->0
                + 1_000_000_000 ==> b.processing_frame == r.processing_frame + 1
                && b.processing_tick == Some(now)
            &&& busy && r.was_busy && r.processing_tick is Some && now < r.processing_tick->0
                + 500_000_000 ==> b.processing_frame == r.processing_frame
            &&& b.variant_offset == r.variant_offset && b.cache == r.cache
        }),
{
    let variant = crate::kitty::variant_number(
        r.variant_offset as int % crate::kitty::VARIANT_COUNT as int,
    );
    let delays = crate::kitty::delays_of(variant);
    let i = r.processing_frame as int % delays.len() as int;
    assert(500 <= delays[i] <= 800);
}

/// The transcript keeps one column free at each side of its band, and the row of
/// the divider above it.
pub proof fn law_transcript_has_a_margin(band: Rect)
    requires
        band.width >= 2,
        band.height >= 1,
        band.x + band.width <= u16::MAX,
        band.y + band.height <= u16::MAX,
    ensures
        ({
            let r = draw::view_area(band);
            &&& r.x == band.x + 1
            &&& r.x + r.width + 1 == band.x + band.width
            &&& r.y == band.y + 1
            &&& r.y + r.height == band.y + band.height
        }),
{
}

/// No part of a scene is a cursor.
pub open spec fn cursorless(paint: Seq<PaintView>) -> bool {
    forall|k: int| 0 <= k < paint.len() ==> !((#[trigger] paint[k]) is Cursor)
}

/// What lies below an overlay shows no cursor.
pub proof fn law_covered_panes_show_no_cursor(app: App, p: Plan, g: Regions, area: Rect)
    requires
        app.approval is Some || app.help,
    ensures
        cursorless(panes::input_scene(app, area)),
        cursorless(draw::modal_scene(app, p, g)),
{
    let theme = app.theme@;
    let scroll = app.overlay_scroll as int;
    let place = panes::overlay_area(p.content);
    let dialog = match app.picker {
        Some(picker) => panes::dialog_scene(
            picker,
            panes::dialog_area(p.content),
            g.dialog@,
            false,
            theme,
        ),
        None => Seq::empty(),
    };
    if app.picker is Some {
        lemma_dialog_cursorless(app.picker->0, panes::dialog_area(p.content), g.dialog@, theme);
    }
    let complete = if app.workflow_complete {
        panes::overlay_scene(
            "Workflow complete"@,
            panes::complete_text(app),
            None,
            scroll,
            place,
            g.overlay@,
            theme,
        )
    } else {
        Seq::empty()
    };
    lemma_overlay_cursorless(
        "Workflow complete"@,
        panes::complete_text(app),
        None,
        scroll,
        place,
        g.overlay@,
        theme,
    );
    let help = if app.help {
        panes::overlay_scene("Help"@, commands::HELP@, None, scroll, place, g.overlay@, theme)
    } else {
        Seq::empty()
    };
    lemma_overlay_cursorless("Help"@, commands::HELP@, None, scroll, place, g.overlay@, theme);
    let approval = match app.approval {
        Some(a) => panes::overlay_scene(
            a.title@,
            a.detail@,
            Some(panes::approval_choices(a.workflow)),
            scroll,
            place,
            g.approval@,
            theme,
        ),
        None => Seq::empty(),
    };
    if app.approval is Some {
        let a = app.approval->0;
        lemma_overlay_cursorless(
            a.title@,
            a.detail@,
            Some(panes::approval_choices(a.workflow)),
            scroll,
            place,
            g.approval@,
            theme,
        );
    }
    lemma_cursorless_sum(dialog, complete);
    lemma_cursorless_sum(dialog + complete, help);
    lemma_cursorless_sum(dialog + complete + help, approval);
    assert(draw::modal_scene(app, p, g) == dialog + complete + help + approval);
}

proof fn lemma_cursorless_sum(a: Seq<PaintView>, b: Seq<PaintView>)
    requires
        cursorless(a),
        cursorless(b),
    ensures
        cursorless(a + b),
{
    assert forall|k: int| 0 <= k < (a + b).len() implies !((#[trigger] (a + b)[k]) is Cursor) by {
        if k < a.len() {
            assert((a + b)[k] == a[k]);
        } else {
            assert((a + b)[k] == b[k - a.len()]);
        }
    }
}

proof fn lemma_overlay_cursorless(
    title: Seq<char>,
    body: Seq<char>,
    choices: Option<Seq<char>>,
    scroll: int,
    area: Rect,
    parts: Seq<Rect>,
    theme: ThemeView,
)
    ensures
        cursorless(panes::overlay_scene(title, body, choices, scroll, area, parts, theme)),
{
}

proof fn lemma_dialog_cursorless(p: Picker, area: Rect, parts: Seq<Rect>, theme: ThemeView)
    ensures
        cursorless(panes::dialog_scene(p, area, parts, false, theme)),
{
    assert(cursorless(panes::search_scene(p, parts[0], false, theme)));
}

/// A click on a row of the transcript goes to the activity that the row sums
/// up, wherever the transcript is scrolled to.
pub proof fn law_rows_in_view_are_hit(
    a: crate::renderer::Renderer,
    app: App,
    screen: Rect,
    p: Plan,
    g: Regions,
    b: crate::renderer::Renderer,
    column: u16,
    k: int,
)
    requires
        draw::composed(a, app, screen, p, g, b),
        g.bands@[1].height > 0,
        g.bands@[1].x + g.bands@[1].width <= u16::MAX,
        g.bands@[1].y + g.bands@[1].height <= u16::MAX,
        0 <= k < draw::rows_in_view(app, g.bands@[1]).len(),
        k < draw::view_area(g.bands@[1]).height,
        artwork::inside(
            draw::view_area(g.bands@[1]),
            column,
            (draw::view_area(g.bands@[1]).y + k) as u16,
        ),
        !artwork::is_painted(
            b.last_kitty_paint@,
            column,
            (draw::view_area(g.bands@[1]).y + k) as u16,
        ),
    ensures
        artwork::target_at(b, column, (draw::view_area(g.bands@[1]).y + k) as u16)
            == draw::rows_in_view(app, g.bands@[1])[k].target,
{
    let rows = draw::rows_in_view(app, g.bands@[1]);
    assert(crate::history::hits_view(b.hit_map@).len() == rows.len());
    assert(crate::history::row_targets(rows)[k] == rows[k].target);
}

/// Each line of a source stands one row further down on the canvas, without
/// the white space at its end, and the first row is empty.
pub proof fn law_sources_stand_on_the_canvas(source: Seq<char>, k: int)
    requires
        0 <= k < text::lines_of(source).len(),
        k + 1 < crate::kitty::CANVAS_HEIGHT,
    ensures
        crate::kitty::canvas(source).len() == crate::kitty::CANVAS_HEIGHT,
        crate::kitty::canvas(source)[0].len() == 0,
        crate::kitty::canvas(source)[k + 1] == text::trim_end(text::lines_of(source)[k]),
{
}

/// Without a run the artwork stands still, as it does in every frame of a run
/// but the one that moves.
pub proof fn law_artwork_rests(variant: crate::kitty::KittyVariant, frame: int, theme: ThemeView)
    requires
        frame >= 0,
    ensures
        artwork::artwork(variant, false, frame, theme) == artwork::artwork(variant, false, 0, theme),
        frame % (crate::kitty::delays_of(variant).len() as int) != 1 ==> artwork::artwork(
            variant,
            true,
            frame,
            theme,
        ) == artwork::artwork(variant, false, 0, theme),
        frame % (crate::kitty::delays_of(variant).len() as int) == 1 ==> artwork::artwork(
            variant,
            true,
            frame,
            theme,
        ) == artwork::artwork(variant, true, 1, theme),
{
    let n = crate::kitty::delays_of(variant).len() as int;
    assert(n == 3 || n == 4);
    assert(1int % n == 1) by {
        if n == 3 {
            assert(1int % 3 == 1);
        } else {
            assert(1int % 4 == 1);
        }
    }
}

/// A frame starts with the whole screen in the foreground and the background
/// of the theme.
pub proof fn law_frames_have_the_colors_of_the_theme(app: App, screen: Rect, p: Plan, g: Regions)
    ensures
        draw::frame_scene(app, screen, p, g).len() > 0,
        draw::frame_scene(app, screen, p, g)[0] matches PaintView::Fill { area, style } && area
            == screen && style.fg == Some(style::color_of(app.theme@.foreground)) && style.bg == Some(
            style::color_of(app.theme@.background),
        ),
{
    let header = scene::header_scene(app, g.columns@[0], g.metadata@[0], g.metadata@[1]);
    let composer = panes::input_scene(app, g.bands@[2]);
    let footer = panes::footer_scene(
        app,
        g.footer@[0],
        g.ends@[0],
        g.ends@[1],
        panes::path_cells(app, g.bands@[3]),
    );
    let canvas = draw::canvas_area(p, g, screen);
    let art = draw::glyphs(
        artwork::painted_cells(style::lines_view(p.rows@), canvas, draw::canvas_rows(p, canvas)),
    );
    let base = seq![PaintView::Fill { area: screen, style: scene::base_style(app.theme@) }];
    lemma_first(
        base,
        header,
        draw::history_scene(app, p, g),
        art,
        composer,
        footer,
        draw::modal_scene(app, p, g),
    );
}

proof fn lemma_first(
    a: Seq<PaintView>,
    b: Seq<PaintView>,
    c: Seq<PaintView>,
    d: Seq<PaintView>,
    e: Seq<PaintView>,
    f: Seq<PaintView>,
    g: Seq<PaintView>,
)
    requires
        a.len() == 1,
    ensures
        (a + b + c + d + e + f + g).len() > 0,
        (a + b + c + d + e + f + g)[0] == a[0],
{
}

/// What can be pressed is written in the colors that the theme has for it.
pub proof fn law_buttons_stand_out(label: Seq<char>, theme: ThemeView)
    ensures
        scene::button_span(label, theme).content == label,
        scene::button_span(label, theme).style.fg == Some(style::color_of(theme.cta_foreground)),
        scene::button_span(label, theme).style.bg == Some(style::color_of(theme.cta_background)),
        scene::button_span(label, theme).style.bold,
{
}

/// An overlay covers what is below it. Its border warns where an answer is
/// asked for, and says how to scroll.
pub proof fn law_questions_warn(
    title: Seq<char>,
    body: Seq<char>,
    choices: Option<Seq<char>>,
    scroll: int,
    area: Rect,
    parts: Seq<Rect>,
    theme: ThemeView,
)
    ensures
        ({
            let paint = panes::overlay_scene(title, body, choices, scroll, area, parts, theme);
            &&& paint[0] == (PaintView::Clear { area })
            &&& paint[1] matches PaintView::Border { area: round, title: t, bottom, border, .. }
                && round == area && t == text::clean_text(title, false) && bottom
                == " PgUp/PgDn scroll "@ && (choices is Some ==> border.fg == Some(
                style::color_of(theme.warning),
            )) && (choices is None ==> border.fg == Some(style::color_of(theme.accent)))
        }),
{
}

/// The last row of a dialog says what Enter does: it switches a server, and
/// selects anything else.
pub proof fn law_dialogs_say_what_enter_does(
    p: Picker,
    area: Rect,
    parts: Seq<Rect>,
    focused: bool,
    theme: ThemeView,
)
    ensures
        ({
            let paint = panes::dialog_scene(p, area, parts, focused, theme);
            &&& paint.last() matches PaintView::Text { area: row, lines, .. } && row == parts[3]
                && lines.len() == 1 && (p.kind is Mcps ==> lines[0].spans[0].content
                == " Enter Toggle "@) && (!(p.kind is Mcps) ==> lines[0].spans[0].content
                == " Enter Select "@)
        }),
{
}

/// Rows that were rendered before are used again only for the same session, at
/// the same width, in the same theme, and for an entry that did not change.
pub proof fn law_cached_rows_are_current(r: crate::renderer::Renderer, app: App, width: usize, i: int)
    requires
        0 <= i < app.entries@.len(),
        r.has_rows(app, width, i),
    ensures
        r.generation == app.history_generation,
        r.width == width,
        r.theme is Some && r.theme->0@ == app.theme@,
        i < r.cache@.len(),
        r.cache@[i].revision == app.entries@[i].revision,
{
}

/// The first row of the composer that is in view: `m` rows lie above it, and
/// the row of the cursor is as far down on the screen as it is in the text.
pub open spec fn in_step(app: App, area: Rect, m: int) -> bool {
    let inner = scene::within(area);
    let row = panes::caret(app.input.text@.take(app.input.at()), inner.width as int).0;
    let paint = panes::input_scene(app, area);
    &&& 0 <= m <= row < m + inner.height
    &&& paint[1] == scene::rows_at(
        inner,
        panes::past(panes::shown_input(app, inner.width as int), m),
    )
    &&& paint[2] matches PaintView::Cursor { y, .. } && y == inner.y + (row - m)
}

/// However long the text of the composer is, the row of the cursor is in view,
/// and the cursor stands on it.
pub proof fn law_cursor_row_is_in_view(app: App, area: Rect)
    requires
        app.approval is None && !app.help && app.picker is None,
        area.width > 2 && area.height > 2,
        area.x + area.width <= u16::MAX,
        area.y + area.height <= u16::MAX,
        panes::composer_rows(app.input.text@.take(app.input.at()), area.width - 2).len() > 0,
    ensures
        exists|m: int| #[trigger] in_step(app, area, m),
{
    let inner = scene::within(area);
    let row = panes::caret(app.input.text@.take(app.input.at()), inner.width as int).0;
    assert(inner.width == area.width - 2 && inner.height == area.height - 2);
    let m = if row < inner.height {
        0
    } else {
        row - inner.height + 1
    };
    assert(in_step(app, area, m));
}

} // verus!
