//! What is drawn, as a list of things to paint: texts, borders, cells and the
//! cursor, each with its place. Where the bands of the screen lie is taken as
//! an argument.
use crate::app::App;
use crate::artwork;
use crate::artwork::{add16, min16, Cell};
use crate::model::{Theme, ThemeView};
use crate::renderer::Rect;
use crate::style;
use crate::style::{color, Color, Line, LineView, Span, SpanView, Style};
use crate::text;
use crate::text::{decimal_text, lines_text, sanitize_terminal_text, text3};
use crate::width;
use crate::width::str_width;
use crate::wrap;
use crate::wrap::tail_text;
use vstd::prelude::*;
use vstd::string::*;

verus! {

/// Something to paint.
#[derive(Debug)]
pub enum Paint {
    /// A style for all cells of an area.
    Fill { area: Rect, style: Style },
    /// An area is blanked.
    Clear { area: Rect },
    /// A border around an area, or at its left and right only.
    Border {
        area: Rect,
        title: String,
        bottom: String,
        all: bool,
        ascii: bool,
        border: Style,
        style: Style,
    },
    /// Rows of text over a style, at the left or at the right of an area.
    Text { area: Rect, lines: Vec<Line>, style: Style, right: bool },
    /// One cell.
    Glyph(Cell),
    /// The cursor.
    Cursor { x: u16, y: u16 },
}

/// Mathematical value of something to paint.
pub enum PaintView {
    Fill { area: Rect, style: Style },
    Clear { area: Rect },
    Border {
        area: Rect,
        title: Seq<char>,
        bottom: Seq<char>,
        all: bool,
        ascii: bool,
        border: Style,
        style: Style,
    },
    Text { area: Rect, lines: Seq<LineView>, style: Style, right: bool },
    Glyph(Cell),
    Cursor { x: u16, y: u16 },
}

impl View for Paint {
    type V = PaintView;

    open spec fn view(&self) -> PaintView {
        match *self {
            Paint::Fill { area, style } => PaintView::Fill { area, style },
            Paint::Clear { area } => PaintView::Clear { area },
            Paint::Border { area, title, bottom, all, ascii, border, style } => PaintView::Border {
                area,
                title: title@,
                bottom: bottom@,
                all,
                ascii,
                border,
                style,
            },
            Paint::Text { area, lines, style, right } => PaintView::Text {
                area,
                lines: style::lines_view(lines@),
                style,
                right,
            },
            Paint::Glyph(cell) => PaintView::Glyph(cell),
            Paint::Cursor { x, y } => PaintView::Cursor { x, y },
        }
    }
}

/// The values of a list of things to paint.
pub open spec fn paints_view(s: Seq<Paint>) -> Seq<PaintView> {
    s.map_values(|p: Paint| p@)
}

pub proof fn lemma_paints_push(s: Seq<Paint>, p: Paint)
    ensures
        paints_view(s.push(p)) == paints_view(s).push(p@),
{
    assert(paints_view(s.push(p)) =~= paints_view(s).push(p@));
}

/// Appends something to paint.
pub(crate) fn paint(out: &mut Vec<Paint>, p: Paint)
    ensures
        paints_view(final(out)@) == paints_view(old(out)@).push(p@),
{
    proof {
        lemma_paints_push(out@, p);
    }
    out.push(p);
}

// ---------------------------------------------------------------------------
// Places
// ---------------------------------------------------------------------------

/// A number of cells less another.
pub open spec fn less16(a: u16, b: int) -> u16 {
    artwork::cells16(a - b)
}

/// The area without a margin of one cell; nothing where it is too small.
pub open spec fn content_of(screen: Rect) -> Rect {
    if screen.width < 2 || screen.height < 2 {
        Rect { x: 0, y: 0, width: 0, height: 0 }
    } else {
        Rect {
            x: artwork::cells16(screen.x + 1),
            y: artwork::cells16(screen.y + 1),
            width: less16(screen.width, 2),
            height: less16(screen.height, 2),
        }
    }
}

/// What a border around an area leaves of it.
pub open spec fn within(area: Rect) -> Rect {
    Rect {
        x: artwork::least(artwork::cells16(area.x + 1), artwork::right_of(area)),
        y: artwork::least(artwork::cells16(area.y + 1), artwork::bottom_of(area)),
        width: less16(area.width, 2),
        height: less16(area.height, 2),
    }
}

/// The area without a margin of one cell.
pub fn content_area(screen: Rect) -> (r: Rect)
    ensures
        r == content_of(screen),
{
    if screen.width < 2 || screen.height < 2 {
        Rect { x: 0, y: 0, width: 0, height: 0 }
    } else {
        Rect {
            x: add16(screen.x, 1),
            y: add16(screen.y, 1),
            width: screen.width - 2,
            height: screen.height - 2,
        }
    }
}

/// What a border around an area leaves of it.
pub fn inner_area(area: Rect) -> (r: Rect)
    ensures
        r == within(area),
{
    Rect {
        x: min16(add16(area.x, 1), add16(area.x, area.width)),
        y: min16(add16(area.y, 1), add16(area.y, area.height)),
        width: area.width.saturating_sub(2),
        height: area.height.saturating_sub(2),
    }
}

// ---------------------------------------------------------------------------
// Texts, buttons and borders
// ---------------------------------------------------------------------------

/// The rows of a text without a style; an empty text is one empty row.
pub open spec fn text_rows(s: Seq<char>) -> Seq<LineView> {
    if s.len() == 0 {
        seq![style::styled_line(s, Style::plain())]
    } else {
        text::lines_of(s).map_values(|l: Seq<char>| style::styled_line(l, Style::plain()))
    }
}

/// A label on the background of something that can be chosen.
pub open spec fn button_span(label: Seq<char>, theme: ThemeView) -> SpanView {
    SpanView {
        content: label,
        style: Style {
            bg: Some(style::color_of(theme.cta_background)),
            ..Style::strong(style::color_of(theme.cta_foreground))
        },
    }
}

/// A span without a style.
pub open spec fn raw_span(s: Seq<char>) -> SpanView {
    SpanView { content: s, style: Style::plain() }
}

/// The background and the foreground of a theme.
pub open spec fn base_style(theme: ThemeView) -> Style {
    Style {
        fg: Some(style::color_of(theme.foreground)),
        bg: Some(style::color_of(theme.background)),
        ..Style::plain()
    }
}

/// A border in a color.
pub open spec fn bordered(area: Rect, title: Seq<char>, theme: ThemeView, c: Color) -> PaintView {
    PaintView::Border {
        area,
        title,
        bottom: Seq::empty(),
        all: true,
        ascii: theme.ascii,
        border: Style::colored(c),
        style: Style::plain(),
    }
}

/// Rows at the left of an area.
pub open spec fn rows_at(area: Rect, lines: Seq<LineView>) -> PaintView {
    PaintView::Text { area, lines, style: Style::plain(), right: false }
}

/// A text in a style, at the left or at the right of an area.
pub open spec fn text_at(area: Rect, s: Seq<char>, style: Style, right: bool) -> PaintView {
    PaintView::Text { area, lines: text_rows(s), style, right }
}

/// The rows of a text without a style.
fn rows_of_text(s: &str) -> (r: Vec<Line>)
    ensures
        style::lines_view(r@) == text_rows(s@),
{
    let mut out: Vec<Line> = Vec::new();
    if s.is_empty() {
        out.push(Line::raw(s));
        assert(style::lines_view(out@) =~= text_rows(s@));
        return out;
    }
    let parts = lines_text(s);
    let ghost want = text_rows(s@);
    let mut i: usize = 0;
    while i < parts.len()
        invariant
            i <= parts@.len(),
            s@.len() > 0,
            text::texts(parts@) == text::lines_of(s@),
            want == text_rows(s@),
            style::lines_view(out@) == want.take(i as int),
        decreases parts@.len() - i,
    {
        let line = Line::raw(parts[i].as_str());
        proof {
            assert(text::texts(parts@)[i as int] == parts@[i as int]@);
            style::lemma_lines_push(out@, line);
            assert(want.take(i + 1) =~= want.take(i as int).push(line@));
        }
        out.push(line);
        i = i + 1;
    }
    assert(want.take(i as int) =~= want);
    out
}

/// A text in a style.
pub(crate) fn text_paint(area: Rect, s: &str, style: Style, right: bool) -> (r: Paint)
    ensures
        r@ == text_at(area, s@, style, right),
{
    Paint::Text { area, lines: rows_of_text(s), style, right }
}

/// Rows at the left of an area.
pub(crate) fn rows_paint(area: Rect, lines: Vec<Line>) -> (r: Paint)
    ensures
        r@ == rows_at(area, style::lines_view(lines@)),
{
    Paint::Text { area, lines, style: Style::new(), right: false }
}

/// A border in a color.
pub(crate) fn border_paint(area: Rect, title: &str, theme: &Theme, c: Color) -> (r: Paint)
    ensures
        r@ == bordered(area, title@, theme@, c),
{
    let bottom = String::new();
    assert(bottom@ =~= Seq::<char>::empty());
    Paint::Border {
        area,
        title: title.to_owned(),
        bottom,
        all: true,
        ascii: theme.ascii,
        border: Style::new().fg(c),
        style: Style::new(),
    }
}

/// A label on the background of something that can be chosen.
pub fn button(label: &str, theme: &Theme) -> (r: Span)
    ensures
        r@ == button_span(label@, theme@),
{
    Span::styled(
        label.to_owned(),
        Style::new().fg(color(theme.cta_foreground.as_str())).bg(
            color(theme.cta_background.as_str()),
        ).bold(),
    )
}

// ---------------------------------------------------------------------------
// Header
// ---------------------------------------------------------------------------

/// The line of the header that names the model, the agent and the effort. What
/// does not fit is cut at its beginning.
pub open spec fn metadata_text(app: App, cells: int) -> Seq<char> {
    let s = text::clean_text(
        app.model_label@ + " | agent "@ + app.effective_agent_label@ + " | effort "@
            + app.effort_label@,
        false,
    );
    if width::text_width(s) > cells {
        wrap::tail_of(s, cells)
    } else {
        s
    }
}

/// The header: the name of the program, the model in use, and what was spent.
pub open spec fn header_scene(app: App, logo: Rect, top: Rect, bottom: Rect) -> Seq<PaintView> {
    let theme = app.theme@;
    let slanted = |c: Color| Style { italic: true, ..Style::strong(c) };
    seq![
        rows_at(
            logo,
            seq![
                style::styled_line(" diet_"@, slanted(style::color_of(theme.border))),
                style::styled_line(" soda"@, slanted((Color { r: 255, g: 79, b: 163 }))),
            ],
        ),
        text_at(
            top,
            metadata_text(app, top.width as int),
            Style::strong(style::color_of(theme.accent)),
            true,
        ),
        text_at(
            bottom,
            app.spend.label@ + " | context "@ + text::decimal(app.context_tokens as nat) + "/"@
                + text::decimal(app.context_limit as nat),
            Style::colored(
                style::color_of(
                    if app.spend.unpriced_requests == 0 {
                        theme.success
                    } else {
                        theme.warning
                    },
                ),
            ),
            true,
        ),
    ]
}

/// The line of the header that names the model, the agent and the effort.
fn metadata_line(app: &App, cells: usize) -> (r: String)
    ensures
        r@ == metadata_text(*app, cells as int),
{
    let composed = text3(
        text3(
            app.model_label.as_str(),
            " | agent ",
            app.effective_agent_label.as_str(),
        ).as_str(),
        " | effort ",
        app.effort_label.as_str(),
    );
    let clean = sanitize_terminal_text(composed.as_str(), false);
    if str_width(clean.as_str()) > cells {
        tail_text(clean.as_str(), cells)
    } else {
        clean
    }
}

/// Draws the header.
pub fn draw_header(app: &App, logo: Rect, top: Rect, bottom: Rect) -> (r: Vec<Paint>)
    ensures
        paints_view(r@) == header_scene(*app, logo, top, bottom),
{
    let theme = &app.theme;
    let mut out: Vec<Paint> = Vec::new();
    let mut lines: Vec<Line> = Vec::new();
    lines.push(
        Line::styled(" diet_", Style::new().fg(color(theme.border.as_str())).italic().bold()),
    );
    lines.push(Line::styled(" soda", Style::new().fg(Color::rgb(255, 79, 163)).italic().bold()));
    let metadata = metadata_line(app, top.width as usize);
    let tokens = decimal_text(app.context_tokens as u128);
    let limit = decimal_text(app.context_limit as u128);
    let spend = text3(
        text3(app.spend.label.as_str(), " | context ", tokens.as_str()).as_str(),
        "/",
        limit.as_str(),
    );
    let shade = if app.spend.unpriced_requests == 0 {
        color(theme.success.as_str())
    } else {
        color(theme.warning.as_str())
    };
    out.push(rows_paint(logo, lines));
    out.push(
        text_paint(
            top,
            metadata.as_str(),
            Style::new().fg(color(theme.accent.as_str())).bold(),
            true,
        ),
    );
    out.push(text_paint(bottom, spend.as_str(), Style::new().fg(shade), true));
    proof {
        let want = header_scene(*app, logo, top, bottom);
        assert(style::lines_view(lines@) =~= want[0]->Text_lines);
        assert(paints_view(out@) =~= want);
    }
    out
}

// ---------------------------------------------------------------------------
// Divider
// ---------------------------------------------------------------------------

/// Where the divider ends: before the columns of the artwork, or at the right
/// of the band.
pub open spec fn divider_end(band: Rect, reservation: Option<Rect>) -> u16 {
    let right = artwork::right_of(band);
    match reservation {
        Some(r) => artwork::least(r.x, right),
        None => right,
    }
}

/// The cells of the divider: a corner, a rule, and another corner where the
/// rule reaches the right of the band.
pub open spec fn divider_cells(
    band: Rect,
    reservation: Option<Rect>,
    ascii: bool,
    tint: Color,
) -> Seq<Cell> {
    let end = divider_end(band, reservation);
    let style = Style::colored(tint);
    let first = if band.x < end {
        seq![
            Cell {
                x: band.x,
                y: band.y,
                symbol: if ascii {
                    '+'
                } else {
                    '╭'
                },
                style,
            },
        ]
    } else {
        Seq::empty()
    };
    let rule = Seq::new(
        (if end > band.x + 1 {
            end - band.x - 1
        } else {
            0
        }) as nat,
        |i: int|
            Cell {
                x: (band.x + 1 + i) as u16,
                y: band.y,
                symbol: if ascii {
                    '-'
                } else {
                    '─'
                },
                style,
            },
    );
    let last = if end >= artwork::right_of(band) && band.width >= 2 {
        seq![
            Cell {
                x: less16(artwork::right_of(band), 1),
                y: band.y,
                symbol: if ascii {
                    '+'
                } else {
                    '╮'
                },
                style,
            },
        ]
    } else {
        Seq::empty()
    };
    if band.width == 0 || band.height == 0 {
        Seq::empty()
    } else {
        first + rule + last
    }
}

/// Draws the divider in the first row of a band.
pub fn draw_history_divider(theme: &Theme, band: Rect, reservation: Option<Rect>) -> (r: Vec<Cell>)
    ensures
        r@ == divider_cells(band, reservation, theme.ascii, style::color_of(theme@.border)),
{
    let mut out: Vec<Cell> = Vec::new();
    let ghost tint = style::color_of(theme@.border);
    let ghost want = divider_cells(band, reservation, theme.ascii, tint);
    if band.height == 0 || band.width == 0 {
        return out;
    }
    let style = Style::new().fg(color(theme.border.as_str()));
    let right: u16 = add16(band.x, band.width);
    let end: u16 = match reservation {
        Some(r) => min16(r.x, right),
        None => right,
    };
    if band.x < end {
        let symbol = if theme.ascii {
            '+'
        } else {
            '╭'
        };
        out.push(Cell { x: band.x, y: band.y, symbol, style });
    }
    let ghost first = out@;
    let symbol = if theme.ascii {
        '-'
    } else {
        '─'
    };
    let ghost rule = Seq::new(
        (if end > band.x + 1 {
            end - band.x - 1
        } else {
            0
        }) as nat,
        |i: int| Cell { x: (band.x + 1 + i) as u16, y: band.y, symbol, style },
    );
    let mut x: u16 = add16(band.x, 1);
    assert(first + rule.take(0) =~= first);
    while x < end
        invariant
            band.x < u16::MAX ==> x == band.x + 1 + (out@.len() - first.len()),
            band.x == u16::MAX ==> x == u16::MAX,
            band.x + 1 <= end ==> x <= end,
            out@ == first + rule.take(out@.len() - first.len()),
            first.len() <= out@.len() <= first.len() + rule.len(),
            rule == Seq::new(
                (if end > band.x + 1 {
                    end - band.x - 1
                } else {
                    0
                }) as nat,
                |i: int| Cell { x: (band.x + 1 + i) as u16, y: band.y, symbol, style },
            ),
        decreases end - x,
    {
        let ghost k = out@.len() - first.len();
        let cell = Cell { x, y: band.y, symbol, style };
        assert(rule[k] == cell);
        assert((first + rule.take(k)).push(cell) =~= first + rule.take(k + 1));
        out.push(cell);
        x = x + 1;
    }
    assert(out@ =~= first + rule);
    if end >= right && band.width >= 2 {
        let symbol = if theme.ascii {
            '+'
        } else {
            '╮'
        };
        out.push(Cell { x: right - 1, y: band.y, symbol, style });
    }
    assert(out@ =~= want);
    out
}

} // verus!
