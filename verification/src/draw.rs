//! One frame: how high the bands are, how the screen is split, and everything
//! that is painted on it.
use crate::app::App;
use crate::artwork;
use crate::artwork::{
    add16, kitty_rows, min16, to16, widest_row, Cell,
};
use crate::commands::HELP;
use crate::history;
use crate::kitty;
use crate::layout;
use crate::layout::{split, Part};
use crate::panes;
use crate::panes::{
    complete_body, dialog_place, draw_footer, draw_input, draw_overlay, draw_picker, input_rows,
    overlay_place, path_column,
};
use crate::renderer;
use crate::renderer::{Rect, Renderer};
use crate::scene;
use crate::scene::{
    content_area, draw_header, draw_history_divider, inner_area, paint, rows_paint, Paint,
    PaintView,
};
use crate::style;
use crate::style::{color, Line, Style};
use crate::text;
use vstd::prelude::*;
use vstd::string::*;

verus! {

/// Rows of the header.
pub const HEADER_HEIGHT: u16 = 2;

/// Rows that the composer leaves to the others: the header, the divider, one
/// row of the transcript and the footer.
pub const INPUT_RESERVED_ROWS: u16 = 6;

/// Cells of the name of the program.
pub const HEADER_LOGO_WIDTH: u16 = 6;

/// Blank cells in front of the artwork.
pub const HEADER_SEPARATOR_WIDTH: u16 = 1;

/// Cells without which the artwork gives way to the text of the header.
pub const HEADER_MIN_METADATA_WIDTH: u16 = 24;

/// What is known of a frame before the screen is split.
#[derive(Debug)]
pub struct Plan {
    /// The screen without its margin.
    pub content: Rect,
    /// The rows of the artwork.
    pub rows: Vec<Line>,
    pub kitty_width: u16,
    pub show_kitty: bool,
    pub input_height: u16,
}

/// Where everything goes.
#[derive(Debug)]
pub struct Regions {
    /// Header, transcript, composer and footer.
    pub bands: Vec<Rect>,
    /// Name, text, gap and artwork of the header.
    pub columns: Vec<Rect>,
    /// The two rows of the header's text.
    pub metadata: Vec<Rect>,
    /// The two rows of the footer.
    pub footer: Vec<Rect>,
    /// The buttons and the workspace in the second of them.
    pub ends: Vec<Rect>,
    /// Search field, list, hint and buttons of a dialog.
    pub dialog: Vec<Rect>,
    /// The text of an overlay, below nothing.
    pub overlay: Vec<Rect>,
    /// The choices and the text of an approval.
    pub approval: Vec<Rect>,
}

impl Regions {
    /// Every area is split into its parts.
    pub open spec fn wf(self) -> bool {
        &&& self.bands@.len() == 4
        &&& self.columns@.len() == 4
        &&& self.metadata@.len() == 2
        &&& self.footer@.len() == 2
        &&& self.ends@.len() == 2
        &&& self.dialog@.len() == 4
        &&& self.overlay@.len() == 2
        &&& self.approval@.len() == 2
    }
}

/// Rows for the composer: its text and a border, at least five and at most a
/// dozen, and never into the rows of the others.
pub open spec fn composer_height(text_rows: int, content: Rect) -> u16 {
    let wanted = artwork::cells16(text_rows + 2);
    let bounded: u16 = if wanted < 5 {
        5
    } else if wanted > 12 {
        12
    } else {
        wanted
    };
    artwork::least(bounded, scene::less16(content.height, INPUT_RESERVED_ROWS as int))
}

/// The artwork has room beside the name and the text of the header.
pub open spec fn has_room(content: Rect, kitty_width: u16) -> bool {
    content.width >= HEADER_LOGO_WIDTH + HEADER_SEPARATOR_WIDTH + kitty_width
        + HEADER_MIN_METADATA_WIDTH
}

/// The plan is that of a frame.
pub open spec fn is_plan(p: Plan, r: Renderer, app: App, screen: Rect) -> bool {
    let variant = kitty::variant_number(r.variant_offset as int % kitty::VARIANT_COUNT as int);
    let rows = artwork::artwork(variant, app.busy, r.processing_frame as int, app.theme@);
    let content = scene::content_of(screen);
    &&& p.content == content
    &&& style::lines_view(p.rows@) == rows
    &&& p.kitty_width == artwork::cells16(artwork::widest(rows))
    &&& p.show_kitty == has_room(content, p.kitty_width)
    &&& p.input_height == composer_height(
        panes::composer_rows(
            app.input.text@,
            scene::less16(content.width, 2) as int,
        ).len() as int,
        content,
    )
}

/// Header, transcript, composer and footer.
pub open spec fn band_parts(p: Plan) -> Seq<Part> {
    seq![Part::Length(HEADER_HEIGHT), Part::Min(1), Part::Length(p.input_height), Part::Length(2)]
}

/// Name, text, gap and artwork of the header.
pub open spec fn column_parts(p: Plan) -> Seq<Part> {
    seq![
        Part::Length(HEADER_LOGO_WIDTH),
        Part::Min(0),
        Part::Length(HEADER_SEPARATOR_WIDTH),
        Part::Length(
            if p.show_kitty {
                p.kitty_width
            } else {
                0
            },
        ),
    ]
}

/// The regions are those of a plan: the content is split into bands, the header
/// into columns, its text and the footer into rows, the lower row of the footer
/// between the buttons and the workspace, and a dialog and the overlays into
/// their parts.
pub open spec fn arranged(app: App, p: Plan, g: Regions) -> bool {
    let two = seq![Part::Length(1), Part::Length(1)];
    let dialog = scene::within(panes::dialog_area(p.content));
    let inside = scene::within(panes::overlay_area(p.content));
    &&& layout::is_split(p.content, true, band_parts(p), g.bands@)
    &&& layout::is_split(g.bands@[0], false, column_parts(p), g.columns@)
    &&& layout::is_split(g.columns@[1], true, two, g.metadata@)
    &&& layout::is_split(g.bands@[3], true, two, g.footer@)
    &&& layout::is_split(
        g.footer@[1],
        false,
        seq![Part::Min(1), Part::Length(panes::path_cells(app, g.bands@[3]))],
        g.ends@,
    )
    &&& layout::is_split(
        dialog,
        true,
        seq![Part::Length(3), Part::Min(0), Part::Length(1), Part::Length(1)],
        g.dialog@,
    )
    &&& layout::is_split(inside, true, seq![Part::Length(0), Part::Min(0)], g.overlay@)
    &&& layout::is_split(inside, true, seq![Part::Length(1), Part::Min(0)], g.approval@)
}

/// The columns that the artwork has to itself.
pub open spec fn reservation(p: Plan, g: Regions) -> Option<Rect> {
    if p.show_kitty {
        Some(g.columns@[3])
    } else {
        None
    }
}

/// Where the rows of the transcript go: inside of the band's borders, below the
/// divider.
pub open spec fn view_area(band: Rect) -> Rect {
    Rect {
        x: artwork::cells16(band.x + 1),
        y: artwork::cells16(band.y + 1),
        width: scene::less16(band.width, 2),
        height: scene::less16(band.height, 1),
    }
}

/// Cells as things to paint.
pub open spec fn glyphs(cells: Seq<Cell>) -> Seq<PaintView> {
    cells.map_values(|c: Cell| PaintView::Glyph(c))
}

/// The rows of the transcript in view.
pub open spec fn rows_in_view(app: App, band: Rect) -> Seq<history::RowView> {
    let area = view_area(band);
    history::window(
        history::all_rows(app.spine(), area.width as int, app.theme@),
        area.height as int,
        app.scroll as int,
    )
}

/// The transcript: the divider, borders at both sides, and the rows in view. A
/// band without a row shows nothing.
pub open spec fn history_scene(app: App, p: Plan, g: Regions) -> Seq<PaintView> {
    let band = g.bands@[1];
    let theme = app.theme@;
    let area = view_area(band);
    if band.height == 0 {
        Seq::empty()
    } else {
        glyphs(
            scene::divider_cells(
                band,
                reservation(p, g),
                theme.ascii,
                style::color_of(theme.border),
            ),
        ) + seq![
            PaintView::Border {
                area: Rect {
                    x: band.x,
                    y: artwork::cells16(band.y + 1),
                    width: band.width,
                    height: scene::less16(band.height, 1),
                },
                title: Seq::empty(),
                bottom: Seq::empty(),
                all: false,
                ascii: theme.ascii,
                border: Style::colored(style::color_of(theme.border)),
                style: Style::plain(),
            },
            scene::rows_at(area, history::row_lines(rows_in_view(app, band))),
        ]
    }
}

/// Where the artwork is painted: in its columns, from the top of the screen
/// down to the composer.
pub open spec fn canvas_area(p: Plan, g: Regions, screen: Rect) -> Rect {
    let r = reservation(p, g);
    artwork::artwork_area(
        style::lines_view(p.rows@),
        Rect {
            x: match r {
                Some(r) => r.x,
                None => 0,
            },
            y: screen.y,
            width: match r {
                Some(r) => r.width,
                None => 0,
            },
            height: scene::less16(g.bands@[2].y, screen.y as int),
        },
        screen,
    )
}

/// Rows of the artwork that are painted.
pub open spec fn canvas_rows(p: Plan, area: Rect) -> int {
    if area.height < p.rows@.len() {
        area.height as int
    } else {
        p.rows@.len() as int
    }
}

/// What lies over the transcript and the composer: a dialog, the overlay of a
/// finished workflow, the help and an approval, in this order.
pub open spec fn modal_scene(app: App, p: Plan, g: Regions) -> Seq<PaintView> {
    let theme = app.theme@;
    let scroll = app.overlay_scroll as int;
    let place = panes::overlay_area(p.content);
    let dialog = match app.picker {
        Some(picker) => panes::dialog_scene(
            picker,
            panes::dialog_area(p.content),
            g.dialog@,
            app.approval is None && !app.help,
            theme,
        ),
        None => Seq::empty(),
    };
    let complete = if app.workflow_complete {
        panes::overlay_scene(
            "Workflow complete"@,
            panes::complete_text(app),
            None,
            scroll,
            place,
            g.overlay@,
            theme,
        )
    } else {
        Seq::empty()
    };
    let help = if app.help {
        panes::overlay_scene("Help"@, HELP@, None, scroll, place, g.overlay@, theme)
    } else {
        Seq::empty()
    };
    let approval = match app.approval {
        Some(a) => panes::overlay_scene(
            a.title@,
            a.detail@,
            Some(panes::approval_choices(a.workflow)),
            scroll,
            place,
            g.approval@,
            theme,
        ),
        None => Seq::empty(),
    };
    dialog + complete + help + approval
}

/// Everything that is painted.
pub open spec fn frame_scene(app: App, screen: Rect, p: Plan, g: Regions) -> Seq<PaintView> {
    let canvas = canvas_area(p, g, screen);
    seq![PaintView::Fill { area: screen, style: scene::base_style(app.theme@) }]
        + scene::header_scene(app, g.columns@[0], g.metadata@[0], g.metadata@[1])
        + history_scene(app, p, g) + glyphs(
        artwork::painted_cells(style::lines_view(p.rows@), canvas, canvas_rows(p, canvas)),
    ) + panes::input_scene(app, g.bands@[2]) + panes::footer_scene(
        app,
        g.footer@[0],
        g.ends@[0],
        g.ends@[1],
        panes::path_cells(app, g.bands@[3]),
    ) + modal_scene(app, p, g)
}

/// A frame was composed: what the renderer remembers of it.
pub open spec fn composed(a: Renderer, app: App, screen: Rect, p: Plan, g: Regions, b: Renderer) -> bool {
    let canvas = canvas_area(p, g, screen);
    let band = g.bands@[1];
    let width = view_area(band).width as usize;
    &&& b.last_kitty_reservation == reservation(p, g)
    &&& b.last_kitty_paint@ == artwork::painted_spans(
        style::lines_view(p.rows@),
        canvas,
        canvas_rows(p, canvas),
    )
    &&& b.variant_offset == a.variant_offset
    &&& b.was_busy == a.was_busy
    &&& b.processing_frame == a.processing_frame
    &&& b.processing_tick == a.processing_tick
    &&& if band.height == 0 {
        &&& b.last_history_rect is None
        &&& b.hit_map == a.hit_map
        &&& b.cache == a.cache
        &&& b.width == a.width
        &&& b.theme == a.theme
        &&& b.generation == a.generation
        &&& b.rebuilds == a.rebuilds
    } else {
        &&& b.last_history_rect == Some(view_area(band))
        &&& history::hits_view(b.hit_map@) == history::row_targets(rows_in_view(app, band))
        &&& renderer::caches(b.cache@, app.spine().entries, width as int, app.theme@)
        &&& b.kept(app, width)
        &&& b.rebuilds == text::clip(a.rebuilds + a.stale(app, width, app.entries@.len() as int))
    }
}

/// Appends cells.
fn paint_cells(out: &mut Vec<Paint>, cells: &Vec<Cell>)
    ensures
        scene::paints_view(final(out)@) == scene::paints_view(old(out)@) + glyphs(cells@),
{
    let ghost before = scene::paints_view(out@);
    let ghost want = glyphs(cells@);
    let mut i: usize = 0;
    assert(before + want.take(0) =~= before);
    while i < cells.len()
        invariant
            i <= cells@.len(),
            want == glyphs(cells@),
            scene::paints_view(out@) == before + want.take(i as int),
        decreases cells@.len() - i,
    {
        paint(out, Paint::Glyph(cells[i]));
        assert(before + want.take(i + 1) =~= (before + want.take(i as int)).push(want[i as int]));
        i = i + 1;
    }
    assert(want.take(i as int) =~= want);
}

/// Appends things to paint.
fn paint_all(out: &mut Vec<Paint>, more: Vec<Paint>)
    ensures
        scene::paints_view(final(out)@) == scene::paints_view(old(out)@) + scene::paints_view(
            more@,
        ),
{
    let mut more = more;
    let ghost a = out@;
    let ghost b = more@;
    out.append(&mut more);
    assert(scene::paints_view(out@) =~= scene::paints_view(a) + scene::paints_view(b));
}

/// The background of the screen.
fn base_fill(app: &App, screen: Rect) -> (r: Paint)
    ensures
        r@ == (PaintView::Fill { area: screen, style: scene::base_style(app.theme@) }),
{
    let theme = &app.theme;
    Paint::Fill {
        area: screen,
        style: Style::new().bg(color(theme.background.as_str())).fg(
            color(theme.foreground.as_str()),
        ),
    }
}

/// The layers of a frame, one over the other.
fn assemble(
    fill: Paint,
    header: Vec<Paint>,
    history: Vec<Paint>,
    cells: Vec<Cell>,
    input: Vec<Paint>,
    footer: Vec<Paint>,
    modals: Vec<Paint>,
) -> (r: Vec<Paint>)
    ensures
        scene::paints_view(r@) == seq![fill@] + scene::paints_view(header@) + scene::paints_view(
            history@,
        ) + glyphs(cells@) + scene::paints_view(input@) + scene::paints_view(footer@)
            + scene::paints_view(modals@),
{
    let mut out: Vec<Paint> = Vec::new();
    out.push(fill);
    assert(scene::paints_view(out@) =~= seq![fill@]);
    paint_all(&mut out, header);
    paint_all(&mut out, history);
    paint_cells(&mut out, &cells);
    paint_all(&mut out, input);
    paint_all(&mut out, footer);
    paint_all(&mut out, modals);
    out
}

/// What has to be rendered goes by the cache alone.
proof fn lemma_same_stale(a: Renderer, b: Renderer, app: App, width: usize, n: int)
    requires
        a.cache == b.cache,
        a.width == b.width,
        a.theme == b.theme,
        a.generation == b.generation,
    ensures
        a.stale(app, width, n) == b.stale(app, width, n),
    decreases n,
{
    if n > 0 {
        lemma_same_stale(a, b, app, width, n - 1);
    }
}

/// Two parts.
fn two_parts(a: Part, b: Part) -> (r: Vec<Part>)
    ensures
        r@ == seq![a, b],
{
    let mut out: Vec<Part> = Vec::new();
    out.push(a);
    out.push(b);
    assert(out@ =~= seq![a, b]);
    out
}

/// Four parts.
fn four_parts(a: Part, b: Part, c: Part, d: Part) -> (r: Vec<Part>)
    ensures
        r@ == seq![a, b, c, d],
{
    let mut out: Vec<Part> = Vec::new();
    out.push(a);
    out.push(b);
    out.push(c);
    out.push(d);
    assert(out@ =~= seq![a, b, c, d]);
    out
}

/// Header, transcript, composer and footer.
pub fn parts_of_bands(p: &Plan) -> (r: Vec<Part>)
    ensures
        r@ == band_parts(*p),
{
    four_parts(
        Part::Length(HEADER_HEIGHT),
        Part::Min(1),
        Part::Length(p.input_height),
        Part::Length(2),
    )
}

/// Name, text, gap and artwork of the header.
pub fn parts_of_columns(p: &Plan) -> (r: Vec<Part>)
    ensures
        r@ == column_parts(*p),
{
    let reserved: u16 = if p.show_kitty {
        p.kitty_width
    } else {
        0
    };
    four_parts(
        Part::Length(HEADER_LOGO_WIDTH),
        Part::Min(0),
        Part::Length(HEADER_SEPARATOR_WIDTH),
        Part::Length(reserved),
    )
}

/// Splits the screen.
pub fn arrange(app: &App, p: &Plan) -> (r: Regions)
    ensures
        arranged(*app, *p, r),
        r.wf(),
{
    let one = Part::Length(1);
    let bands = split(p.content, true, &parts_of_bands(p));
    let columns = split(bands[0], false, &parts_of_columns(p));
    let metadata = split(columns[1], true, &two_parts(one, one));
    let footer = split(bands[3], true, &two_parts(one, one));
    let path: u16 = path_column(app, bands[3]);
    let ends = split(footer[1], false, &two_parts(Part::Min(1), Part::Length(path)));
    let dialog = split(
        inner_area(dialog_place(p.content)),
        true,
        &four_parts(Part::Length(3), Part::Min(0), one, one),
    );
    let inside = inner_area(overlay_place(p.content));
    let overlay = split(inside, true, &two_parts(Part::Length(0), Part::Min(0)));
    let approval = split(inside, true, &two_parts(one, Part::Min(0)));
    Regions { bands, columns, metadata, footer, ends, dialog, overlay, approval }
}

impl Renderer {
    /// What is known of a frame before the screen is split.
    pub fn plan(&self, app: &App, screen: Rect) -> (r: Plan)
        ensures
            is_plan(r, *self, *app, screen),
    {
        let content = content_area(screen);
        let rows = kitty_rows(self.current_variant(), app.busy, self.processing_frame, &app.theme);
        let kitty_width: u16 = to16(widest_row(&rows));
        let show_kitty = content.width as u32 >= HEADER_LOGO_WIDTH as u32
            + HEADER_SEPARATOR_WIDTH as u32 + kitty_width as u32
            + HEADER_MIN_METADATA_WIDTH as u32;
        let lines = input_rows(
            app.input.text.as_str(),
            content.width.saturating_sub(2) as usize,
        );
        assert(style::lines_view(lines@).len() == lines@.len());
        let wanted: u16 = add16(to16(lines.len()), 2);
        let bounded: u16 = if wanted < 5 {
            5
        } else if wanted > 12 {
            12
        } else {
            wanted
        };
        let input_height: u16 = min16(
            bounded,
            content.height.saturating_sub(INPUT_RESERVED_ROWS),
        );
        Plan { content, rows, kitty_width, show_kitty, input_height }
    }

    /// Draws a frame at a time in nanoseconds: the animation goes on, the
    /// screen is split, and everything is laid out in the parts.
    pub fn draw(&mut self, app: &App, screen: Rect, now: u128) -> (r: Vec<Paint>)
        requires
            app.wf(),
            old(self).truthful(*app, old(self).width),
        ensures
            exists|p: Plan, g: Regions| #[trigger]
                is_frame(
                    artwork::advanced(*old(self), app.busy, now),
                    *app,
                    screen,
                    p,
                    g,
                    *final(self),
                    scene::paints_view(r@),
                ),
    {
        self.advance(app.busy, now);
        let plan = self.plan(app, screen);
        let regions = arrange(app, &plan);
        let ghost a = *self;
        let out = self.compose(app, screen, &plan, &regions);
        assert(is_frame(a, *app, screen, plan, regions, *self, scene::paints_view(out@)));
        out
    }

    /// Lays a frame out on a screen that is split into regions.
    pub fn compose(&mut self, app: &App, screen: Rect, plan: &Plan, regions: &Regions) -> (r: Vec<
        Paint,
    >)
        requires
            app.wf(),
            regions.wf(),
            old(self).truthful(*app, old(self).width),
        ensures
            scene::paints_view(r@) == frame_scene(*app, screen, *plan, *regions),
            composed(*old(self), *app, screen, *plan, *regions, *final(self)),
    {
        let (history, cells) = self.draw_layers(app, screen, plan, regions);
        let header = draw_header(
            app,
            regions.columns[0],
            regions.metadata[0],
            regions.metadata[1],
        );
        let input = draw_input(app, regions.bands[2]);
        let path: u16 = path_column(app, regions.bands[3]);
        let footer = draw_footer(
            app,
            regions.footer[0],
            regions.ends[0],
            regions.ends[1],
            path,
        );
        let modals = draw_modals(app, plan, regions);
        assemble(base_fill(app, screen), header, history, cells, input, footer, modals)
    }

    /// Draws the transcript and the artwork, and remembers where they are.
    fn draw_layers(&mut self, app: &App, screen: Rect, plan: &Plan, regions: &Regions) -> (r: (
        Vec<Paint>,
        Vec<Cell>,
    ))
        requires
            app.wf(),
            regions.wf(),
            old(self).truthful(*app, old(self).width),
        ensures
            scene::paints_view(r.0@) == history_scene(*app, *plan, *regions),
            r.1@ == artwork::painted_cells(
                style::lines_view(plan.rows@),
                canvas_area(*plan, *regions, screen),
                canvas_rows(*plan, canvas_area(*plan, *regions, screen)),
            ),
            composed(*old(self), *app, screen, *plan, *regions, *final(self)),
    {
        self.last_kitty_reservation = if plan.show_kitty {
            Some(regions.columns[3])
        } else {
            None
        };
        let ghost a = *self;
        proof {
            let band = regions.bands@[1];
            lemma_same_stale(
                *old(self),
                a,
                *app,
                view_area(band).width as usize,
                app.entries@.len() as int,
            );
        }
        let history = self.draw_history(app, regions.bands[1]);
        let (x, width): (u16, u16) = match self.last_kitty_reservation {
            Some(r) => (r.x, r.width),
            None => (0, 0),
        };
        let area = Rect {
            x,
            y: screen.y,
            width,
            height: regions.bands[2].y.saturating_sub(screen.y),
        };
        assert(style::lines_view(plan.rows@).len() == plan.rows@.len());
        let cells = self.draw_kitty(&plan.rows, area, screen);
        (history, cells)
    }

    /// Draws the transcript in its band, and remembers where.
    fn draw_history(&mut self, app: &App, band: Rect) -> (r: Vec<Paint>)
        requires
            app.wf(),
            old(self).truthful(*app, old(self).width),
        ensures
            ({
                let theme = app.theme@;
                let area = view_area(band);
                scene::paints_view(r@) == if band.height == 0 {
                    Seq::empty()
                } else {
                    glyphs(
                        scene::divider_cells(
                            band,
                            old(self).last_kitty_reservation,
                            theme.ascii,
                            style::color_of(theme.border),
                        ),
                    ) + seq![
                        PaintView::Border {
                            area: Rect {
                                x: band.x,
                                y: artwork::cells16(band.y + 1),
                                width: band.width,
                                height: scene::less16(band.height, 1),
                            },
                            title: Seq::empty(),
                            bottom: Seq::empty(),
                            all: false,
                            ascii: theme.ascii,
                            border: Style::colored(style::color_of(theme.border)),
                            style: Style::plain(),
                        },
                        scene::rows_at(area, history::row_lines(rows_in_view(*app, band))),
                    ]
                }
            }),
            ({
                let area = view_area(band);
                let width = area.width as usize;
                let a = *old(self);
                let b = *final(self);
                if band.height == 0 {
                    b == (Renderer { last_history_rect: None, ..a })
                } else {
                    &&& b == (Renderer {
                        last_history_rect: Some(area),
                        hit_map: b.hit_map,
                        cache: b.cache,
                        width: b.width,
                        theme: b.theme,
                        generation: b.generation,
                        rebuilds: b.rebuilds,
                        ..a
                    })
                    &&& history::hits_view(b.hit_map@) == history::row_targets(
                        rows_in_view(*app, band),
                    )
                    &&& renderer::caches(b.cache@, app.spine().entries, width as int, app.theme@)
                    &&& b.kept(*app, width)
                    &&& b.rebuilds == text::clip(
                        a.rebuilds + a.stale(*app, width, app.entries@.len() as int),
                    )
                }
            }),
    {
        let mut out: Vec<Paint> = Vec::new();
        if band.height == 0 {
            self.last_history_rect = None;
            assert(scene::paints_view(out@) =~= Seq::<PaintView>::empty());
            return out;
        }
        let theme = &app.theme;
        let area = Rect {
            x: add16(band.x, 1),
            y: add16(band.y, 1),
            width: band.width.saturating_sub(2),
            height: band.height.saturating_sub(1),
        };
        let divider = draw_history_divider(theme, band, self.last_kitty_reservation);
        assert(scene::paints_view(out@) =~= Seq::<PaintView>::empty());
        paint_cells(&mut out, &divider);
        let ghost rule = glyphs(divider@);
        assert(scene::paints_view(out@) =~= rule);
        assert(self.truthful(*app, area.width as usize));
        let lines = self.history(app, area.width as usize, area.height as usize);
        self.last_history_rect = Some(area);
        let title = String::new();
        let bottom = String::new();
        assert(title@ =~= Seq::<char>::empty() && bottom@ =~= Seq::<char>::empty());
        paint(
            &mut out,
            Paint::Border {
                area: Rect { x: band.x, y: area.y, width: band.width, height: area.height },
                title,
                bottom,
                all: false,
                ascii: theme.ascii,
                border: Style::new().fg(color(theme.border.as_str())),
                style: Style::new(),
            },
        );
        paint(&mut out, rows_paint(area, lines));
        out
    }
}

/// A frame was drawn: the renderer went from `a` to `b` and painted `out`.
pub open spec fn is_frame(
    a: Renderer,
    app: App,
    screen: Rect,
    p: Plan,
    g: Regions,
    b: Renderer,
    out: Seq<PaintView>,
) -> bool {
    &&& is_plan(p, a, app, screen)
    &&& arranged(app, p, g)
    &&& out == frame_scene(app, screen, p, g)
    &&& composed(a, app, screen, p, g, b)
}

/// Draws what lies over the transcript and the composer.
fn draw_modals(app: &App, plan: &Plan, regions: &Regions) -> (r: Vec<Paint>)
    requires
        app.wf(),
        regions.wf(),
    ensures
        scene::paints_view(r@) == modal_scene(*app, *plan, *regions),
{
    let theme = &app.theme;
    let scroll: usize = app.overlay_scroll;
    let place = overlay_place(plan.content);
    let mut out: Vec<Paint> = Vec::new();
    assert(scene::paints_view(out@) =~= Seq::<PaintView>::empty());
    if let Some(picker) = &app.picker {
        let more = draw_picker(
            picker,
            theme,
            dialog_place(plan.content),
            &regions.dialog,
            app.approval.is_none() && !app.help,
        );
        paint_all(&mut out, more);
    }
    let ghost s1 = scene::paints_view(out@);
    if app.workflow_complete {
        let body = complete_body(app);
        let more = draw_overlay(
            "Workflow complete",
            body.as_str(),
            None,
            scroll,
            theme,
            place,
            &regions.overlay,
        );
        paint_all(&mut out, more);
    }
    let ghost s2 = scene::paints_view(out@);
    if app.help {
        let more = draw_overlay("Help", HELP, None, scroll, theme, place, &regions.overlay);
        paint_all(&mut out, more);
    }
    let ghost s3 = scene::paints_view(out@);
    if let Some(approval) = &app.approval {
        let choices = if approval.workflow {
            " y Continue | r Retry | s Skip | q Abort "
        } else {
            " y Yes | n No | q Abort "
        };
        let more = draw_overlay(
            approval.title.as_str(),
            approval.detail.as_str(),
            Some(choices),
            scroll,
            theme,
            place,
            &regions.approval,
        );
        paint_all(&mut out, more);
    }
    assert(scene::paints_view(out@) =~= modal_scene(*app, *plan, *regions));
    out
}

} // verus!
