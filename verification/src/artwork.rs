//! The artwork in the header: which frame of it shows, which cells it paints,
//! and what a click behind it hits.
use crate::history;
use crate::kitty;
use crate::kitty::{frame_delay_ms, render_idle, render_processing, variant_of, KittyVariant};
use crate::model::{Theme, ThemeView};
use crate::renderer::{Rect, Renderer};
use crate::style;
use crate::style::{Line, LineView, SpanView, Style};
use crate::text;
use crate::text::{chars_of, is_white_space};
use crate::width;
use crate::width::cell_width;
use vstd::prelude::*;

verus! {

/// One painted cell.
#[derive(Debug, Clone, Copy, PartialEq, Eq, Structural)]
pub struct Cell {
    pub x: u16,
    pub y: u16,
    pub symbol: char,
    pub style: Style,
}

/// A number of cells, held at the largest that a terminal counts.
pub open spec fn cells16(n: int) -> u16 {
    if n < 0 {
        0
    } else if n > u16::MAX {
        u16::MAX
    } else {
        n as u16
    }
}

/// The column behind a rectangle.
pub open spec fn right_of(r: Rect) -> u16 {
    cells16(r.x + r.width)
}

/// The row below a rectangle.
pub open spec fn bottom_of(r: Rect) -> u16 {
    cells16(r.y + r.height)
}

/// The cell lies in the rectangle.
pub open spec fn inside(r: Rect, column: u16, row: u16) -> bool {
    r.y <= row < bottom_of(r) && r.x <= column < right_of(r)
}

/// The cell is one that the artwork painted.
pub open spec fn is_painted(paint: Seq<(u16, u16, u16)>, column: u16, row: u16) -> bool {
    exists|k: int|
        0 <= k < paint.len() && (#[trigger] paint[k]).0 == row && paint[k].1 <= column
            < paint[k].2
}

/// The activity whose summary a cell belongs to: one of the rows in view, and
/// not painted over by the artwork.
pub open spec fn target_at(r: Renderer, column: u16, row: u16) -> Option<Seq<char>> {
    match r.last_history_rect {
        Some(rect) if inside(rect, column, row) && !is_painted(
            r.last_kitty_paint@,
            column,
            row,
        ) && row - rect.y < r.hit_map@.len() => history::hits_view(r.hit_map@)[row - rect.y],
        _ => None,
    }
}

/// The frame that follows in time: a run starts with the first one, a frame
/// stays for its delay, and without a run the animation rests.
pub open spec fn advanced(r: Renderer, busy: bool, now: u128) -> Renderer {
    let variant = kitty::variant_number(r.variant_offset as int % kitty::VARIANT_COUNT as int);
    let delays = kitty::delays_of(variant);
    let delay = delays[r.processing_frame as int % delays.len() as int] as int;
    if !busy {
        Renderer { processing_frame: 0, processing_tick: None, was_busy: false, ..r }
    } else if !r.was_busy {
        Renderer { processing_frame: 0, processing_tick: Some(now), was_busy: true, ..r }
    } else if r.processing_tick is Some && (if now > r.processing_tick->0 {
        now - r.processing_tick->0
    } else {
        0
    }) >= delay * 1000000 {
        Renderer {
            processing_frame: text::clip(r.processing_frame + 1) as usize,
            processing_tick: Some(now),
            ..r
        }
    } else {
        r
    }
}

/// The rows of the artwork: animated during a run, at rest otherwise.
pub open spec fn artwork(variant: KittyVariant, busy: bool, frame: int, theme: ThemeView) -> Seq<
    LineView,
> {
    let rest = kitty::canvas(kitty::source_of(variant));
    kitty::painted(
        if busy {
            kitty::animated(variant, rest, frame % kitty::delays_of(variant).len() as int)
        } else {
            rest
        },
        style::color_of(theme.border),
    )
}

/// The widest of some rows, in cells.
pub open spec fn widest(rows: Seq<LineView>) -> int
    decreases rows.len(),
{
    if rows.len() == 0 {
        0
    } else {
        let before = widest(rows.drop_last());
        let last = text::clip(style::spans_width(rows.last().spans) as int);
        if last > before {
            last
        } else {
            before
        }
    }
}

/// The characters of a row, each in its style.
pub open spec fn inked(spans: Seq<SpanView>, under: Style) -> Seq<(char, Style)>
    decreases spans.len(),
{
    if spans.len() == 0 {
        Seq::empty()
    } else {
        let s = spans.last();
        inked(spans.drop_last(), under) + s.content.map_values(
            |c: char| (c, under.patched(s.style)),
        )
    }
}

/// What the first characters of a row paint: the column that follows, the
/// painted cells, and the columns that they span.
pub struct Stroke {
    pub column: u16,
    pub cells: Seq<Cell>,
    pub start: Option<u16>,
    pub end: u16,
}

/// What a row of characters paints at the row `y` of an area. White space
/// paints nothing, and neither does what lies right of the area.
pub open spec fn stroke(glyphs: Seq<(char, Style)>, area: Rect, y: u16) -> Stroke
    decreases glyphs.len(),
{
    if glyphs.len() == 0 {
        Stroke { column: 0, cells: Seq::empty(), start: None, end: 0 }
    } else {
        let before = stroke(glyphs.drop_last(), area, y);
        let (c, style) = glyphs.last();
        let n = width::cells(c) as int;
        let column = cells16(before.column + n);
        if !text::white(c) && before.column < area.width {
            let x = cells16(area.x + before.column);
            let edge = cells16(
                x + if n > 1 {
                    n
                } else {
                    1
                },
            );
            Stroke {
                column,
                cells: before.cells.push(Cell { x, y, symbol: c, style }),
                start: match before.start {
                    Some(s) if s < x => Some(s),
                    _ => Some(x),
                },
                end: if edge > before.end {
                    edge
                } else {
                    before.end
                },
            }
        } else {
            Stroke { column, ..before }
        }
    }
}

/// The cells that the first `n` rows paint.
pub open spec fn painted_cells(rows: Seq<LineView>, area: Rect, n: int) -> Seq<Cell>
    decreases n,
{
    if n <= 0 {
        Seq::empty()
    } else {
        let row = rows[n - 1];
        painted_cells(rows, area, n - 1) + stroke(
            inked(row.spans, row.style),
            area,
            cells16(area.y + n - 1),
        ).cells
    }
}

/// The columns that the first `n` rows paint, for each row that paints any.
pub open spec fn painted_spans(rows: Seq<LineView>, area: Rect, n: int) -> Seq<(u16, u16, u16)>
    decreases n,
{
    if n <= 0 {
        Seq::empty()
    } else {
        let row = rows[n - 1];
        let y = cells16(area.y + n - 1);
        let s = stroke(inked(row.spans, row.style), area, y);
        match s.start {
            Some(x) => painted_spans(rows, area, n - 1).push((y, x, s.end)),
            None => painted_spans(rows, area, n - 1),
        }
    }
}

/// The smaller of two numbers of cells.
pub open spec fn least(a: u16, b: u16) -> u16 {
    if a < b {
        a
    } else {
        b
    }
}

/// Where the artwork goes: at the right of the columns that it has to itself,
/// cut to these, to the rows above the composer and to the screen.
pub open spec fn artwork_area(rows: Seq<LineView>, area: Rect, screen: Rect) -> Rect {
    let w = least(least(cells16(widest(rows)), area.width), screen.width);
    let h = least(
        least(cells16(rows.len() as int), area.height),
        cells16(screen.height - area.y),
    );
    if widest(rows) == 0 || w == 0 || h == 0 {
        Rect { x: 0, y: 0, width: 0, height: 0 }
    } else {
        Rect { x: cells16(right_of(area) - w), y: area.y, width: w, height: h }
    }
}

/// The sum of two numbers of cells.
pub fn add16(a: u16, b: u16) -> (r: u16)
    ensures
        r == cells16(a + b),
{
    a.saturating_add(b)
}

/// A count as a number of cells.
pub fn to16(n: usize) -> (r: u16)
    ensures
        r == cells16(n as int),
{
    if n > 0xffff {
        0xffff
    } else {
        n as u16
    }
}

/// The smaller of two numbers of cells.
pub fn min16(a: u16, b: u16) -> (r: u16)
    ensures
        r == least(a, b),
{
    if a < b {
        a
    } else {
        b
    }
}

impl Renderer {
    /// The activity whose summary is drawn at a cell. Cells outside of the
    /// view, painted by the artwork, or of any other row have none.
    pub fn activity_at(&self, column: u16, row: u16) -> (r: Option<String>)
        ensures
            match r {
                Some(id) => target_at(*self, column, row) == Some(id@),
                None => target_at(*self, column, row) is None,
            },
    {
        let rect = match self.last_history_rect {
            Some(rect) => rect,
            None => {
                return None;
            },
        };
        if row < rect.y || row >= add16(rect.y, rect.height) {
            return None;
        }
        if column < rect.x || column >= add16(rect.x, rect.width) {
            return None;
        }
        let mut k: usize = 0;
        while k < self.last_kitty_paint.len()
            invariant
                k <= self.last_kitty_paint@.len(),
                self.last_history_rect == Some(rect),
                forall|j: int|
                    0 <= j < k ==> !((#[trigger] self.last_kitty_paint@[j]).0 == row
                        && self.last_kitty_paint@[j].1 <= column < self.last_kitty_paint@[j].2),
            decreases self.last_kitty_paint@.len() - k,
        {
            let (y, start, end) = self.last_kitty_paint[k];
            if y == row && column >= start && column < end {
                assert(self.last_kitty_paint@[k as int].0 == row);
                return None;
            }
            k = k + 1;
        }
        let index: usize = (row - rect.y) as usize;
        if index >= self.hit_map.len() {
            return None;
        }
        assert(history::hits_view(self.hit_map@)[index as int] == match self.hit_map@[index as int] {
            Some(summary) => Some(summary.id@),
            None => None,
        });
        match &self.hit_map[index] {
            Some(summary) => Some(summary.id.clone()),
            None => None,
        }
    }

    /// Chooses the artwork of the session.
    pub fn set_variant_offset(&mut self, offset: usize)
        ensures
            *final(self) == (Renderer {
                variant_offset: (offset as int % kitty::VARIANT_COUNT as int) as usize,
                ..*old(self)
            }),
    {
        self.variant_offset = offset % kitty::VARIANT_COUNT;
    }

    /// Tells the renderer when the session was launched. The artwork does not
    /// rotate, so nothing depends on it.
    pub fn set_launch(&mut self, _launch: u128)
        ensures
            *final(self) == *old(self),
    {
    }

    /// Whether the passing of time alone asks for a redraw: it never does, the
    /// artwork does not rotate.
    pub fn variant_dirty(&mut self, _now: u128) -> (r: bool)
        ensures
            !r,
            *final(self) == *old(self),
    {
        false
    }

    /// The artwork of the session; it does not change with time.
    pub fn current_variant(&self) -> (r: KittyVariant)
        ensures
            r == kitty::variant_number(self.variant_offset as int % kitty::VARIANT_COUNT as int),
    {
        variant_of(self.variant_offset % kitty::VARIANT_COUNT)
    }

    /// Advances the animation. `now` is a time in nanoseconds.
    pub fn advance(&mut self, busy: bool, now: u128)
        ensures
            *final(self) == advanced(*old(self), busy, now),
    {
        if !busy {
            self.processing_frame = 0;
            self.processing_tick = None;
        } else if !self.was_busy {
            self.processing_frame = 0;
            self.processing_tick = Some(now);
        } else {
            let delay: u64 = frame_delay_ms(self.current_variant(), self.processing_frame);
            if let Some(tick) = self.processing_tick {
                if now.saturating_sub(tick) >= delay as u128 * 1000000 {
                    self.processing_frame = self.processing_frame.saturating_add(1);
                    self.processing_tick = Some(now);
                }
            }
        }
        self.was_busy = busy;
    }
}

/// The rows of the artwork: animated during a run, at rest otherwise.
pub fn kitty_rows(variant: KittyVariant, busy: bool, processing_frame: usize, theme: &Theme) -> (r:
    Vec<Line>)
    ensures
        style::lines_view(r@) == artwork(variant, busy, processing_frame as int, theme@),
{
    if busy {
        render_processing(variant, processing_frame, theme)
    } else {
        render_idle(variant, theme)
    }
}

/// The widest of some rows, in cells.
pub fn widest_row(rows: &Vec<Line>) -> (r: usize)
    ensures
        r == widest(style::lines_view(rows@)),
{
    let ghost all = style::lines_view(rows@);
    let mut most: usize = 0;
    let mut i: usize = 0;
    assert(all.take(0) =~= Seq::<LineView>::empty());
    while i < rows.len()
        invariant
            i <= rows@.len(),
            all == style::lines_view(rows@),
            most == widest(all.take(i as int)),
        decreases rows@.len() - i,
    {
        assert(all.take(i + 1).drop_last() =~= all.take(i as int));
        assert(all[i as int] == rows@[i as int]@);
        let n: usize = rows[i].width();
        if n > most {
            most = n;
        }
        i = i + 1;
    }
    assert(all.take(i as int) =~= all);
    most
}

/// The characters of a row, each in its style.
fn ink_of(line: &Line) -> (r: Vec<(char, Style)>)
    ensures
        r@ == inked(line@.spans, line@.style),
{
    let ghost all = line@.spans;
    let mut out: Vec<(char, Style)> = Vec::new();
    let mut i: usize = 0;
    assert(all.take(0) =~= Seq::<SpanView>::empty());
    while i < line.spans.len()
        invariant
            i <= line.spans@.len(),
            all == line@.spans,
            out@ == inked(all.take(i as int), line.style),
        decreases line.spans@.len() - i,
    {
        assert(all.take(i + 1).drop_last() =~= all.take(i as int));
        assert(all[i as int] == line.spans@[i as int]@);
        let style = line.style.patch(line.spans[i].style);
        let v = chars_of(line.spans[i].content.as_str());
        let ghost before = out@;
        let ghost more = v@.map_values(|c: char| (c, style));
        let mut j: usize = 0;
        assert(before + more.take(0) =~= before);
        while j < v.len()
            invariant
                j <= v@.len(),
                more == v@.map_values(|c: char| (c, style)),
                out@ == before + more.take(j as int),
            decreases v@.len() - j,
        {
            assert((before + more.take(j as int)).push((v@[j as int], style)) =~= before
                + more.take(j + 1));
            out.push((v[j], style));
            j = j + 1;
        }
        assert(more.take(j as int) =~= more);
        i = i + 1;
    }
    assert(all.take(i as int) =~= all);
    out
}

/// A painted cell.
fn cell_at(x: u16, y: u16, symbol: char, style: Style) -> (r: Cell)
    ensures
        r == (Cell { x, y, symbol, style }),
{
    Cell { x, y, symbol, style }
}

/// Appends the cells that a row of characters paints, and gives the columns
/// that they span.
fn paint_row(ink: &Vec<(char, Style)>, area: Rect, y: u16, cells: &mut Vec<Cell>) -> (r: Option<
    (u16, u16),
>)
    ensures
        final(cells)@ == old(cells)@ + stroke(ink@, area, y).cells,
        r == match stroke(ink@, area, y).start {
            Some(x) => Some((x, stroke(ink@, area, y).end)),
            None => None,
        },
{
    let ghost before = cells@;
    let mut column: u16 = 0;
    let mut start: Option<u16> = None;
    let mut end: u16 = 0;
    let mut j: usize = 0;
    let ghost mut now = stroke(ink@.take(0), area, y);
    assert(ink@.take(0) =~= Seq::<(char, Style)>::empty());
    assert(cells@ =~= before + now.cells);
    while j < ink.len()
        invariant
            j <= ink@.len(),
            now == stroke(ink@.take(j as int), area, y),
            cells@ == before + now.cells,
            column == now.column,
            start == now.start,
            end == now.end,
        decreases ink@.len() - j,
    {
        let (c, style) = ink[j];
        let n: u16 = cell_width(c) as u16;
        let ghost was = now;
        proof {
            let next = ink@.take(j + 1);
            assert(next.drop_last() =~= ink@.take(j as int));
            assert(next.last() == (c, style));
            now = stroke(next, area, y);
        }
        if !is_white_space(c) && column < area.width {
            let x: u16 = add16(area.x, column);
            let cell = cell_at(x, y, c, style);
            assert(now.cells == was.cells.push(cell));
            cells.push(cell);
            assert((before + was.cells).push(cell) =~= before + was.cells.push(cell));
            let earlier = match start {
                Some(s) => s < x,
                None => false,
            };
            if !earlier {
                start = Some(x);
            }
            let edge: u16 = add16(
                x,
                if n > 1 {
                    n
                } else {
                    1
                },
            );
            if edge > end {
                end = edge;
            }
        }
        column = add16(column, n);
        j = j + 1;
    }
    assert(ink@.take(j as int) =~= ink@);
    match start {
        Some(x) => Some((x, end)),
        None => None,
    }
}

/// The cells that the artwork paints in an area, and the columns that each row
/// of them spans.
pub fn paint_artwork(rows: &Vec<Line>, area: Rect) -> (r: (Vec<Cell>, Vec<(u16, u16, u16)>))
    ensures
        ({
            let all = style::lines_view(rows@);
            let n = if area.height < all.len() {
                area.height as int
            } else {
                all.len() as int
            };
            &&& r.0@ == painted_cells(all, area, n)
            &&& r.1@ == painted_spans(all, area, n)
        }),
{
    let ghost all = style::lines_view(rows@);
    let n: usize = if (area.height as usize) < rows.len() {
        area.height as usize
    } else {
        rows.len()
    };
    let mut cells: Vec<Cell> = Vec::new();
    let mut spans: Vec<(u16, u16, u16)> = Vec::new();
    let mut i: usize = 0;
    while i < n
        invariant
            i <= n <= rows@.len(),
            n <= area.height,
            all == style::lines_view(rows@),
            cells@ == painted_cells(all, area, i as int),
            spans@ == painted_spans(all, area, i as int),
        decreases n - i,
    {
        assert(all[i as int] == rows@[i as int]@);
        let y: u16 = add16(area.y, i as u16);
        let ink = ink_of(&rows[i]);
        if let Some((x, end)) = paint_row(&ink, area, y, &mut cells) {
            spans.push((y, x, end));
        }
        i = i + 1;
    }
    (cells, spans)
}

/// Where the artwork goes on a screen.
pub fn artwork_place(rows: &Vec<Line>, area: Rect, screen: Rect) -> (r: Rect)
    ensures
        r == artwork_area(style::lines_view(rows@), area, screen),
{
    assert(style::lines_view(rows@).len() == rows@.len());
    let widest: usize = widest_row(rows);
    let w: u16 = min16(min16(to16(widest), area.width), screen.width);
    let h: u16 = min16(
        min16(to16(rows.len()), area.height),
        screen.height.saturating_sub(area.y),
    );
    if widest == 0 || w == 0 || h == 0 {
        return Rect { x: 0, y: 0, width: 0, height: 0 };
    }
    Rect { x: add16(area.x, area.width).saturating_sub(w), y: area.y, width: w, height: h }
}

impl Renderer {
    /// Paints the artwork at the right of an area, and remembers which cells it
    /// painted.
    pub fn draw_kitty(&mut self, rows: &Vec<Line>, area: Rect, screen: Rect) -> (r: Vec<Cell>)
        ensures
            ({
                let all = style::lines_view(rows@);
                let place = artwork_area(all, area, screen);
                let n = if place.height < all.len() {
                    place.height as int
                } else {
                    all.len() as int
                };
                &&& r@ == painted_cells(all, place, n)
                &&& final(self).last_kitty_paint@ == painted_spans(all, place, n)
            }),
            *final(self) == (Renderer {
                last_kitty_paint: final(self).last_kitty_paint,
                ..*old(self)
            }),
    {
        let place = artwork_place(rows, area, screen);
        let (cells, spans) = paint_artwork(rows, place);
        self.last_kitty_paint = spans;
        cells
    }
}

} // verus!
