//! How an area is split into parts.
use crate::artwork;
use crate::renderer::Rect;
use ratatui::layout::{Constraint, Direction, Layout};
use vstd::prelude::*;

verus! {

/// A part of an area: so many cells, or at least so many.
#[derive(Debug, Clone, Copy, PartialEq, Eq, Structural)]
pub enum Part {
    Length(u16),
    Min(u16),
}

/// Where an area starts along the split.
pub open spec fn start_of(area: Rect, vertical: bool) -> int {
    if vertical {
        area.y as int
    } else {
        area.x as int
    }
}

/// Where an area ends along the split.
pub open spec fn end_of(area: Rect, vertical: bool) -> int {
    if vertical {
        artwork::bottom_of(area) as int
    } else {
        artwork::right_of(area) as int
    }
}

/// Cells that parts are sure to take: all of a fixed part, the least of
/// another.
pub open spec fn needed(parts: Seq<Part>) -> int
    decreases parts.len(),
{
    if parts.len() == 0 {
        0
    } else {
        needed(parts.drop_last()) + match parts.last() {
            Part::Length(n) => n as int,
            Part::Min(n) => n as int,
        }
    }
}

/// Cells of the fixed parts.
pub open spec fn fixed(parts: Seq<Part>) -> int
    decreases parts.len(),
{
    if parts.len() == 0 {
        0
    } else {
        fixed(parts.drop_last()) + match parts.last() {
            Part::Length(n) => n as int,
            Part::Min(_) => 0,
        }
    }
}

/// Number of parts that may grow.
pub open spec fn growing(parts: Seq<Part>) -> int
    decreases parts.len(),
{
    if parts.len() == 0 {
        0
    } else {
        growing(parts.drop_last()) + match parts.last() {
            Part::Length(_) => 0int,
            Part::Min(_) => 1,
        }
    }
}

/// The parts have room in the area, and at most one of them can grow.
pub open spec fn fits(area: Rect, vertical: bool, parts: Seq<Part>) -> bool {
    growing(parts) <= 1 && needed(parts) <= end_of(area, vertical) - start_of(area, vertical)
}

/// Cells of a part when the fixed ones leave `rest` cells.
pub open spec fn part_cells(part: Part, rest: int) -> int {
    match part {
        Part::Length(n) => n as int,
        Part::Min(_) => rest,
    }
}

/// Cells of the first `k` parts when the fixed ones leave `rest` cells.
pub open spec fn cells_before(parts: Seq<Part>, rest: int, k: int) -> int
    decreases k,
{
    if k <= 0 {
        0
    } else {
        cells_before(parts, rest, k - 1) + part_cells(parts[k - 1], rest)
    }
}

/// The cells from `from` on of an area, across all of it.
pub open spec fn slice(area: Rect, vertical: bool, from: int, cells: int) -> Rect {
    if vertical {
        Rect { y: from as u16, height: cells as u16, ..area }
    } else {
        Rect { x: from as u16, width: cells as u16, ..area }
    }
}

/// A part of an area in which all parts have room: it stands behind those
/// before it, and the growing one takes what the fixed ones leave.
pub open spec fn laid_out(area: Rect, vertical: bool, parts: Seq<Part>, k: int) -> Rect {
    let rest = end_of(area, vertical) - start_of(area, vertical) - fixed(parts);
    slice(
        area,
        vertical,
        start_of(area, vertical) + cells_before(parts, rest, k),
        part_cells(parts[k], rest),
    )
}

/// The rectangle lies in the area, and across the split it takes all of it.
pub open spec fn lies_in(r: Rect, area: Rect, vertical: bool) -> bool {
    &&& if vertical {
        r.x == area.x && r.width == area.width
    } else {
        r.y == area.y && r.height == area.height
    }
    &&& start_of(area, vertical) <= start_of(r, vertical)
    &&& end_of(r, vertical) <= end_of(area, vertical)
}

/// The rectangles are the parts of an area.
pub open spec fn is_split(area: Rect, vertical: bool, parts: Seq<Part>, r: Seq<Rect>) -> bool {
    &&& r.len() == parts.len()
    &&& forall|k: int| 0 <= k < r.len() ==> lies_in(#[trigger] r[k], area, vertical)
    &&& fits(area, vertical, parts) ==> forall|k: int|
        0 <= k < r.len() ==> #[trigger] r[k] == laid_out(area, vertical, parts, k)
}

/// Splits an area into parts, one below or beside the other, with
/// `ratatui::layout::Layout::split`. There is one rectangle for each part, and
/// each lies in the area. Where all parts have room and at most one can grow,
/// they follow each other from the start of the area, the fixed ones at their
/// lengths and the growing one in all that is left. Where the room does not
/// suffice nothing is said of how it is shared out: fixed parts are then cut
/// with equal right, and which of them is cut depends on the order in which the
/// layout's solver walks its hash maps.
#[verifier::external_body]
pub(crate) fn split(area: Rect, vertical: bool, parts: &Vec<Part>) -> (r: Vec<Rect>)
    ensures
        is_split(area, vertical, parts@, r@),
{
    let direction = if vertical { Direction::Vertical } else { Direction::Horizontal };
    let constraints = parts.iter().map(|part| match part {
        Part::Length(n) => Constraint::Length(*n),
        Part::Min(n) => Constraint::Min(*n),
    });
    let Rect { x, y, width, height } = area;
    let whole = ratatui::layout::Rect { x, y, width, height };
    let rects = Layout::new(direction, constraints).split(whole);
    rects.iter().map(|r| Rect { x: r.x, y: r.y, width: r.width, height: r.height }).collect()
}

} // verus!
