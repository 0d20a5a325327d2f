use vstd::prelude::*;
use ratatui::layout::{Constraint, Direction, Layout, Rect};

verus! {

/// A rectangle of terminal cells: its top-left corner and its size.
#[derive(Debug, Clone, Copy, PartialEq, Eq, Structural)]
pub struct ScreenRect {
    pub x: u16,
    pub y: u16,
    pub width: u16,
    pub height: u16,
}

/// `n` hundredths rounded to a whole number, halves away from zero.
pub open spec fn round_hundredths(n: int) -> int {
    (n + 50) / 100
}

/// The length of `len` cells from `start` that stays within `u16` (ratatui's `Rect::new`).
pub open spec fn clamped(start: u16, len: u16) -> int {
    if len > u16::MAX - start {
        u16::MAX - start
    } else {
        len as int
    }
}

/// The middle part of `area` when ratatui's layout splits it, vertically or horizontally, into
/// three parts of `side`, `middle` and `side` percent, these adding up to at most 100: the
/// parts are laid from the start of the area, each of its percentage of the area's length,
/// boundaries rounded to whole cells; across, the part spans the area.
pub open spec fn layout_middle_part(vertical: bool, side: u16, middle: u16, area: ScreenRect) -> ScreenRect {
    let start: int = if vertical { area.y as int } else { area.x as int };
    let size: int = if vertical { clamped(area.y, area.height) } else { clamped(area.x, area.width) };
    let first = start + round_hundredths(size * side);
    let last = start + round_hundredths(size * (side + middle));
    if vertical {
        ScreenRect {
            x: area.x,
            y: first as u16,
            width: clamped(area.x, area.width) as u16,
            height: (last - first) as u16,
        }
    } else {
        ScreenRect {
            x: first as u16,
            y: area.y,
            width: (last - first) as u16,
            height: clamped(area.y, area.height) as u16,
        }
    }
}

/// Calls ratatui's `Layout::split` with the constraints `Percentage(side)`, `Percentage(middle)`,
/// `Percentage(side)` in the given direction, and returns the middle part. When the three
/// percentages add up to at most 100, the solver's optimum is unique: the parts lie from the
/// area's start, each of its percentage, and the boundaries are rounded to whole cells, halves
/// away from zero (`changes_to_rects`). Otherwise ties between equal-cost solutions would be
/// broken by hash-map order, so such inputs are not admitted.
#[verifier::external_body]
fn split_middle(vertical: bool, side: u16, middle: u16, area: ScreenRect) -> (r: ScreenRect)
    requires
        2 * side + middle <= 100,
    ensures
        r == layout_middle_part(vertical, side, middle, area),
{
    let direction = if vertical { Direction::Vertical } else { Direction::Horizontal };
    let parts = Layout::default().direction(direction).constraints([
        Constraint::Percentage(side),
        Constraint::Percentage(middle),
        Constraint::Percentage(side),
    ]).split(Rect::new(area.x, area.y, area.width, area.height));
    ScreenRect { x: parts[1].x, y: parts[1].y, width: parts[1].width, height: parts[1].height }
}

/// The rectangle of `percent_x` by `percent_y` percent in the middle of `r`: the middle row of
/// a vertical split, then the middle column of that.
pub fn centered_rect(percent_x: u16, percent_y: u16, r: ScreenRect) -> (c: ScreenRect)
    requires
        percent_x <= 100,
        percent_y <= 100,
    ensures
        c == layout_middle_part(
            false,
            ((100 - percent_x) / 2) as u16,
            percent_x,
            layout_middle_part(true, ((100 - percent_y) / 2) as u16, percent_y, r),
        ),
{
    let row = split_middle(true, (100 - percent_y) / 2, percent_y, r);
    split_middle(false, (100 - percent_x) / 2, percent_x, row)
}

proof fn lemma_round_bounds(size: int, a: int, b: int)
    requires
        0 <= size,
        0 <= a <= b <= 100,
    ensures
        0 <= round_hundredths(size * a) <= round_hundredths(size * b) <= size,
{
    assert(0 <= size * a <= size * b <= size * 100) by (nonlinear_arith)
        requires
            0 <= size,
            0 <= a <= b <= 100,
    ;
    assert((size * 100 + 50) / 100 == size);
}

/// Law: the centred rectangle lies inside the area it is centred in, when that area stays
/// within the terminal's `u16` coordinates.
pub proof fn law_centered_rect_lies_inside(percent_x: u16, percent_y: u16, r: ScreenRect)
    requires
        percent_x <= 100,
        percent_y <= 100,
        r.x + r.width <= u16::MAX,
        r.y + r.height <= u16::MAX,
    ensures
        ({
            let c = layout_middle_part(
                false,
                ((100 - percent_x) / 2) as u16,
                percent_x,
                layout_middle_part(true, ((100 - percent_y) / 2) as u16, percent_y, r),
            );
            &&& r.x <= c.x
            &&& c.x + c.width <= r.x + r.width
            &&& r.y <= c.y
            &&& c.y + c.height <= r.y + r.height
        }),
{
    let sy = ((100 - percent_y) / 2) as u16;
    let sx = ((100 - percent_x) / 2) as u16;
    lemma_round_bounds(r.height as int, sy as int, sy + percent_y);
    let row = layout_middle_part(true, sy, percent_y, r);
    assert(row.x == r.x && row.width == r.width);
    assert(r.y <= row.y && row.y + row.height <= r.y + r.height);
    lemma_round_bounds(row.width as int, sx as int, sx + percent_x);
}

} // verus!
