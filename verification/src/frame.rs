//! The frame round the seats: a border on all four sides of the screen area,
//! and the area that the border leaves free.

use crate::layout::Rect;
use ratatui::widgets::{Block, Borders};
use vstd::prelude::*;

verus! {

/// `a + b`, or the largest coordinate where the sum is beyond it.
pub open spec fn capped_sum(a: u16, b: u16) -> u16 {
    if a + b <= u16::MAX {
        (a + b) as u16
    } else {
        u16::MAX
    }
}

/// `a - b`, or zero where `b` is the larger.
pub open spec fn floored_difference(a: u16, b: u16) -> u16 {
    if a >= b {
        (a - b) as u16
    } else {
        0
    }
}

/// The smaller of two coordinates.
pub open spec fn lesser(a: u16, b: u16) -> u16 {
    if a <= b {
        a
    } else {
        b
    }
}

/// What a border of one cell on every side leaves of `area`: the corner moves
/// in by one column and one line, though not beyond the far edges of the
/// area, and the extent shrinks by two each way, though not below zero.
pub open spec fn interior(area: Rect) -> Rect {
    Rect {
        x: lesser(capped_sum(area.x, 1), capped_sum(area.x, area.width)),
        y: lesser(capped_sum(area.y, 1), capped_sum(area.y, area.height)),
        width: floored_difference(area.width, 2),
        height: floored_difference(area.height, 2),
    }
}

/// The area inside the frame that is drawn round `area`.
///
/// Trusted: the body asks ratatui's `Block::inner` what a block with
/// `Borders::ALL`, no padding and no style leaves of the area. For each
/// border that method moves the near edge in by one with a saturating sum,
/// capped at the far edge, and shortens the extent by one with a saturating
/// difference; `interior` writes out the four sides together.
#[verifier::external_body]
pub(crate) fn frame_inner(area: Rect) -> (inner: Rect)
    ensures
        inner == interior(area),
{
    let outer = ratatui::layout::Rect {
        x: area.x,
        y: area.y,
        width: area.width,
        height: area.height,
    };
    let inner = Block::default().borders(Borders::ALL).inner(outer);
    Rect { x: inner.x, y: inner.y, width: inner.width, height: inner.height }
}

/// The frame stays inside its area: every position that the frame leaves
/// free is a position of the area, and none of them lies on the outermost
/// columns or lines of an area that is on the screen.
pub proof fn interior_within(area: Rect, px: int, py: int)
    requires
        interior(area).contains(px, py),
    ensures
        area.contains(px, py),
        area.on_screen() ==> area.x < px < area.right() - 1 && area.y < py < area.bottom() - 1,
{
}

} // verus!
