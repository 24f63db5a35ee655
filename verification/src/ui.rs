use vstd::prelude::*;
use crate::text::chars_of;
use ratatui::layout::{Constraint, Layout, Rect};

verus! {

/// A rectangle of the screen, in cells.
#[derive(Clone, Copy, PartialEq, Eq, Structural, Debug)]
pub struct Area {
    pub x: u16,
    pub y: u16,
    pub width: u16,
    pub height: u16,
}

/// The width of the message toast for a message of `len` characters: the
/// message and two cells of padding on each side (counted modulo 2^16, as a
/// `u16` holds it), at most the screen's width.
pub open spec fn toast_width(len: nat, screen_width: u16) -> u16 {
    let w = ((len as u16) + 4) as u16;
    if w <= screen_width {
        w
    } else {
        screen_width
    }
}

/// Where the message toast is drawn: one line, right-aligned, on the
/// second line from the bottom of a screen of the given size.
pub fn toast_area(message: &str, screen_width: u16, screen_height: u16) -> (a: Area)
    requires
        (message@.len() as u16) + 4 <= u16::MAX,
    ensures
        a == (Area {
            x: screen_width.saturating_sub(toast_width(message@.len(), screen_width)),
            y: screen_height.saturating_sub(2),
            width: toast_width(message@.len(), screen_width),
            height: 1,
        }),
{
    let n = chars_of(message).len();
    let w = ((n as u16) + 4).min(screen_width);
    Area { x: screen_width.saturating_sub(w), y: screen_height.saturating_sub(2), width: w, height: 1 }
}

/// The middle part of `area` split top to bottom into `Fill(1)`,
/// `Length(h)`, `Fill(1)`, as ratatui's layout solver places it.
pub uninterp spec fn vertical_middle(h: u16, area: Area) -> Area;

/// The middle part of `area` split left to right into `Fill(1)`,
/// `Length(w)`, `Fill(1)`, as ratatui's layout solver places it.
pub uninterp spec fn horizontal_middle(w: u16, area: Area) -> Area;

/// `Layout::vertical([Fill(1), Length(h), Fill(1)]).areas(area)`, its middle
/// part. The solver's placement is named, not stated; a vertical split keeps
/// the area's left edge and width (ratatui's `changes_to_rects`).
#[verifier::external_body]
fn split_vertical(h: u16, area: Area) -> (r: Area)
    ensures
        r == vertical_middle(h, area),
        r.x == area.x,
        r.width == area.width,
{
    let a = Rect { x: area.x, y: area.y, width: area.width, height: area.height };
    let [_, m, _] = Layout::vertical([Constraint::Fill(1), Constraint::Length(h), Constraint::Fill(1)])
        .areas(a);
    Area { x: m.x, y: m.y, width: m.width, height: m.height }
}

/// `Layout::horizontal([Fill(1), Length(w), Fill(1)]).areas(area)`, its
/// middle part. The solver's placement is named, not stated; a horizontal
/// split keeps the area's top edge and height (ratatui's `changes_to_rects`).
#[verifier::external_body]
fn split_horizontal(w: u16, area: Area) -> (r: Area)
    ensures
        r == horizontal_middle(w, area),
        r.y == area.y,
        r.height == area.height,
{
    let a = Rect { x: area.x, y: area.y, width: area.width, height: area.height };
    let [_, m, _] = Layout::horizontal([Constraint::Fill(1), Constraint::Length(w), Constraint::Fill(1)])
        .areas(a);
    Area { x: m.x, y: m.y, width: m.width, height: m.height }
}

/// A `w` by `h` box in the middle of `area`, for the dialogs: the middle
/// band of a vertical split, then the middle of that band split left to right.
pub fn centered_rect(w: u16, h: u16, area: Area) -> (r: Area)
    ensures
        r == horizontal_middle(w, vertical_middle(h, area)),
        r.y == vertical_middle(h, area).y,
        r.height == vertical_middle(h, area).height,
{
    let band = split_vertical(h, area);
    split_horizontal(w, band)
}

} // verus!
