//! Abstract draw instructions.
//!
//! The renderer is an external collaborator: the library only describes
//! what to show — clear everything, clear a region, or draw text at a
//! position — and where.  Positions are absolute points, rectangular
//! regions, or one of the fixed button-label slots along the bottom of
//! the panel.  Colors travel as raw 16-bit values.

use vstd::prelude::*;

verus! {

/// A point on the panel.
#[derive(Debug, Clone, Copy, PartialEq, Eq, Structural)]
pub struct Point {
    pub x: i32,
    pub y: i32,
}

/// A width and height.
#[derive(Debug, Clone, Copy, PartialEq, Eq, Structural)]
pub struct Size {
    pub width: u32,
    pub height: u32,
}

/// A rectangular region.
#[derive(Debug, Clone, Copy, PartialEq, Eq, Structural)]
pub struct Rect {
    pub top_left: Point,
    pub size: Size,
}

/// Where a draw instruction lands: a button-label slot, an absolute
/// point, or a region.
#[derive(Debug, Clone, Copy, PartialEq, Eq, Structural)]
pub enum DrawPos {
    Button(u8),
    Pos(Point),
    Box(Rect),
}

/// Which face text is drawn with: the large face, or the renderer's
/// default when absent.
#[derive(Debug, Clone, Copy, PartialEq, Eq, Structural)]
pub enum FontChoice {
    Large24,
}

/// The raw color a cleared screen and every text background use.
pub const COLOR_WHITE: u16 = 0xFFFF;

/// The raw color the clock is drawn with.
pub const COLOR_BLACK: u16 = 0;

/// One abstract draw instruction.
#[derive(Debug, Clone, PartialEq)]
pub enum DrawCmd {
    Clear { color: u16, pos: DrawPos },
    Erase { color: u16 },
    Text {
        pos: DrawPos,
        text: String,
        text_color: u16,
        font: Option<FontChoice>,
        background: Option<u16>,
    },
}

/// Where a position's content starts: button slots sit on a fixed
/// baseline, spaced along the bottom.
pub open spec fn spec_upper_left(p: DrawPos) -> Point {
    match p {
        DrawPos::Button(b) => Point { x: (20 + 98 * (b as i32)) as i32, y: 220 },
        DrawPos::Pos(q) => q,
        DrawPos::Box(r) => r.top_left,
    }
}

/// The region a measured drawing falls back on when the caller measures
/// nothing: the position's own region, or the empty region at the
/// origin.
pub open spec fn spec_fallback_rect(p: DrawPos, d: Option<Rect>) -> Rect {
    match d {
        Some(r) => r,
        None => match p {
            DrawPos::Box(b) => b,
            _ => Rect { top_left: Point { x: 0, y: 0 }, size: Size { width: 0, height: 0 } },
        },
    }
}

/// The region to blank before drawing at a position, given the measured
/// extent of what will be drawn: a fixed slot for a button label, a
/// full-width band over the text line for a point, the region itself,
/// raised by the measured height, for a region.
pub open spec fn spec_bounding_box(p: DrawPos, d: Option<Rect>) -> Rect {
    let fb = spec_fallback_rect(p, d);
    match p {
        DrawPos::Button(b) => Rect {
            top_left: Point { x: (20 + 94 * (b as i32)) as i32, y: 200 },
            size: Size { width: 92, height: 40 },
        },
        DrawPos::Pos(q) => Rect {
            top_left: Point { x: q.x, y: (q.y - fb.size.height + 1) as i32 },
            size: Size { width: 320, height: (fb.size.height + 3) as u32 },
        },
        DrawPos::Box(r) => Rect {
            top_left: Point { x: r.top_left.x, y: (r.top_left.y - fb.size.height + 3) as i32 },
            size: r.size,
        },
    }
}

impl DrawPos {
    /// Where this position's content starts, exactly as
    /// `spec_upper_left` describes.
    pub fn upper_left(&self) -> (r: Point)
        ensures
            r == spec_upper_left(*self),
    {
        match self {
            DrawPos::Button(b) => Point { x: 20 + 98 * (*b as i32), y: 220 },
            DrawPos::Pos(q) => *q,
            DrawPos::Box(r) => r.top_left,
        }
    }

    /// The region to blank before drawing here, exactly as
    /// `spec_bounding_box` describes.  The measured extent must be small
    /// enough for the offsets to stay within the machine range.
    pub fn compute_bounding_box(&self, d: Option<Rect>) -> (r: Rect)
        requires
            ({
                let fb = spec_fallback_rect(*self, d);
                match *self {
                    DrawPos::Button(_) => true,
                    DrawPos::Pos(q) => fb.size.height <= i32::MAX && i32::MIN <= q.y
                        - fb.size.height && q.y + 1 <= i32::MAX && fb.size.height + 3
                        <= u32::MAX,
                    DrawPos::Box(rr) => fb.size.height <= i32::MAX && i32::MIN <= rr.top_left.y
                        - fb.size.height && rr.top_left.y + 3 <= i32::MAX,
                }
            }),
        ensures
            r == spec_bounding_box(*self, d),
    {
        let fb: Rect = match d {
            Some(r) => r,
            None => match self {
                DrawPos::Box(b) => *b,
                _ => Rect { top_left: Point { x: 0, y: 0 }, size: Size { width: 0, height: 0 } },
            },
        };
        match self {
            DrawPos::Button(b) => Rect {
                top_left: Point { x: 20 + 94 * (*b as i32), y: 200 },
                size: Size { width: 92, height: 40 },
            },
            DrawPos::Pos(q) => {
                let h: i32 = fb.size.height as i32;
                Rect {
                    top_left: Point { x: q.x, y: q.y - h + 1 },
                    size: Size { width: 320, height: fb.size.height + 3 },
                }
            },
            DrawPos::Box(r) => {
                let h: i32 = fb.size.height as i32;
                Rect {
                    top_left: Point { x: r.top_left.x, y: r.top_left.y - h + 3 },
                    size: r.size,
                }
            },
        }
    }
}

} // verus!
