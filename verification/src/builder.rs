//! Rectangles and a left-to-right, wrap-around rectangle allocator.
//!
//! `RectBuilder` hands out fixed-width rectangles for entity widgets,
//! advancing across the screen and wrapping to a new row once the next
//! rectangle would no longer fit.

use vstd::prelude::*;

verus! {

/// An axis-aligned rectangle on the character screen.
#[derive(Debug, Clone, Copy, PartialEq, Eq, Structural)]
pub struct Rect {
    pub x: u16,
    pub y: u16,
    pub width: u16,
    pub height: u16,
}

impl Rect {
    /// The rectangle with the given corner and size.
    pub fn new(x: u16, y: u16, width: u16, height: u16) -> (r: Rect)
        ensures
            r.x == x && r.y == y && r.width == width && r.height == height,
    {
        Rect { x, y, width, height }
    }
}

/// Horizontal gap unit between allocated rectangles.
pub const SLOT_GAP: u16 = 4;

/// Width of every allocated rectangle.
pub const SLOT_WIDTH: u16 = 20;

/// Saturating addition on screen coordinates.
pub open spec fn sat_add_u16(a: u16, b: u16) -> u16 {
    if a + b > 0xFFFF {
        0xFFFF as u16
    } else {
        (a + b) as u16
    }
}

/// Allocates entity rectangles left to right, wrapping to a new row when
/// the screen width is exhausted.
pub struct RectBuilder {
    x: u16,
    y: u16,
    screen_width: u16,
}

impl RectBuilder {
    /// Current column of the next rectangle.
    pub closed spec fn x(&self) -> u16 {
        self.x
    }

    /// Current row of the next rectangle.
    pub closed spec fn y(&self) -> u16 {
        self.y
    }

    /// The screen width the allocator wraps at.
    pub closed spec fn screen_width(&self) -> u16 {
        self.screen_width
    }

    /// An allocator for a screen of the given width, starting at a
    /// doubled gap from the left edge and one gap from the top.
    pub fn new(screen_width: u16) -> (r: Self)
        ensures
            r.x() == 2 * SLOT_GAP,
            r.y() == SLOT_GAP,
            r.screen_width() == screen_width,
    {
        Self { x: SLOT_GAP * 2, y: SLOT_GAP, screen_width }
    }

    /// The next rectangle, `len` rows tall, at the current position;
    /// then advance one slot to the right, or wrap to a new row -- below
    /// the rectangle just handed out -- when the slot after the next
    /// would overrun the screen.
    pub fn get_rect(&mut self, len: usize) -> (r: Rect)
        requires
            len <= 60_000,
        ensures
            r.x == old(self).x() && r.y == old(self).y(),
            r.width == SLOT_WIDTH && r.height == len as u16,
            ({
                let advanced = sat_add_u16(old(self).x(), (SLOT_WIDTH + 2 * SLOT_GAP) as u16);
                if advanced + SLOT_WIDTH > old(self).screen_width() {
                    final(self).x() == 2 * SLOT_GAP
                        && final(self).y() == sat_add_u16(old(self).y(), (len + SLOT_GAP) as u16)
                } else {
                    final(self).x() == advanced && final(self).y() == old(self).y()
                }
            }),
            final(self).screen_width() == old(self).screen_width(),
    {
        let rect = Rect::new(self.x, self.y, SLOT_WIDTH, len as u16);

        self.x = if self.x <= 0xFFFF - (SLOT_WIDTH + 2 * SLOT_GAP) {
            self.x + SLOT_WIDTH + 2 * SLOT_GAP
        } else {
            0xFFFF
        };
        if self.x > 0xFFFF - SLOT_WIDTH || self.x + SLOT_WIDTH > self.screen_width {
            self.x = SLOT_GAP * 2;
            let step = (len as u16) + SLOT_GAP;
            self.y = if self.y <= 0xFFFF - step {
                self.y + step
            } else {
                0xFFFF
            };
        }
        rect
    }
}

} // verus!
