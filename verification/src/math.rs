//! Integer geometry on the pixel grid: sizes, margins, points and rectangles.

use vstd::prelude::*;

verus! {

/// The extent of a sprite or of a canvas, in pixels.
#[derive(Debug, Clone, Copy, PartialEq, Eq, Structural)]
pub struct ISize {
    pub width: i32,
    pub height: i32,
}

/// Spacing reserved around a sprite, one value per side, in pixels.
#[derive(Debug, Clone, Copy, PartialEq, Eq, Structural)]
pub struct IMargins {
    pub top: i32,
    pub bottom: i32,
    pub left: i32,
    pub right: i32,
}

/// A point of the pixel grid.
#[derive(Debug, Clone, Copy, PartialEq, Eq, Structural)]
pub struct IPoint {
    pub x: i32,
    pub y: i32,
}

/// An axis-aligned rectangle: `min` is its top-left corner and belongs to
/// it, `max` is its bottom-right corner and does not.
#[derive(Debug, Clone, Copy, PartialEq, Eq, Structural)]
pub struct IRect {
    pub min: IPoint,
    pub max: IPoint,
}

impl ISize {
    /// Neither dimension is negative.
    pub open spec fn is_valid(self) -> bool {
        self.width >= 0 && self.height >= 0
    }

    /// The number of pixels covered, as a mathematical integer.
    pub open spec fn spec_area(self) -> int {
        self.width * self.height
    }

    /// The size enlarged by the margins on all four sides.
    pub open spec fn spec_grow(self, padding: IMargins) -> (int, int) {
        (
            self.width + padding.left + padding.right,
            self.height + padding.top + padding.bottom,
        )
    }

    pub fn new(w: i32, h: i32) -> (size: Self)
        ensures
            size.width == w,
            size.height == h,
    {
        Self { width: w, height: h }
    }

    /// The number of pixels covered.
    pub fn area(self) -> (a: i32)
        requires
            i32::MIN <= self.spec_area() <= i32::MAX,
        ensures
            a == self.spec_area(),
    {
        self.width * self.height
    }

    /// Adds the margins to both dimensions.
    pub fn grow(self, padding: IMargins) -> (grown: Self)
        requires
            i32::MIN <= self.spec_grow(padding).0 <= i32::MAX,
            i32::MIN <= self.spec_grow(padding).1 <= i32::MAX,
        ensures
            grown.width == self.spec_grow(padding).0,
            grown.height == self.spec_grow(padding).1,
    {
        Self::new(
            (self.width as i64 + padding.left as i64 + padding.right as i64) as i32,
            (self.height as i64 + padding.top as i64 + padding.bottom as i64) as i32,
        )
    }
}

impl Default for ISize {
    fn default() -> (size: Self)
        ensures
            size.width == 0,
            size.height == 0,
    {
        Self { width: 0, height: 0 }
    }
}

impl IMargins {
    /// No margin is negative.
    pub open spec fn is_valid(self) -> bool {
        self.top >= 0 && self.bottom >= 0 && self.left >= 0 && self.right >= 0
    }

    /// Top plus bottom, as a mathematical integer.
    pub open spec fn spec_vert(self) -> int {
        self.top + self.bottom
    }

    /// Left plus right, as a mathematical integer.
    pub open spec fn spec_hori(self) -> int {
        self.left + self.right
    }

    pub fn new(t: i32, b: i32, l: i32, r: i32) -> (margins: Self)
        ensures
            margins.top == t,
            margins.bottom == b,
            margins.left == l,
            margins.right == r,
    {
        Self { top: t, bottom: b, left: l, right: r }
    }

    /// The same margin on all four sides.
    pub fn uniform(m: i32) -> (margins: Self)
        ensures
            margins.top == m,
            margins.bottom == m,
            margins.left == m,
            margins.right == m,
    {
        Self::new(m, m, m, m)
    }

    /// The space taken above and below a sprite together.
    pub fn vert(self) -> (v: i32)
        requires
            i32::MIN <= self.spec_vert() <= i32::MAX,
        ensures
            v == self.spec_vert(),
    {
        self.top + self.bottom
    }

    /// The space taken left and right of a sprite together.
    pub fn hori(self) -> (h: i32)
        requires
            i32::MIN <= self.spec_hori() <= i32::MAX,
        ensures
            h == self.spec_hori(),
    {
        self.left + self.right
    }
}

impl Default for IMargins {
    fn default() -> (margins: Self)
        ensures
            margins.top == 0,
            margins.bottom == 0,
            margins.left == 0,
            margins.right == 0,
    {
        Self { top: 0, bottom: 0, left: 0, right: 0 }
    }
}

impl IPoint {
    pub fn new(x: i32, y: i32) -> (point: Self)
        ensures
            point.x == x,
            point.y == y,
    {
        Self { x, y }
    }
}

impl Default for IPoint {
    fn default() -> (point: Self)
        ensures
            point.x == 0,
            point.y == 0,
    {
        Self { x: 0, y: 0 }
    }
}

impl IRect {
    /// The horizontal extent, as a mathematical integer.
    pub open spec fn spec_width(self) -> int {
        self.max.x - self.min.x
    }

    /// The vertical extent, as a mathematical integer.
    pub open spec fn spec_height(self) -> int {
        self.max.y - self.min.y
    }

    /// The rectangle covers at least one pixel.
    pub open spec fn is_proper(self) -> bool {
        self.max.x > self.min.x && self.max.y > self.min.y
    }

    /// The pixel `(x, y)` lies in the rectangle.
    pub open spec fn contains(self, x: int, y: int) -> bool {
        self.min.x <= x < self.max.x && self.min.y <= y < self.max.y
    }

    /// The two rectangles have a pixel in common.
    pub open spec fn overlaps(self, other: IRect) -> bool {
        &&& self.min.x < other.max.x
        &&& other.min.x < self.max.x
        &&& self.min.y < other.max.y
        &&& other.min.y < self.max.y
        &&& self.min.x < self.max.x
        &&& self.min.y < self.max.y
        &&& other.min.x < other.max.x
        &&& other.min.y < other.max.y
    }

    /// The rectangle lies in the canvas `[0, width) x [0, height)`.
    pub open spec fn within(self, width: int, height: int) -> bool {
        &&& 0 <= self.min.x
        &&& 0 <= self.min.y
        &&& self.max.x <= width
        &&& self.max.y <= height
    }

    /// The rectangle with top-left corner `(x, y)` and the given extent.
    pub open spec fn spec_new(x: int, y: int, w: int, h: int) -> IRect {
        IRect {
            min: IPoint { x: x as i32, y: y as i32 },
            max: IPoint { x: (x + w) as i32, y: (y + h) as i32 },
        }
    }

    /// The rectangle that is left when the margins are taken off each side.
    pub open spec fn spec_shrink(self, padding: IMargins) -> IRect {
        IRect {
            min: IPoint {
                x: (self.min.x + padding.left) as i32,
                y: (self.min.y + padding.top) as i32,
            },
            max: IPoint {
                x: (self.max.x - padding.right) as i32,
                y: (self.max.y - padding.bottom) as i32,
            },
        }
    }

    /// The rectangle with top-left corner `(x, y)`, `w` pixels wide and `h`
    /// pixels high.
    pub fn new(x: i32, y: i32, w: i32, h: i32) -> (rect: Self)
        requires
            i32::MIN <= x + w <= i32::MAX,
            i32::MIN <= y + h <= i32::MAX,
        ensures
            rect == Self::spec_new(x as int, y as int, w as int, h as int),
            rect.min.x == x,
            rect.min.y == y,
            rect.max.x == x + w,
            rect.max.y == y + h,
    {
        IRect { min: IPoint::new(x, y), max: IPoint::new(x + w, y + h) }
    }

    /// Takes the margins off each side.
    pub fn shrink(self, padding: IMargins) -> (rect: Self)
        requires
            i32::MIN <= self.min.x + padding.left <= i32::MAX,
            i32::MIN <= self.min.y + padding.top <= i32::MAX,
            i32::MIN <= self.max.x - padding.right <= i32::MAX,
            i32::MIN <= self.max.y - padding.bottom <= i32::MAX,
        ensures
            rect == self.spec_shrink(padding),
            rect.min.x == self.min.x + padding.left,
            rect.min.y == self.min.y + padding.top,
            rect.max.x == self.max.x - padding.right,
            rect.max.y == self.max.y - padding.bottom,
    {
        IRect {
            min: IPoint::new(self.min.x + padding.left, self.min.y + padding.top),
            max: IPoint::new(self.max.x - padding.right, self.max.y - padding.bottom),
        }
    }

    pub fn width(self) -> (w: i32)
        requires
            i32::MIN <= self.spec_width() <= i32::MAX,
        ensures
            w == self.spec_width(),
    {
        self.max.x - self.min.x
    }

    pub fn height(self) -> (h: i32)
        requires
            i32::MIN <= self.spec_height() <= i32::MAX,
        ensures
            h == self.spec_height(),
    {
        self.max.y - self.min.y
    }

    /// The width of a rectangle whose corners are in order.
    pub fn uwidth(self) -> (w: u32)
        requires
            self.min.x <= self.max.x,
        ensures
            w == self.spec_width(),
    {
        (self.max.x as i64 - self.min.x as i64) as u32
    }

    /// The height of a rectangle whose corners are in order.
    pub fn uheight(self) -> (h: u32)
        requires
            self.min.y <= self.max.y,
        ensures
            h == self.spec_height(),
    {
        (self.max.y as i64 - self.min.y as i64) as u32
    }
}

impl Default for IRect {
    fn default() -> (rect: Self)
        ensures
            rect.min.x == 0,
            rect.min.y == 0,
            rect.max.x == 0,
            rect.max.y == 0,
    {
        IRect { min: IPoint { x: 0, y: 0 }, max: IPoint { x: 0, y: 0 } }
    }
}

/// A slot that was enlarged by the margins and is then shrunk by them has
/// the extent of the sprite again.
pub proof fn lemma_shrink_undoes_grow(x: i32, y: i32, size: ISize, padding: IMargins)
    requires
        size.is_valid(),
        padding.is_valid(),
        x >= 0,
        y >= 0,
        x + size.spec_grow(padding).0 <= i32::MAX,
        y + size.spec_grow(padding).1 <= i32::MAX,
    ensures
        ({
            let slot = IRect::spec_new(
                x as int,
                y as int,
                size.spec_grow(padding).0,
                size.spec_grow(padding).1,
            );
            let content = slot.spec_shrink(padding);
            &&& content.spec_width() == size.width
            &&& content.spec_height() == size.height
            &&& content.min.x == x + padding.left
            &&& content.min.y == y + padding.top
        }),
{
}

} // verus!
