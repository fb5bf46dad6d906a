use vstd::prelude::*;

verus! {

/// Number of bytes in one RGBA pixel.
pub const PIXEL_SIZE: usize = 4;

/// A size (width, height) or a position (x offset, y offset) in pixels.
#[derive(Clone, Copy, PartialEq, Eq, Structural, Debug)]
pub struct Vec2d {
    pub x: u32,
    pub y: u32,
}

impl Vec2d {
    /// The point `(i, j)` lies in the rectangle `[0, x) × [0, y)`.
    pub open spec fn contains(self, i: int, j: int) -> bool {
        0 <= i < self.x && 0 <= j < self.y
    }

    /// A buffer of this many pixels can be indexed by `usize`.
    pub open spec fn area_fits(self) -> bool {
        self.x * self.y <= usize::MAX
    }

    /// Component-wise `self ≤ other`.
    pub open spec fn fits_in(self, other: Vec2d) -> bool {
        self.x <= other.x && self.y <= other.y
    }

    pub open spec fn spec_max(self, other: Vec2d) -> Vec2d {
        Vec2d {
            x: if self.x >= other.x { self.x } else { other.x },
            y: if self.y >= other.y { self.y } else { other.y },
        }
    }

    pub open spec fn can_add(self, other: Vec2d) -> bool {
        self.x + other.x <= u32::MAX && self.y + other.y <= u32::MAX
    }

    pub open spec fn spec_plus(self, other: Vec2d) -> Vec2d {
        Vec2d { x: (self.x + other.x) as u32, y: (self.y + other.y) as u32 }
    }

    /// Component-wise maximum: the smallest size containing both.
    pub fn max_with(self, other: Vec2d) -> (r: Vec2d)
        ensures
            r == self.spec_max(other),
    {
        Vec2d {
            x: if self.x >= other.x { self.x } else { other.x },
            y: if self.y >= other.y { self.y } else { other.y },
        }
    }

    /// Component-wise sum.
    pub fn plus(self, other: Vec2d) -> (r: Vec2d)
        requires
            self.can_add(other),
        ensures
            r == self.spec_plus(other),
    {
        Vec2d { x: self.x + other.x, y: self.y + other.y }
    }
}

/// The point `(i, j)` lies in the rectangle of the given size whose top-left
/// corner is at `position`.
pub open spec fn covers(position: Vec2d, size: Vec2d, i: int, j: int) -> bool {
    position.x <= i < position.x + size.x && position.y <= j < position.y + size.y
}

pub open spec fn clip_len(start: u32, len: u32, bound: u32) -> u32 {
    if start >= bound {
        0
    } else if len <= bound - start {
        len
    } else {
        (bound - start) as u32
    }
}

/// Number of bytes that an RGBA buffer of the given dimensions occupies.
pub fn byte_size(area: Vec2d) -> (r: usize)
    requires
        area.x * area.y * 4 <= usize::MAX,
    ensures
        r == area.x * area.y * 4,
{
    (area.x as usize) * (area.y as usize) * PIXEL_SIZE
}

/// Size of the largest rectangle anchored at `position`, no larger than
/// `tile_size`, that fits inside a canvas of size `canvas_size`.
pub fn max_size_in_rect(position: Vec2d, tile_size: Vec2d, canvas_size: Vec2d) -> (r: Vec2d)
    ensures
        r.x == clip_len(position.x, tile_size.x, canvas_size.x),
        r.y == clip_len(position.y, tile_size.y, canvas_size.y),
        forall|i: int, j: int|
            #![trigger covers(position, r, i, j)]
            #![trigger covers(position, tile_size, i, j)]
            covers(position, r, i, j) <==> covers(position, tile_size, i, j) && canvas_size.contains(i, j),
{
    let x = if position.x >= canvas_size.x {
        0
    } else if tile_size.x <= canvas_size.x - position.x {
        tile_size.x
    } else {
        canvas_size.x - position.x
    };
    let y = if position.y >= canvas_size.y {
        0
    } else if tile_size.y <= canvas_size.y - position.y {
        tile_size.y
    } else {
        canvas_size.y - position.y
    };
    Vec2d { x, y }
}

/// One RGBA pixel, eight bits per channel.
#[derive(Clone, Copy, PartialEq, Eq, Structural, Debug)]
pub struct Rgba {
    pub r: u8,
    pub g: u8,
    pub b: u8,
    pub a: u8,
}

/// The fully transparent pixel: every channel zero.
pub open spec fn transparent() -> Rgba {
    Rgba { r: 0, g: 0, b: 0, a: 0 }
}

impl Rgba {
    pub fn from_channels(r: u8, g: u8, b: u8, a: u8) -> (p: Rgba)
        ensures
            p == (Rgba { r, g, b, a }),
    {
        Rgba { r, g, b, a }
    }

    pub fn transparent() -> (p: Rgba)
        ensures
            p == transparent(),
    {
        Rgba { r: 0, g: 0, b: 0, a: 0 }
    }
}

} // verus!
