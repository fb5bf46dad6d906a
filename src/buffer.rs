use vstd::prelude::*;
use crate::geometry::{clip_len, covers, max_size_in_rect, transparent, Rgba, Vec2d, byte_size, PIXEL_SIZE};

verus! {

/// Pixel at column `x`, row `y` of a row-major buffer of width `w`.
pub open spec fn at(s: Seq<Rgba>, w: int, x: int, y: int) -> Rgba {
    s[y * w + x]
}

/// The pixel held by bytes `4k .. 4k + 4` of an RGBA byte sequence.
pub open spec fn rgba_at(b: Seq<u8>, k: int) -> Rgba {
    Rgba { r: b[4 * k], g: b[4 * k + 1], b: b[4 * k + 2], a: b[4 * k + 3] }
}

proof fn lemma_flat_bounds(w: int, h: int, x: int, y: int)
    requires
        0 <= x < w,
        0 <= y < h,
    ensures
        0 <= y * w + x < w * h,
        y * w + x < h * w,
{
    assert(0 <= y * w + x < w * h) by (nonlinear_arith)
        requires
            0 <= x < w,
            0 <= y < h,
    ;
    assert(w * h == h * w) by (nonlinear_arith);
}

proof fn lemma_flat_before_row(w: int, x: int, y: int, row: int)
    requires
        0 <= x < w,
        0 <= y < row,
    ensures
        y * w + x < row * w,
{
    assert(y * w + x < row * w) by (nonlinear_arith)
        requires
            0 <= x < w,
            0 <= y < row,
    ;
}

proof fn lemma_flat_injective(w: int, x1: int, y1: int, x2: int, y2: int)
    requires
        0 <= x1 < w,
        0 <= x2 < w,
        0 <= y1,
        0 <= y2,
        y1 * w + x1 == y2 * w + x2,
    ensures
        x1 == x2,
        y1 == y2,
{
    if y1 < y2 {
        lemma_flat_before_row(w, x1, y1, y2);
        assert(y2 * w <= y2 * w + x2);
    } else if y2 < y1 {
        lemma_flat_before_row(w, x2, y2, y1);
        assert(y1 * w <= y1 * w + x1);
    }
}

/// An RGBA image held row by row in one contiguous vector.
pub struct PixelBuffer {
    width: u32,
    height: u32,
    pixels: Vec<Rgba>,
}

impl PixelBuffer {
    pub closed spec fn wf(&self) -> bool {
        self.pixels.len() == self.width * self.height
    }

    pub closed spec fn spec_size(&self) -> Vec2d {
        Vec2d { x: self.width, y: self.height }
    }

    /// The pixel at column `x`, row `y`.
    pub closed spec fn pixel(&self, x: int, y: int) -> Rgba {
        at(self.pixels@, self.width as int, x, y)
    }

    /// `self` is `old` with the pixel at `(x, y)` replaced by `p`.
    pub open spec fn is_put(&self, old: PixelBuffer, x: int, y: int, p: Rgba) -> bool {
        &&& self.spec_size() == old.spec_size()
        &&& forall|i: int, j: int|
            #![trigger self.pixel(i, j)]
            self.spec_size().contains(i, j) ==> self.pixel(i, j) == if i == x && j == y {
                p
            } else {
                old.pixel(i, j)
            }
    }

    pub fn width(&self) -> (r: u32)
        ensures
            r == self.spec_size().x,
    {
        self.width
    }

    pub fn height(&self) -> (r: u32)
        ensures
            r == self.spec_size().y,
    {
        self.height
    }

    pub fn size(&self) -> (r: Vec2d)
        ensures
            r == self.spec_size(),
    {
        Vec2d { x: self.width, y: self.height }
    }

    pub fn get_pixel(&self, x: u32, y: u32) -> (p: Rgba)
        requires
            self.wf(),
            self.spec_size().contains(x as int, y as int),
        ensures
            p == self.pixel(x as int, y as int),
    {
        proof {
            lemma_flat_bounds(self.width as int, self.height as int, x as int, y as int);
        }
        self.pixels[y as usize * self.width as usize + x as usize]
    }

    pub fn put_pixel(&mut self, x: u32, y: u32, p: Rgba)
        requires
            old(self).wf(),
            old(self).spec_size().contains(x as int, y as int),
        ensures
            final(self).wf(),
            final(self).is_put(*old(self), x as int, y as int, p),
    {
        let ghost w = self.width as int;
        let ghost h = self.height as int;
        proof {
            lemma_flat_bounds(w, h, x as int, y as int);
        }
        let k = y as usize * self.width as usize + x as usize;
        let ghost before = *self;
        self.pixels.set(k, p);
        proof {
            assert forall|i: int, j: int| #[trigger]
                self.spec_size().contains(i, j) implies self.pixel(i, j) == if i == x && j == y {
                p
            } else {
                before.pixel(i, j)
            } by {
                lemma_flat_bounds(w, h, i, j);
                if !(i == x && j == y) {
                    if j * w + i == y * w + x {
                        lemma_flat_injective(w, i, j, x as int, y as int);
                    }
                }
            }
        }
    }

    /// A buffer of the given dimensions over row-major `pixels`, when their
    /// number is `width * height`.
    pub fn from_raw(width: u32, height: u32, pixels: Vec<Rgba>) -> (r: Option<PixelBuffer>)
        ensures
            r is Some <==> pixels@.len() == width * height,
            r matches Some(b) ==> {
                &&& b.wf()
                &&& b.spec_size() == (Vec2d { x: width, y: height })
                &&& forall|i: int, j: int|
                    #![trigger b.pixel(i, j)]
                    b.spec_size().contains(i, j) ==> b.pixel(i, j) == at(pixels@, width as int, i, j)
            },
    {
        assert((width as int) * (height as int) <= u32::MAX * u32::MAX) by (nonlinear_arith)
            requires
                width <= u32::MAX,
                height <= u32::MAX,
        ;
        if (width as u128) * (height as u128) != pixels.len() as u128 {
            None
        } else {
            Some(PixelBuffer { width, height, pixels })
        }
    }
}

/// A fully transparent buffer of the given size.
pub fn empty_buffer(size: Vec2d) -> (r: PixelBuffer)
    requires
        size.area_fits(),
    ensures
        r.wf(),
        r.spec_size() == size,
        forall|i: int, j: int| #[trigger] r.pixel(i, j) == transparent() <== size.contains(i, j),
{
    let n = size.x as usize * size.y as usize;
    let mut pixels: Vec<Rgba> = Vec::new();
    while pixels.len() < n
        invariant
            pixels.len() <= n,
            forall|k: int| 0 <= k < pixels.len() ==> #[trigger] pixels@[k] == transparent(),
        decreases n - pixels.len(),
    {
        pixels.push(Rgba::transparent());
    }
    let r = PixelBuffer { width: size.x, height: size.y, pixels };
    proof {
        assert forall|i: int, j: int| size.contains(i, j) implies #[trigger] r.pixel(i, j)
            == transparent() by {
            lemma_flat_bounds(size.x as int, size.y as int, i, j);
        }
    }
    r
}


/// Pixel `(i, j)` of `b` where `b` has one, and transparent elsewhere.
pub open spec fn kept_or_clear(b: PixelBuffer, i: int, j: int) -> Rgba {
    if b.spec_size().contains(i, j) {
        b.pixel(i, j)
    } else {
        transparent()
    }
}

/// `new` is at least as large as `old`, holds `old`'s pixels at the same
/// coordinates, and is transparent everywhere else.
pub open spec fn is_growth_of(new: PixelBuffer, old: PixelBuffer) -> bool {
    &&& old.spec_size().fits_in(new.spec_size())
    &&& forall|i: int, j: int|
        #![trigger new.pixel(i, j)]
        new.spec_size().contains(i, j) ==> new.pixel(i, j) == kept_or_clear(old, i, j)
}

proof fn lemma_stride_order(y: int, ow: int, nw: int)
    requires
        0 <= y,
        0 <= ow <= nw,
    ensures
        y * ow <= y * nw,
{
    assert(y * ow <= y * nw) by (nonlinear_arith)
        requires
            0 <= y,
            0 <= ow <= nw,
    ;
}

proof fn lemma_row_start(w: int, x: int, y: int, row: int)
    requires
        0 <= x,
        0 <= w,
        row <= y,
    ensures
        y * w + x >= row * w,
{
    assert(y * w + x >= row * w) by (nonlinear_arith)
        requires
            0 <= x,
            0 <= w,
            row <= y,
    ;
}

proof fn lemma_later_row(w: int, x: int, y: int, row: int)
    requires
        0 <= x,
        0 <= w,
        row < y,
    ensures
        y * w + x >= row * w + w,
{
    assert(y * w + x >= row * w + w) by (nonlinear_arith)
        requires
            0 <= x,
            0 <= w,
            row < y,
    ;
}

/// Enlarges `buffer` to `size`, keeping every pixel at its coordinates and
/// making the added area transparent. The vector is extended in place with
/// transparent pixels; when the width changes, each old row then moves to its
/// wider offset, last row first.
pub fn grow_buffer(buffer: PixelBuffer, size: Vec2d) -> (r: PixelBuffer)
    requires
        buffer.wf(),
        buffer.spec_size().fits_in(size),
        size.area_fits(),
    ensures
        r.wf(),
        r.spec_size() == size,
        is_growth_of(r, buffer),
{
    let old_width = buffer.width as usize;
    let old_height = buffer.height as usize;
    let new_width = size.x as usize;
    let new_height = size.y as usize;
    let ghost ow = old_width as int;
    let ghost oh = old_height as int;
    let ghost nw = new_width as int;
    let ghost nh = new_height as int;
    let ghost src = buffer.pixels@;
    proof {
        lemma_stride_order(oh, ow, nw);
        lemma_stride_order(nw, oh, nh);
    }
    let target = new_width * new_height;
    let mut raw = buffer.pixels;
    while raw.len() < target
        invariant
            0 <= ow * oh <= raw.len() <= target,
            forall|k: int| 0 <= k < ow * oh ==> #[trigger] raw@[k] == src[k],
            forall|k: int| ow * oh <= k < raw.len() ==> #[trigger] raw@[k] == transparent(),
        decreases target - raw.len(),
    {
        let ghost before = raw@;
        raw.push(Rgba::transparent());
        proof {
            assert forall|k: int| 0 <= k < ow * oh implies #[trigger] raw@[k] == src[k] by {
                assert(before[k] == src[k]);
            }
            assert forall|k: int| ow * oh <= k < raw.len() implies #[trigger] raw@[k]
                == transparent() by {
                if k < before.len() {
                    assert(before[k] == transparent());
                }
            }
        }
    }
    if new_width == old_width {
        let r = PixelBuffer { width: size.x, height: size.y, pixels: raw };
        proof {
            assert forall|i: int, j: int| #[trigger]
                r.spec_size().contains(i, j) implies r.pixel(i, j) == kept_or_clear(buffer, i, j) by {
                lemma_flat_bounds(nw, nh, i, j);
                if j < oh {
                    lemma_flat_bounds(ow, oh, i, j);
                    assert(raw@[j * nw + i] == src[j * nw + i]);
                } else {
                    lemma_row_start(nw, i, j, oh);
                    assert(raw@[j * nw + i] == transparent());
                }
            }
        }
        return r;
    }
    proof {
        assert forall|i: int, j: int| 0 <= i < nw && oh <= j < nh implies #[trigger] at(raw@, nw, i, j)
            == kept_or_clear(buffer, i, j) by {
            lemma_flat_bounds(nw, nh, i, j);
            lemma_row_start(nw, i, j, oh);
            lemma_stride_order(oh, ow, nw);
            assert(raw@[j * nw + i] == transparent());
        }
    }
    let mut y = old_height;
    while y > 0
        invariant
            raw.len() == target,
            target == nw * nh,
            nw == new_width,
            nh == new_height,
            ow == old_width,
            oh == old_height,
            ow < nw,
            oh <= nh,
            src == buffer.pixels@,
            buffer.wf(),
            ow == buffer.spec_size().x,
            oh == buffer.spec_size().y,
            y <= oh,
            forall|k: int| 0 <= k < y * ow ==> #[trigger] raw@[k] == src[k],
            forall|i: int, j: int|
                0 <= i < nw && y <= j < nh ==> #[trigger] at(raw@, nw, i, j) == kept_or_clear(
                    buffer,
                    i,
                    j,
                ),
        decreases y,
    {
        y = y - 1;
        proof {
            lemma_stride_order(y as int, ow, nw);
            assert((y + 1) * ow == y * ow + ow) by (nonlinear_arith);
        }
        // Rows after `y` already sit at their new offsets, and row `y` moves to
        // an offset at or past its old one: copying it from its last pixel to
        // its first never overwrites a pixel that has yet to move.
        let mut i = old_width;
        while i > 0
            invariant
                raw.len() == target,
                target == nw * nh,
                nw == new_width,
                ow == old_width,
                ow < nw,
                oh <= nh,
                nh == new_height,
                y < oh,
                i <= ow,
                y * ow <= y * nw,
                forall|k: int| 0 <= k < y * ow + i ==> #[trigger] raw@[k] == src[k],
                forall|c: int| i <= c < ow ==> #[trigger] at(raw@, nw, c, y as int) == src[y * ow + c],
                forall|a: int, j: int|
                    0 <= a < nw && y < j < nh ==> #[trigger] at(raw@, nw, a, j) == kept_or_clear(
                        buffer,
                        a,
                        j,
                    ),
            decreases i,
        {
            i = i - 1;
            proof {
                lemma_flat_bounds(nw, nh, i as int, y as int);
            }
            let p = raw[y * old_width + i];
            let ghost before = raw@;
            raw.set(y * new_width + i, p);
            proof {
                assert forall|a: int, j: int| 0 <= a < nw && y < j < nh implies #[trigger] at(
                    raw@,
                    nw,
                    a,
                    j,
                ) == kept_or_clear(buffer, a, j) by {
                    lemma_later_row(nw, a, j, y as int);
                    lemma_flat_bounds(nw, nh, a, j);
                    assert(at(before, nw, a, j) == kept_or_clear(buffer, a, j));
                }
                assert forall|c: int| i <= c < ow implies #[trigger] at(raw@, nw, c, y as int)
                    == src[y * ow + c] by {
                    lemma_flat_bounds(nw, nh, c, y as int);
                    if c > i {
                        assert(at(before, nw, c, y as int) == src[y * ow + c]);
                    }
                }
            }
        }
        // The widened part of row `y` still holds stale copies of moved pixels.
        let mut c = old_width;
        while c < new_width
            invariant
                raw.len() == target,
                target == nw * nh,
                nw == new_width,
                ow == old_width,
                ow < nw,
                oh <= nh,
                nh == new_height,
                y < oh,
                ow <= c <= nw,
                y * ow <= y * nw,
                forall|k: int| 0 <= k < y * ow ==> #[trigger] raw@[k] == src[k],
                forall|x: int| 0 <= x < ow ==> #[trigger] at(raw@, nw, x, y as int) == src[y * ow + x],
                forall|x: int| ow <= x < c ==> #[trigger] at(raw@, nw, x, y as int) == transparent(),
                forall|a: int, j: int|
                    0 <= a < nw && y < j < nh ==> #[trigger] at(raw@, nw, a, j) == kept_or_clear(
                        buffer,
                        a,
                        j,
                    ),
            decreases nw - c,
        {
            proof {
                lemma_flat_bounds(nw, nh, c as int, y as int);
            }
            let ghost before = raw@;
            raw.set(y * new_width + c, Rgba::transparent());
            proof {
                assert forall|a: int, j: int| 0 <= a < nw && y < j < nh implies #[trigger] at(
                    raw@,
                    nw,
                    a,
                    j,
                ) == kept_or_clear(buffer, a, j) by {
                    lemma_later_row(nw, a, j, y as int);
                    lemma_flat_bounds(nw, nh, a, j);
                    assert(at(before, nw, a, j) == kept_or_clear(buffer, a, j));
                }
                assert forall|x: int| 0 <= x < ow implies #[trigger] at(raw@, nw, x, y as int)
                    == src[y * ow + x] by {
                    lemma_flat_bounds(nw, nh, x, y as int);
                    assert(at(before, nw, x, y as int) == src[y * ow + x]);
                }
                assert forall|x: int| ow <= x < c + 1 implies #[trigger] at(raw@, nw, x, y as int)
                    == transparent() by {
                    lemma_flat_bounds(nw, nh, x, y as int);
                    if x < c {
                        assert(at(before, nw, x, y as int) == transparent());
                    }
                }
            }
            c = c + 1;
        }
        proof {
            assert forall|a: int, j: int| 0 <= a < nw && y <= j < nh implies #[trigger] at(
                raw@,
                nw,
                a,
                j,
            ) == kept_or_clear(buffer, a, j) by {
                if j == y && a < ow {
                    assert(at(raw@, nw, a, y as int) == src[y * ow + a]);
                } else if j == y {
                    assert(at(raw@, nw, a, y as int) == transparent());
                }
            }
        }
    }
    let r = PixelBuffer { width: size.x, height: size.y, pixels: raw };
    proof {
        assert forall|i: int, j: int| #[trigger]
            r.spec_size().contains(i, j) implies r.pixel(i, j) == kept_or_clear(buffer, i, j) by {
            assert(at(raw@, nw, i, j) == kept_or_clear(buffer, i, j));
        }
    }
    r
}

impl PixelBuffer {
    /// `self` is `old` with `tile` drawn over it, top-left corner at
    /// `position`, and whatever of `tile` falls outside `old` left out.
    pub open spec fn is_overlay(&self, old: PixelBuffer, tile: PixelBuffer, position: Vec2d) -> bool {
        &&& self.spec_size() == old.spec_size()
        &&& forall|i: int, j: int|
            #![trigger self.pixel(i, j)]
            self.spec_size().contains(i, j) ==> self.pixel(i, j) == if covers(
                position,
                tile.spec_size(),
                i,
                j,
            ) {
                tile.pixel(i - position.x, j - position.y)
            } else {
                old.pixel(i, j)
            }
    }

    /// Draws `tile` over `self` with its top-left corner at `position`,
    /// overwriting what was there; the part of `tile` that falls outside
    /// `self` is clipped away.
    pub fn copy_from(&mut self, tile: &PixelBuffer, position: Vec2d)
        requires
            old(self).wf(),
            tile.wf(),
        ensures
            final(self).wf(),
            final(self).is_overlay(*old(self), *tile, position),
    {
        let clip = max_size_in_rect(position, tile.size(), self.size());
        let ghost orig = *self;
        let ghost px = position.x as int;
        let ghost py = position.y as int;
        let mut ty: u32 = 0;
        while ty < clip.y
            invariant
                self.wf(),
                tile.wf(),
                ty <= clip.y,
                self.spec_size() == orig.spec_size(),
                clip.x == clip_len(position.x, tile.spec_size().x, orig.spec_size().x),
                clip.y == clip_len(position.y, tile.spec_size().y, orig.spec_size().y),
                px == position.x,
                py == position.y,
                forall|i: int, j: int|
                    #![trigger self.pixel(i, j)]
                    self.spec_size().contains(i, j) ==> self.pixel(i, j) == if covers(
                        position,
                        Vec2d { x: clip.x, y: ty },
                        i,
                        j,
                    ) {
                        tile.pixel(i - px, j - py)
                    } else {
                        orig.pixel(i, j)
                    },
            decreases clip.y - ty,
        {
            let mut tx: u32 = 0;
            while tx < clip.x
                invariant
                    self.wf(),
                    tile.wf(),
                    ty < clip.y,
                    tx <= clip.x,
                    self.spec_size() == orig.spec_size(),
                    clip.x == clip_len(position.x, tile.spec_size().x, orig.spec_size().x),
                    clip.y == clip_len(position.y, tile.spec_size().y, orig.spec_size().y),
                    px == position.x,
                    py == position.y,
                    forall|i: int, j: int|
                        #![trigger self.pixel(i, j)]
                        self.spec_size().contains(i, j) ==> self.pixel(i, j) == if covers(
                            position,
                            Vec2d { x: clip.x, y: ty },
                            i,
                            j,
                        ) || (j == py + ty && px <= i < px + tx) {
                            tile.pixel(i - px, j - py)
                        } else {
                            orig.pixel(i, j)
                        },
                decreases clip.x - tx,
            {
                let p = tile.get_pixel(tx, ty);
                self.put_pixel(position.x + tx, position.y + ty, p);
                tx = tx + 1;
            }
            ty = ty + 1;
        }
    }

    /// The pixels as RGBA bytes, row by row.
    pub fn to_rgba_bytes(&self) -> (r: Vec<u8>)
        requires
            self.wf(),
            self.spec_size().x * self.spec_size().y * 4 <= usize::MAX,
        ensures
            r@.len() == self.spec_size().x * self.spec_size().y * 4,
            forall|i: int, j: int|
                #![trigger self.pixel(i, j)]
                self.spec_size().contains(i, j) ==> rgba_at(r@, j * self.spec_size().x + i)
                    == self.pixel(i, j),
    {
        let n = byte_size(self.size());
        let mut out: Vec<u8> = Vec::with_capacity(n);
        let mut k: usize = 0;
        while k < self.pixels.len()
            invariant
                self.wf(),
                k <= self.pixels.len(),
                out@.len() == 4 * k,
                forall|m: int| 0 <= m < k ==> #[trigger] rgba_at(out@, m) == self.pixels@[m],
            decreases self.pixels.len() - k,
        {
            let p = self.pixels[k];
            let ghost before = out@;
            out.push(p.r);
            out.push(p.g);
            out.push(p.b);
            out.push(p.a);
            proof {
                assert forall|m: int| 0 <= m < k + 1 implies #[trigger] rgba_at(out@, m)
                    == self.pixels@[m] by {
                    if m < k {
                        assert(rgba_at(before, m) == self.pixels@[m]);
                    }
                }
            }
            k = k + 1;
        }
        proof {
            assert forall|i: int, j: int| #[trigger]
                self.spec_size().contains(i, j) implies rgba_at(out@, j * self.spec_size().x + i)
                == self.pixel(i, j) by {
                lemma_flat_bounds(self.width as int, self.height as int, i, j);
            }
        }
        out
    }
}

/// Reads `width * height` pixels from RGBA bytes, row by row.
pub fn from_rgba_bytes(width: u32, height: u32, bytes: &Vec<u8>) -> (b: PixelBuffer)
    requires
        bytes@.len() == width * height * 4,
    ensures
        b.wf(),
        b.spec_size() == (Vec2d { x: width, y: height }),
        forall|i: int, j: int|
            #![trigger b.pixel(i, j)]
            b.spec_size().contains(i, j) ==> b.pixel(i, j) == rgba_at(bytes@, j * width + i),
{
    let len = bytes.len();
    let n = len / PIXEL_SIZE;
    let mut pixels: Vec<Rgba> = Vec::with_capacity(n);
    let mut k: usize = 0;
    while k < n
        invariant
            len == bytes@.len(),
            4 * n == len,
            k <= n,
            pixels@.len() == k,
            forall|m: int| 0 <= m < k ==> #[trigger] pixels@[m] == rgba_at(bytes@, m),
        decreases n - k,
    {
        assert(4 * k + 3 < bytes@.len());
        let p = Rgba {
            r: bytes[4 * k],
            g: bytes[4 * k + 1],
            b: bytes[4 * k + 2],
            a: bytes[4 * k + 3],
        };
        pixels.push(p);
        k = k + 1;
    }
    let b = PixelBuffer { width, height, pixels };
    proof {
        assert forall|i: int, j: int| #[trigger]
            b.spec_size().contains(i, j) implies b.pixel(i, j) == rgba_at(bytes@, j * width + i) by {
            lemma_flat_bounds(width as int, height as int, i, j);
        }
    }
    b
}

} // verus!
