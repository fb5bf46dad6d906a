use vstd::prelude::*;
use crate::buffer::{empty_buffer, from_rgba_bytes, grow_buffer, kept_or_clear, rgba_at, PixelBuffer};
use crate::decode::{decode_rgba, decoded_rgba};
use crate::errors::ZoomError;
use crate::geometry::{covers, Rgba, Vec2d};

verus! {

/// Where to fetch one tile, and where it belongs in the assembled image.
#[derive(Clone, Debug)]
pub struct TileReference {
    pub url: String,
    pub position: Vec2d,
}

/// One decoded image fragment and the offset of its top-left corner.
pub struct Tile {
    image: PixelBuffer,
    position: Vec2d,
}

/// What decoding `bytes` for a tile at `position` yields: a tile holding the
/// decoded pixels there, or an image error when the bytes are no image.
pub open spec fn is_decoded_tile(bytes: Seq<u8>, position: Vec2d, r: Result<Tile, ZoomError>) -> bool {
    match decoded_rgba(bytes) {
        Some((w, h, px)) => r matches Ok(t) && t.wf() && t.spec_position() == position
            && t.spec_size() == (Vec2d { x: w, y: h }) && forall|i: int, j: int|
            #![trigger t.pixel(i, j)]
            t.spec_size().contains(i, j) ==> t.pixel(i, j) == rgba_at(px, j * w + i),
        None => r matches Err(ZoomError::Image { .. }),
    }
}

impl Tile {
    pub closed spec fn wf(&self) -> bool {
        self.image.wf()
    }

    pub closed spec fn spec_image(&self) -> PixelBuffer {
        self.image
    }

    pub closed spec fn spec_position(&self) -> Vec2d {
        self.position
    }

    pub open spec fn spec_size(&self) -> Vec2d {
        self.spec_image().spec_size()
    }

    pub open spec fn pixel(&self, i: int, j: int) -> Rgba {
        self.spec_image().pixel(i, j)
    }

    /// The corner just past the tile's last pixel can be written as a `Vec2d`.
    pub open spec fn fits(&self) -> bool {
        self.spec_size().can_add(self.spec_position())
    }

    pub open spec fn spec_bottom_right(&self) -> Vec2d {
        self.spec_size().spec_plus(self.spec_position())
    }

    /// The tile with top-left corner at `position` and pixels `image`.
    pub fn new(image: PixelBuffer, position: Vec2d) -> (t: Tile)
        requires
            image.wf(),
        ensures
            t.wf(),
            t.spec_image() == image,
            t.spec_position() == position,
    {
        Tile { image, position }
    }

    /// Decodes `bytes`, in any format that the decoder recognises, into the
    /// tile at `position`.
    pub fn decode(bytes: &[u8], position: Vec2d) -> (r: Result<Tile, ZoomError>)
        ensures
            is_decoded_tile(bytes@, position, r),
    {
        match decode_rgba(bytes) {
            Ok((width, height, raw)) => {
                let image = from_rgba_bytes(width, height, &raw);
                Ok(Tile { image, position })
            },
            Err(e) => Err(ZoomError::Image { source: e }),
        }
    }

    /// Finishes a download once the optional post-processing transform has
    /// run on the fetched bytes: its failure becomes a post-processing error,
    /// and what it produced (or the fetched bytes themselves, when there is no
    /// transform) is decoded into the tile at the reference's position.
    pub fn from_post_processed(outcome: Result<Vec<u8>, String>, tile_reference: &TileReference) -> (r:
        Result<Tile, ZoomError>)
        ensures
            outcome matches Err(m) ==> r matches Err(ZoomError::PostProcessing { message }) && message@
                == m@,
            outcome matches Ok(b) ==> is_decoded_tile(b@, tile_reference.position, r),
    {
        match outcome {
            Ok(bytes) => Tile::decode(bytes.as_slice(), tile_reference.position),
            Err(message) => Err(ZoomError::PostProcessing { message }),
        }
    }

    pub fn size(&self) -> (r: Vec2d)
        ensures
            r == self.spec_size(),
    {
        self.image.size()
    }

    pub fn bottom_right(&self) -> (r: Vec2d)
        requires
            self.fits(),
        ensures
            r == self.spec_bottom_right(),
    {
        self.size().plus(self.position)
    }

    pub fn position(&self) -> (r: Vec2d)
        ensures
            r == self.spec_position(),
    {
        self.position
    }

    pub fn image(&self) -> (r: &PixelBuffer)
        ensures
            *r == self.spec_image(),
    {
        &self.image
    }
}

/// An RGBA canvas that tiles are drawn onto. Without a size hint it starts at
/// one pixel and grows to the smallest size holding every tile placed so far;
/// with one it keeps that size and clips what falls outside.
pub struct Canvas {
    image: PixelBuffer,
    size: Vec2d,
    is_size_exact: bool,
}

impl Canvas {
    pub closed spec fn wf(&self) -> bool {
        self.image.wf() && self.image.spec_size() == self.size
    }

    pub closed spec fn spec_image(&self) -> PixelBuffer {
        self.image
    }

    pub closed spec fn spec_is_size_exact(&self) -> bool {
        self.is_size_exact
    }

    pub open spec fn spec_size(&self) -> Vec2d {
        self.spec_image().spec_size()
    }

    pub open spec fn pixel(&self, i: int, j: int) -> Rgba {
        self.spec_image().pixel(i, j)
    }

    /// The canvas size once `tile` is added.
    pub open spec fn size_after(&self, tile: Tile) -> Vec2d {
        if self.spec_is_size_exact() {
            self.spec_size()
        } else {
            tile.spec_bottom_right().spec_max(self.spec_size())
        }
    }

    /// `self` is `old` after `tile` was added: grown if `old` may grow, with
    /// the tile's pixels over its area, `old`'s pixels elsewhere, and
    /// transparent pixels where neither reaches.
    pub open spec fn is_placement(&self, old: Canvas, tile: Tile) -> bool {
        &&& self.spec_is_size_exact() == old.spec_is_size_exact()
        &&& self.spec_size() == old.size_after(tile)
        &&& forall|i: int, j: int|
            #![trigger self.pixel(i, j)]
            self.spec_size().contains(i, j) ==> self.pixel(i, j) == if covers(
                tile.spec_position(),
                tile.spec_size(),
                i,
                j,
            ) {
                tile.pixel(i - tile.spec_position().x, j - tile.spec_position().y)
            } else if old.spec_size().contains(i, j) {
                old.pixel(i, j)
            } else {
                crate::geometry::transparent()
            }
    }

    /// A transparent canvas: of exactly `size_hint` when it is given, which
    /// it then keeps; of one pixel, free to grow, otherwise.
    pub fn new(size_hint: Option<Vec2d>) -> (c: Canvas)
        requires
            size_hint matches Some(s) ==> s.area_fits(),
        ensures
            c.wf(),
            c.spec_is_size_exact() == size_hint is Some,
            c.spec_size() == match size_hint {
                Some(s) => s,
                None => Vec2d { x: 1, y: 1 },
            },
            forall|i: int, j: int|
                #![trigger c.pixel(i, j)]
                c.spec_size().contains(i, j) ==> c.pixel(i, j) == crate::geometry::transparent(),
    {
        let size = match size_hint {
            Some(s) => s,
            None => Vec2d { x: 1, y: 1 },
        };
        assert(size.area_fits()) by {
            if size_hint is None {
                assert(1 * 1 <= usize::MAX) by (nonlinear_arith);
            }
        }
        let image = empty_buffer(size);
        let is_size_exact = size_hint.is_some();
        Canvas { image, size, is_size_exact }
    }

    /// Draws `tile` at its position, after growing the canvas to hold it
    /// unless the size is fixed; later tiles overwrite earlier ones, and what
    /// falls outside a fixed canvas is clipped without error.
    pub fn add_tile(&mut self, tile: &Tile) -> (r: Result<(), ZoomError>)
        requires
            old(self).wf(),
            tile.wf(),
            tile.fits(),
            old(self).size_after(*tile).area_fits(),
        ensures
            r is Ok,
            final(self).wf(),
            final(self).is_placement(*old(self), *tile),
            old(self).spec_size().fits_in(final(self).spec_size()),
            old(self).spec_is_size_exact() ==> final(self).spec_size() == old(self).spec_size(),
    {
        let ghost before = *self;
        let new_size = tile.bottom_right().max_with(self.size);
        if !self.is_size_exact && new_size != self.size {
            self.size = new_size;
            let mut image = empty_buffer(Vec2d { x: 0, y: 0 });
            std::mem::swap(&mut self.image, &mut image);
            self.image = grow_buffer(image, new_size);
        }
        let ghost grown = self.image;
        self.image.copy_from(&tile.image, tile.position);
        proof {
            assert forall|i: int, j: int| #[trigger]
                self.spec_size().contains(i, j) implies grown.pixel(i, j) == kept_or_clear(
                before.image,
                i,
                j,
            ) by {
                if grown == before.image {
                    assert(before.image.spec_size().contains(i, j));
                }
            }
        }
        Ok(())
    }

    pub fn size(&self) -> (r: Vec2d)
        requires
            self.wf(),
        ensures
            r == self.spec_size(),
    {
        self.size
    }

    pub fn is_size_exact(&self) -> (r: bool)
        ensures
            r == self.spec_is_size_exact(),
    {
        self.is_size_exact
    }

    /// The canvas's pixels.
    pub fn image(&self) -> (r: &PixelBuffer)
        ensures
            *r == self.spec_image(),
    {
        &self.image
    }
}

} // verus!
