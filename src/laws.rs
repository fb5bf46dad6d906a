use vstd::prelude::*;
use crate::buffer::{is_growth_of, PixelBuffer};
use crate::canvas::{Canvas, Tile};
use crate::geometry::covers;

verus! {

/// Growing a buffer through any chain of ever larger sizes keeps every pixel
/// of the first buffer, with the same value at the same coordinates.
pub proof fn lemma_growth_chain_keeps_pixels(bufs: Seq<PixelBuffer>)
    requires
        bufs.len() >= 1,
        forall|k: int| 0 < k < bufs.len() ==> is_growth_of(#[trigger] bufs[k], bufs[k - 1]),
    ensures
        bufs[0].spec_size().fits_in(bufs.last().spec_size()),
        forall|i: int, j: int|
            #![trigger bufs.last().pixel(i, j)]
            bufs[0].spec_size().contains(i, j) ==> bufs.last().pixel(i, j) == bufs[0].pixel(i, j),
    decreases bufs.len(),
{
    if bufs.len() > 1 {
        let prefix = bufs.drop_last();
        assert forall|k: int| 0 < k < prefix.len() implies is_growth_of(
            #[trigger] prefix[k],
            prefix[k - 1],
        ) by {
            assert(is_growth_of(bufs[k], bufs[k - 1]));
        }
        lemma_growth_chain_keeps_pixels(prefix);
        let n = bufs.len() - 1;
        assert(is_growth_of(bufs[n], bufs[n - 1]));
        assert(prefix.last() == bufs[n - 1]);
        assert forall|i: int, j: int| bufs[0].spec_size().contains(i, j) implies #[trigger] bufs.last().pixel(
            i,
            j,
        ) == bufs[0].pixel(i, j) by {
            assert(prefix.last().pixel(i, j) == prefix[0].pixel(i, j));
        }
    }
}

/// After a growth, every pixel of the added area is fully transparent.
pub proof fn lemma_growth_adds_transparent(new: PixelBuffer, old: PixelBuffer)
    requires
        is_growth_of(new, old),
    ensures
        forall|i: int, j: int|
            #![trigger new.pixel(i, j)]
            new.spec_size().contains(i, j) && !old.spec_size().contains(i, j) ==> new.pixel(i, j).a
                == 0,
{
}

/// Where two tiles placed one after the other overlap, the canvas shows the
/// second one.
pub proof fn lemma_later_tile_wins(c0: Canvas, c1: Canvas, c2: Canvas, first: Tile, second: Tile)
    requires
        c1.is_placement(c0, first),
        c2.is_placement(c1, second),
    ensures
        forall|i: int, j: int|
            #![trigger c2.pixel(i, j)]
            c2.spec_size().contains(i, j) && covers(
                first.spec_position(),
                first.spec_size(),
                i,
                j,
            ) && covers(second.spec_position(), second.spec_size(), i, j) ==> c2.pixel(i, j)
                == second.pixel(i - second.spec_position().x, j - second.spec_position().y),
{
}

/// Over any run of tile placements, a canvas never shrinks in either
/// dimension, and one made with a size hint keeps that size throughout.
pub proof fn lemma_placements_keep_or_grow_size(canvases: Seq<Canvas>, tiles: Seq<Tile>)
    requires
        canvases.len() == tiles.len() + 1,
        forall|k: int|
            0 < k < canvases.len() ==> (#[trigger] canvases[k]).is_placement(
                canvases[k - 1],
                tiles[k - 1],
            ),
    ensures
        canvases[0].spec_size().fits_in(canvases.last().spec_size()),
        canvases.last().spec_is_size_exact() == canvases[0].spec_is_size_exact(),
        canvases[0].spec_is_size_exact() ==> canvases.last().spec_size() == canvases[0].spec_size(),
    decreases canvases.len(),
{
    if canvases.len() > 1 {
        let cs = canvases.drop_last();
        let ts = tiles.drop_last();
        assert forall|k: int| 0 < k < cs.len() implies (#[trigger] cs[k]).is_placement(
            cs[k - 1],
            ts[k - 1],
        ) by {
            assert(canvases[k].is_placement(canvases[k - 1], tiles[k - 1]));
        }
        lemma_placements_keep_or_grow_size(cs, ts);
        let n = canvases.len() - 1;
        assert(canvases[n].is_placement(canvases[n - 1], tiles[n - 1]));
        assert(cs.last() == canvases[n - 1]);
    }
}

} // verus!
