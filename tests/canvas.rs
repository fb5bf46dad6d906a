use dezoomify::buffer::{empty_buffer, from_rgba_bytes, grow_buffer, PixelBuffer};
use dezoomify::canvas::{Canvas, Tile, TileReference};
use dezoomify::errors::ZoomError;
use dezoomify::geometry::{byte_size, max_size_in_rect, Rgba, Vec2d};

fn v(x: u32, y: u32) -> Vec2d {
    Vec2d { x, y }
}

fn solid_tile(w: u32, h: u32, p: Rgba, position: Vec2d) -> Tile {
    let pixels = vec![p; (w * h) as usize];
    Tile::new(PixelBuffer::from_raw(w, h, pixels).unwrap(), position)
}

fn clear() -> Rgba {
    Rgba::from_channels(0, 0, 0, 0)
}

fn red() -> Rgba {
    Rgba::from_channels(255, 0, 0, 255)
}

fn blue() -> Rgba {
    Rgba::from_channels(0, 0, 255, 255)
}

fn png_bytes(w: u32, h: u32, f: impl Fn(u32, u32) -> [u8; 4]) -> Vec<u8> {
    let img = image::RgbaImage::from_fn(w, h, |x, y| image::Rgba(f(x, y)));
    let mut out = std::io::Cursor::new(Vec::new());
    img.write_to(&mut out, image::ImageOutputFormat::Png).unwrap();
    out.into_inner()
}

#[test]
fn test_grow_buffer() {
    for new_x in 1..10 {
        let mut buf = empty_buffer(Vec2d { x: 1, y: 3 });
        let top = Rgba::from_channels(1, 2, 3, 4);
        buf.put_pixel(0, 0, top);
        let middle = Rgba::from_channels(10, 20, 30, 40);
        buf.put_pixel(0, 1, middle);
        let resized = grow_buffer(buf, Vec2d { x: new_x, y: 3 });
        assert_eq!(top, resized.get_pixel(0, 0));
        assert_eq!(middle, resized.get_pixel(0, 1));
    }
}

#[test]
fn growth_chain_keeps_every_pixel() {
    let mut buf = empty_buffer(v(2, 2));
    let values = [
        Rgba::from_channels(1, 2, 3, 4),
        Rgba::from_channels(5, 6, 7, 8),
        Rgba::from_channels(9, 10, 11, 12),
        Rgba::from_channels(13, 14, 15, 16),
    ];
    for (k, p) in values.iter().enumerate() {
        buf.put_pixel(k as u32 % 2, k as u32 / 2, *p);
    }
    for size in [v(2, 2), v(3, 2), v(3, 5), v(7, 5), v(8, 9)] {
        buf = grow_buffer(buf, size);
        assert_eq!(buf.size(), size);
        for (k, p) in values.iter().enumerate() {
            assert_eq!(buf.get_pixel(k as u32 % 2, k as u32 / 2), *p);
        }
    }
}

#[test]
fn growth_adds_only_transparent_pixels() {
    let mut buf = empty_buffer(v(2, 2));
    for y in 0..2 {
        for x in 0..2 {
            buf.put_pixel(x, y, Rgba::from_channels(7, 7, 7, 255));
        }
    }
    let grown = grow_buffer(buf, v(4, 3));
    for y in 0..3 {
        for x in 0..4 {
            let p = grown.get_pixel(x, y);
            if x < 2 && y < 2 {
                assert_eq!(p, Rgba::from_channels(7, 7, 7, 255));
            } else {
                assert_eq!(p, clear());
            }
        }
    }
}

#[test]
fn new_canvas_without_hint_is_one_transparent_pixel() {
    let canvas = Canvas::new(None);
    assert_eq!(canvas.size(), v(1, 1));
    assert!(!canvas.is_size_exact());
    assert_eq!(canvas.image().get_pixel(0, 0), clear());
}

#[test]
fn new_canvas_with_hint_has_that_size() {
    let canvas = Canvas::new(Some(v(4, 3)));
    assert_eq!(canvas.size(), v(4, 3));
    assert!(canvas.is_size_exact());
    assert_eq!(canvas.image().get_pixel(3, 2), clear());
}

#[test]
fn add_tile_never_shrinks() {
    let mut canvas = Canvas::new(None);
    canvas.add_tile(&solid_tile(3, 4, red(), v(2, 0))).unwrap();
    assert_eq!(canvas.size(), v(5, 4));
    canvas.add_tile(&solid_tile(1, 1, blue(), v(0, 0))).unwrap();
    assert_eq!(canvas.size(), v(5, 4));
    canvas.add_tile(&solid_tile(1, 1, blue(), v(0, 6))).unwrap();
    assert_eq!(canvas.size(), v(5, 7));
}

#[test]
fn exact_canvas_keeps_its_size() {
    let mut canvas = Canvas::new(Some(v(3, 3)));
    canvas.add_tile(&solid_tile(5, 5, red(), v(1, 1))).unwrap();
    canvas.add_tile(&solid_tile(2, 2, blue(), v(10, 10))).unwrap();
    assert_eq!(canvas.size(), v(3, 3));
}

#[test]
fn later_tile_wins_on_overlap() {
    let mut canvas = Canvas::new(None);
    canvas.add_tile(&solid_tile(3, 3, red(), v(0, 0))).unwrap();
    canvas.add_tile(&solid_tile(2, 2, blue(), v(1, 1))).unwrap();
    let img = canvas.image();
    assert_eq!(img.get_pixel(1, 1), blue());
    assert_eq!(img.get_pixel(2, 2), blue());
    assert_eq!(img.get_pixel(0, 0), red());
    assert_eq!(img.get_pixel(2, 0), red());
}

#[test]
fn tile_over_fixed_edge_is_clipped() {
    let mut canvas = Canvas::new(Some(v(3, 2)));
    let mut pixels = Vec::new();
    for k in 0..8u8 {
        pixels.push(Rgba::from_channels(k, k, k, 255));
    }
    let tile = Tile::new(PixelBuffer::from_raw(4, 2, pixels).unwrap(), v(1, 1));
    assert!(canvas.add_tile(&tile).is_ok());
    assert_eq!(canvas.size(), v(3, 2));
    let img = canvas.image();
    assert_eq!(img.get_pixel(1, 1), Rgba::from_channels(0, 0, 0, 255));
    assert_eq!(img.get_pixel(2, 1), Rgba::from_channels(1, 1, 1, 255));
    assert_eq!(img.get_pixel(0, 1), clear());
    assert_eq!(img.get_pixel(1, 0), clear());
}

#[test]
fn tile_entirely_outside_fixed_canvas_changes_nothing() {
    let mut canvas = Canvas::new(Some(v(2, 2)));
    assert!(canvas.add_tile(&solid_tile(2, 2, red(), v(5, 0))).is_ok());
    for y in 0..2 {
        for x in 0..2 {
            assert_eq!(canvas.image().get_pixel(x, y), clear());
        }
    }
}

#[test]
fn two_tiles_end_to_end() {
    let mut canvas = Canvas::new(None);
    canvas.add_tile(&solid_tile(2, 2, red(), v(0, 0))).unwrap();
    canvas.add_tile(&solid_tile(2, 2, blue(), v(1, 1))).unwrap();
    assert_eq!(canvas.size(), v(3, 3));
    let img = canvas.image();
    assert_eq!(img.get_pixel(0, 0), red());
    assert_eq!(img.get_pixel(2, 2), blue());
    assert_eq!(img.get_pixel(2, 0), clear());
    assert_eq!(img.get_pixel(1, 1), blue());
}

#[test]
fn failing_transform_gives_post_processing_error() {
    let canvas = Canvas::new(None);
    let reference = TileReference { url: String::from("http://example.com/0_0.png"), position: v(4, 4) };
    let r = Tile::from_post_processed(Err(String::from("transform refused the bytes")), &reference);
    match r {
        Err(ZoomError::PostProcessing { message }) => {
            assert_eq!(message, "transform refused the bytes")
        },
        other => panic!("unexpected {:?}", other.is_ok()),
    }
    assert_eq!(canvas.size(), v(1, 1));
    assert_eq!(canvas.image().get_pixel(0, 0), clear());
}

#[test]
fn garbage_bytes_give_image_error() {
    let r = Tile::decode(&[1, 2, 3, 4, 5], v(0, 0));
    assert!(matches!(r, Err(ZoomError::Image { .. })));
}

#[test]
fn png_bytes_decode_into_tile() {
    let bytes = png_bytes(3, 2, |x, y| [x as u8 * 10, y as u8 * 10, 5, 255]);
    let tile = Tile::decode(&bytes, v(7, 8)).unwrap();
    assert_eq!(tile.size(), v(3, 2));
    assert_eq!(tile.position(), v(7, 8));
    assert_eq!(tile.bottom_right(), v(10, 10));
    assert_eq!(tile.image().get_pixel(2, 1), Rgba::from_channels(20, 10, 5, 255));
    assert_eq!(tile.image().get_pixel(0, 0), Rgba::from_channels(0, 0, 5, 255));
}

#[test]
fn post_processed_bytes_are_decoded_at_reference_position() {
    let reference = TileReference { url: String::from("t"), position: v(1, 2) };
    let bytes = png_bytes(1, 1, |_, _| [9, 8, 7, 6]);
    let tile = Tile::from_post_processed(Ok(bytes), &reference).unwrap();
    assert_eq!(tile.position(), v(1, 2));
    assert_eq!(tile.image().get_pixel(0, 0), Rgba::from_channels(9, 8, 7, 6));
}

#[test]
fn byte_size_counts_four_bytes_per_pixel() {
    assert_eq!(byte_size(v(3, 5)), 60);
    assert_eq!(byte_size(v(0, 5)), 0);
}

#[test]
fn max_size_in_rect_clips() {
    assert_eq!(max_size_in_rect(v(1, 1), v(4, 4), v(3, 10)), v(2, 4));
    assert_eq!(max_size_in_rect(v(5, 0), v(4, 4), v(3, 10)), v(0, 4));
    assert_eq!(max_size_in_rect(v(0, 0), v(2, 2), v(3, 3)), v(2, 2));
}

#[test]
fn vec2d_max_and_plus() {
    assert_eq!(v(1, 5).max_with(v(3, 2)), v(3, 5));
    assert_eq!(v(1, 5).plus(v(3, 2)), v(4, 7));
}

#[test]
fn rgba_bytes_round_trip() {
    let bytes: Vec<u8> = (0..24u8).collect();
    let buf = from_rgba_bytes(3, 2, &bytes);
    assert_eq!(buf.get_pixel(1, 1), Rgba::from_channels(16, 17, 18, 19));
    assert_eq!(buf.to_rgba_bytes(), bytes);
}

#[test]
fn from_raw_checks_pixel_count() {
    assert!(PixelBuffer::from_raw(2, 2, vec![clear(); 3]).is_none());
    assert!(PixelBuffer::from_raw(2, 2, vec![clear(); 4]).is_some());
}
