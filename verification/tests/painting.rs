use rasa::color::Color;
use rasa::pixel::PixelBuffer;
use rasa::tools::{crop_region, eyedropper, flood_fill};

fn approx_eq(a: u32, b: f32) -> bool {
    (f32::from_bits(a) - b).abs() < 0.05
}

fn rgba(r: f32, g: f32, b: f32, a: f32) -> Color {
    Color::new(r.to_bits(), g.to_bits(), b.to_bits(), a.to_bits())
}

fn color_distance(a: Color, b: Color) -> f32 {
    let d = |x: u32, y: u32| f32::from_bits(x) - f32::from_bits(y);
    let (dr, dg, db, da) = (d(a.r, b.r), d(a.g, b.g), d(a.b, b.b), d(a.a, b.a));
    (dr * dr + dg * dg + db * db + da * da).sqrt() / 2.0
}

/// Flood fill with a tolerance on the color distance to the seed's color.
fn fill_within(buf: &mut PixelBuffer, x: u32, y: u32, color: Color, tolerance: f32) {
    flood_fill(buf, x, y, color, &|px: Color, target: Color| !(color_distance(px, target) > tolerance));
}

/// `(x, y)` to `(x + width, y + height)`, as the crop bounds.
fn crop(buf: &PixelBuffer, x: f64, y: f64, width: f64, height: f64) -> PixelBuffer {
    crop_region(buf, x as u32, y as u32, (x + width) as u32, (y + height) as u32)
}

#[test]
fn eyedropper_returns_color() {
    let buf = PixelBuffer::filled(4, 4, rgba(1.0, 0.0, 0.0, 1.0));
    let c = eyedropper(&buf, 2, 2).unwrap();
    assert!(approx_eq(c.r, 1.0));
}

#[test]
fn eyedropper_out_of_bounds() {
    let buf = PixelBuffer::new(4, 4);
    assert!(eyedropper(&buf, 10, 10).is_none());
}

#[test]
fn flood_fill_uniform() {
    let mut buf = PixelBuffer::filled(8, 8, Color::white());
    fill_within(&mut buf, 0, 0, rgba(1.0, 0.0, 0.0, 1.0), 0.1);
    let px = buf.get(7, 7).unwrap();
    assert!(approx_eq(px.r, 1.0));
    assert!(approx_eq(px.g, 0.0));
}

#[test]
fn flood_fill_stops_at_boundary() {
    let mut buf = PixelBuffer::filled(8, 8, Color::white());
    for y in 0..8 {
        buf.set(4, y, Color::black());
    }
    fill_within(&mut buf, 0, 0, rgba(1.0, 0.0, 0.0, 1.0), 0.1);
    let left = buf.get(2, 2).unwrap();
    assert!(approx_eq(left.r, 1.0));
    let right = buf.get(6, 6).unwrap();
    assert!(approx_eq(right.r, 1.0));
    assert!(approx_eq(right.g, 1.0));
}

#[test]
fn flood_fill_out_of_bounds_seed() {
    let mut buf = PixelBuffer::new(4, 4);
    fill_within(&mut buf, 10, 10, Color::white(), 0.1);
    assert_eq!(buf.get(0, 0), Some(Color::transparent()));
}

#[test]
fn flood_fill_does_not_cross_diagonals() {
    // A checkerboard: the seed's color touches itself only at corners.
    let mut buf = PixelBuffer::filled(3, 3, Color::white());
    for (x, y) in [(1, 0), (0, 1), (2, 1), (1, 2)] {
        buf.set(x, y, Color::black());
    }
    fill_within(&mut buf, 1, 1, rgba(0.0, 0.0, 1.0, 1.0), 0.1);
    assert_eq!(buf.get(1, 1), Some(rgba(0.0, 0.0, 1.0, 1.0)));
    assert_eq!(buf.get(0, 0), Some(Color::white()));
    assert_eq!(buf.get(2, 2), Some(Color::white()));
    assert_eq!(buf.get(1, 0), Some(Color::black()));
}

#[test]
fn flood_fill_fills_an_enclosed_region_exactly() {
    let mut buf = PixelBuffer::filled(5, 4, Color::white());
    for x in 0..5 {
        buf.set(x, 2, Color::black());
    }
    fill_within(&mut buf, 4, 3, rgba(0.0, 1.0, 0.0, 1.0), 0.0);
    for x in 0..5 {
        assert_eq!(buf.get(x, 3), Some(rgba(0.0, 1.0, 0.0, 1.0)));
        assert_eq!(buf.get(x, 2), Some(Color::black()));
        assert_eq!(buf.get(x, 0), Some(Color::white()));
    }
}

#[test]
fn crop_extracts_region() {
    let buf = PixelBuffer::filled(10, 10, Color::white());
    let cropped = crop(&buf, 2.0, 2.0, 4.0, 4.0);
    assert_eq!(cropped.dimensions(), (4, 4));
    assert!(approx_eq(cropped.get(0, 0).unwrap().r, 1.0));
}

#[test]
fn crop_clamps_to_bounds() {
    let buf = PixelBuffer::new(5, 5);
    let cropped = crop(&buf, 3.0, 3.0, 10.0, 10.0);
    assert_eq!(cropped.dimensions(), (2, 2));
}

#[test]
fn crop_keeps_pixel_positions() {
    let mut buf = PixelBuffer::new(4, 3);
    buf.set(2, 1, Color::black());
    let cropped = crop_region(&buf, 1, 1, 3, 3);
    assert_eq!(cropped.dimensions(), (2, 2));
    assert_eq!(cropped.get(1, 0), Some(Color::black()));
    assert_eq!(cropped.get(0, 0), Some(Color::transparent()));
}

#[test]
fn crop_of_empty_range_is_empty() {
    let buf = PixelBuffer::new(4, 4);
    assert_eq!(crop_region(&buf, 3, 1, 2, 4).dimensions(), (0, 3));
}

#[test]
fn crop_whole_buffer_gives_it_back() {
    let mut buf = PixelBuffer::new(3, 2);
    buf.set(2, 1, Color::black());
    buf.set(0, 0, Color::white());
    let same = crop_region(&buf, 0, 0, 3, 2);
    assert_eq!(same.dimensions(), (3, 2));
    assert_eq!(same.pixels(), buf.pixels());
}
