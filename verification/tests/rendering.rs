use rasa::geometry::Rect;
use rasa::pixel::PixelBuffer;
use rasa::render::{tile_coords, RenderCache};

fn approx_eq(a: f32, b: f32) -> bool {
    (a - b).abs() < 0.02
}

fn rect(x: f64, y: f64, width: f64, height: f64) -> Rect {
    Rect { x: x.to_bits(), y: y.to_bits(), width: width.to_bits(), height: height.to_bits() }
}

fn num(bits: u64) -> f64 {
    f64::from_bits(bits)
}

/// Whether two rectangles share some area.
fn rects_overlap(a: &Rect, b: &Rect) -> bool {
    num(a.x) < num(b.x) + num(b.width)
        && num(a.x) + num(a.width) > num(b.x)
        && num(a.y) < num(b.y) + num(b.height)
        && num(a.y) + num(a.height) > num(b.y)
}

#[test]
fn tile_coords_small_image() {
    let tiles = tile_coords(100, 100);
    assert_eq!(tiles.len(), 1);
    assert!(approx_eq(num(tiles[0].width) as f32, 100.0));
}

#[test]
fn tile_coords_exact_multiple() {
    let tiles = tile_coords(512, 512);
    assert_eq!(tiles.len(), 4);
}

#[test]
fn tile_coords_non_multiple() {
    let tiles = tile_coords(300, 300);
    assert_eq!(tiles.len(), 4);
    assert!(approx_eq(num(tiles[0].width) as f32, 256.0));
    assert!(approx_eq(num(tiles[1].width) as f32, 44.0));
}

#[test]
fn cache_starts_all_dirty() {
    let cache = RenderCache::new(512, 512);
    assert_eq!(cache.tile_count(), 4);
    assert_eq!(cache.dirty_tiles().len(), 4);
    assert!(!cache.is_clean());
}

#[test]
fn cache_store_cleans_tile() {
    let mut cache = RenderCache::new(100, 100);
    assert_eq!(cache.dirty_tiles().len(), 1);
    cache.store_tile(0, PixelBuffer::new(100, 100));
    assert_eq!(cache.dirty_tiles().len(), 0);
    assert!(cache.is_clean());
}

#[test]
fn cache_invalidate_region() {
    let mut cache = RenderCache::new(512, 512);
    for i in 0..cache.tile_count() {
        cache.store_tile(i, PixelBuffer::new(256, 256));
    }
    assert!(cache.is_clean());
    cache.invalidate_region(rect(0.0, 0.0, 10.0, 10.0), rects_overlap);
    assert_eq!(cache.dirty_tiles().len(), 1);
    assert_eq!(cache.dirty_tiles()[0], 0);
}

#[test]
fn cache_invalidate_all() {
    let mut cache = RenderCache::new(512, 512);
    for i in 0..cache.tile_count() {
        cache.store_tile(i, PixelBuffer::new(256, 256));
    }
    cache.invalidate_all();
    assert_eq!(cache.dirty_tiles().len(), 4);
}

#[test]
fn rects_overlap_cases() {
    let a = rect(0.0, 0.0, 10.0, 10.0);
    let b = rect(5.0, 5.0, 10.0, 10.0);
    assert!(rects_overlap(&a, &b));
    let c = rect(20.0, 20.0, 5.0, 5.0);
    assert!(!rects_overlap(&a, &c));
}
