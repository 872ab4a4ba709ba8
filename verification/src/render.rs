//! Tiles of the rendered canvas, and the cache of rendered tiles.
use vstd::prelude::*;

use crate::bits::{f64_bits_of_nat, F64Bits};
use crate::geometry::{rect_at_origin, Rect};
use crate::color::ColorSpace;
use crate::pixel::{BufferModel, PixelBuffer};

verus! {

/// A rendered canvas and the color space its pixels are in.
pub struct RenderOutput {
    pub buffer: PixelBuffer,
    pub color_space: ColorSpace,
}

/// Side of a square tile, in pixels.
pub const TILE_SIZE: u32 = 256;

/// Largest width or height whose tiles can be counted in `u32` steps.
pub const MAX_TILED: u32 = 4294967040;

/// Number of tiles needed to cover `n` pixels.
pub open spec fn tiles_across(n: u32) -> nat {
    ((n as nat + 255) / 256) as nat
}

/// `x` as the bit pattern of the `f64` it is.
pub open spec fn f64_of(x: u32) -> F64Bits {
    f64_bits_of_nat(x as nat) as u64
}

/// The rectangle at pixel offset `(x, y)` with size `w` by `h`.
pub open spec fn pixel_rect(x: u32, y: u32, w: u32, h: u32) -> Rect {
    Rect { x: f64_of(x), y: f64_of(y), width: f64_of(w), height: f64_of(h) }
}

/// The smaller of `a` and `b`.
pub open spec fn min_u32(a: u32, b: u32) -> u32 {
    if a < b { a } else { b }
}

/// Tile number `i` of a `width` by `height` canvas: tiles go row by row,
/// each `TILE_SIZE` square except at the right and bottom edges.
pub open spec fn tile_at(width: u32, height: u32, i: int) -> Rect {
    let cols = tiles_across(width) as int;
    let r = i / cols;
    let c = i % cols;
    let x = (c * 256) as u32;
    let y = (r * 256) as u32;
    pixel_rect(x, y, min_u32(256, (width - x) as u32), min_u32(256, (height - y) as u32))
}

/// The tiles covering a `width` by `height` canvas, in order.
pub open spec fn tile_grid(width: u32, height: u32) -> Seq<Rect> {
    let n = if height == 0 { 0 } else { tiles_across(width) * tiles_across(height) };
    Seq::new(n, |i: int| tile_at(width, height, i))
}

fn pixel_rect_of(x: u32, y: u32, w: u32, h: u32) -> (r: Rect)
    ensures
        r == pixel_rect(x, y, w, h),
{
    let a = rect_at_origin(x, y);
    let b = rect_at_origin(w, h);
    Rect { x: a.width, y: a.height, width: b.width, height: b.height }
}

proof fn lemma_tiles_across(n: u32, k: int)
    requires
        0 <= k,
        n <= MAX_TILED,
    ensures
        (k * 256 < n) == (k < tiles_across(n)),
        tiles_across(n) * 256 <= MAX_TILED,
{
    assert((k * 256 < n) == (k < (n as int + 255) / 256)) by (nonlinear_arith)
        requires
            0 <= k,
            0 <= n,
    ;
    assert(((n as int + 255) / 256) * 256 <= MAX_TILED) by (nonlinear_arith)
        requires
            0 <= n <= MAX_TILED,
    ;
}

proof fn lemma_tile_index(cols: int, r: int, c: int)
    requires
        cols > 0,
        0 <= c < cols,
        0 <= r,
    ensures
        (r * cols + c) / cols == r,
        (r * cols + c) % cols == c,
{
    vstd::arithmetic::div_mod::lemma_fundamental_div_mod_converse(r * cols + c, cols, r, c);
}

/// The tiles covering a `width` by `height` canvas, row by row.
pub fn tile_coords(width: u32, height: u32) -> (r: Vec<Rect>)
    requires
        height <= MAX_TILED,
        height == 0 || width <= MAX_TILED,
    ensures
        r@ == tile_grid(width, height),
{
    let mut tiles: Vec<Rect> = Vec::new();
    if height == 0 || width == 0 {
        assert(tile_grid(width, height) =~= seq![]) by {
            if height != 0 {
                assert(tiles_across(width) == 0);
            }
        }
        return tiles;
    }
    let ghost cols = tiles_across(width) as int;
    let ghost rows = tiles_across(height) as int;
    assert(cols > 0);
    let mut y: u32 = 0;
    let mut row: u32 = 0;
    proof {
        lemma_tiles_across(height, 0);
        lemma_tiles_across(width, 0);
    }
    while y < height
        invariant
            0 < width <= MAX_TILED,
            0 < height <= MAX_TILED,
            cols == tiles_across(width),
            rows == tiles_across(height),
            cols > 0,
            y == row * 256,
            row <= rows,
            y < height ==> row < rows,
            y >= height ==> row == rows,
            tiles@.len() == row * cols,
            forall|i: int| 0 <= i < tiles@.len() ==> #[trigger] tiles@[i] == tile_at(width, height, i),
        decreases rows - row,
    {
        let th = if height - y < TILE_SIZE { height - y } else { TILE_SIZE };
        let mut x: u32 = 0;
        let mut col: u32 = 0;
        while x < width
            invariant
                0 < width <= MAX_TILED,
                0 < height <= MAX_TILED,
                cols == tiles_across(width),
                cols > 0,
                y == row * 256,
                y < height,
                th == min_u32(256, (height - y) as u32),
                x == col * 256,
                col <= cols,
                x < width ==> col < cols,
                x >= width ==> col == cols,
                tiles@.len() == row * cols + col,
                forall|i: int| 0 <= i < tiles@.len() ==> #[trigger] tiles@[i] == tile_at(width, height, i),
            decreases cols - col,
        {
            let tw = if width - x < TILE_SIZE { width - x } else { TILE_SIZE };
            let t = pixel_rect_of(x, y, tw, th);
            proof {
                lemma_tile_index(cols, row as int, col as int);
                assert((row * cols + col) / cols == row);
            }
            tiles.push(t);
            proof {
                lemma_tiles_across(width, col + 1);
                lemma_tiles_across(width, col as int);
            }
            x += TILE_SIZE;
            col += 1;
        }
        proof {
            lemma_tiles_across(height, row + 1);
            lemma_tiles_across(height, row as int);
        }
        y += TILE_SIZE;
        row += 1;
        assert(tiles@.len() == row * cols) by (nonlinear_arith)
            requires
                tiles@.len() == (row - 1) * cols + cols,
        ;
    }
    assert(tiles@ =~= tile_grid(width, height));
    tiles
}

// ── The cache of rendered tiles ─────────────────────────

/// A tile of the cache: where it is, whether it must be rendered again, and
/// its pixels once rendered.
pub struct CachedTile {
    pub rect: Rect,
    pub dirty: bool,
    pub buffer: Option<PixelBuffer>,
}

/// The value of a cached tile.
pub struct TileModel {
    pub rect: Rect,
    pub dirty: bool,
    pub buffer: Option<BufferModel>,
}

/// Cache of rendered tiles, tracking which must be rendered again.
pub struct RenderCache {
    tiles: Vec<CachedTile>,
}

/// The value of a cached tile.
pub open spec fn tile_model(t: CachedTile) -> TileModel {
    TileModel {
        rect: t.rect,
        dirty: t.dirty,
        buffer: match t.buffer {
            Some(b) => Some(b@),
            None => None,
        },
    }
}

impl View for RenderCache {
    type V = Seq<TileModel>;

    closed spec fn view(&self) -> Seq<TileModel> {
        self.tiles@.map_values(|t: CachedTile| tile_model(t))
    }
}

/// A tile that must be rendered.
pub open spec fn dirty_tile(rect: Rect) -> TileModel {
    TileModel { rect, dirty: true, buffer: None }
}

/// The positions of the dirty tiles of `s`, in order.
pub open spec fn dirty_positions(s: Seq<TileModel>) -> Seq<usize>
    decreases s.len(),
{
    if s.len() == 0 {
        seq![]
    } else {
        let rest = dirty_positions(s.drop_last());
        if s.last().dirty {
            rest.push((s.len() - 1) as usize)
        } else {
            rest
        }
    }
}

impl RenderCache {
    /// A cache for a `width` by `height` canvas with every tile dirty.
    pub fn new(width: u32, height: u32) -> (r: RenderCache)
        requires
            height <= MAX_TILED,
            height == 0 || width <= MAX_TILED,
        ensures
            r@ == tile_grid(width, height).map_values(|t: Rect| dirty_tile(t)),
    {
        let rects = tile_coords(width, height);
        let mut tiles: Vec<CachedTile> = Vec::new();
        let mut i: usize = 0;
        while i < rects.len()
            invariant
                i <= rects@.len(),
                tiles@.len() == i,
                forall|k: int| 0 <= k < i ==> #[trigger] tile_model(tiles@[k]) == dirty_tile(rects@[k]),
            decreases rects.len() - i,
        {
            tiles.push(CachedTile { rect: rects[i], dirty: true, buffer: None });
            i += 1;
        }
        let r = RenderCache { tiles };
        assert(r@ =~= tile_grid(width, height).map_values(|t: Rect| dirty_tile(t)));
        r
    }

    /// Mark every tile dirty, dropping its pixels.
    pub fn invalidate_all(&mut self)
        ensures
            final(self)@ == old(self)@.map_values(|t: TileModel| dirty_tile(t.rect)),
    {
        let ghost start = self@;
        let mut i: usize = 0;
        while i < self.tiles.len()
            invariant
                i <= self.tiles@.len(),
                start.len() == self.tiles@.len(),
                forall|k: int| 0 <= k < i ==> #[trigger] tile_model(self.tiles@[k]) == dirty_tile(start[k].rect),
                forall|k: int| i <= k < self.tiles@.len() ==> #[trigger] tile_model(self.tiles@[k]) == start[k],
            decreases self.tiles.len() - i,
        {
            let rect = self.tiles[i].rect;
            assert(tile_model(self.tiles@[i as int]) == start[i as int]);
            assert(rect == start[i as int].rect);
            self.tiles.set(i, CachedTile { rect, dirty: true, buffer: None });
            assert(tile_model(self.tiles@[i as int]) == dirty_tile(start[i as int].rect));
            i += 1;
        }
        assert(self@ =~= start.map_values(|t: TileModel| dirty_tile(t.rect)));
    }

    /// Mark dirty, dropping its pixels, every tile that `overlaps` says meets `region`.
    pub fn invalidate_region<F: Fn(&Rect, &Rect) -> bool>(&mut self, region: Rect, overlaps: F)
        requires
            forall|a: &Rect, b: &Rect| call_requires(overlaps, (a, b)),
        ensures
            final(self)@.len() == old(self)@.len(),
            forall|k: int| 0 <= k < old(self)@.len() ==> {
                ||| (call_ensures(overlaps, (&old(self)@[k].rect, &region), true)
                    && #[trigger] final(self)@[k] == dirty_tile(old(self)@[k].rect))
                ||| (call_ensures(overlaps, (&old(self)@[k].rect, &region), false) && final(self)@[k] == old(self)@[k])
            },
    {
        let ghost start = self@;
        let mut i: usize = 0;
        while i < self.tiles.len()
            invariant
                i <= self.tiles@.len(),
                start.len() == self.tiles@.len(),
                forall|a: &Rect, b: &Rect| call_requires(overlaps, (a, b)),
                forall|k: int| 0 <= k < i ==> {
                    ||| (call_ensures(overlaps, (&start[k].rect, &region), true)
                        && #[trigger] tile_model(self.tiles@[k]) == dirty_tile(start[k].rect))
                    ||| (call_ensures(overlaps, (&start[k].rect, &region), false) && tile_model(self.tiles@[k])
                        == start[k])
                },
                forall|k: int| i <= k < self.tiles@.len() ==> #[trigger] tile_model(self.tiles@[k]) == start[k],
            decreases self.tiles.len() - i,
        {
            let rect = self.tiles[i].rect;
            assert(tile_model(self.tiles@[i as int]) == start[i as int]);
            assert(rect == start[i as int].rect);
            let hit = overlaps(&rect, &region);
            if hit {
                self.tiles.set(i, CachedTile { rect, dirty: true, buffer: None });
                assert(tile_model(self.tiles@[i as int]) == dirty_tile(start[i as int].rect));
            }
            assert(call_ensures(overlaps, (&start[i as int].rect, &region), hit));
            i += 1;
        }
        assert forall|k: int| 0 <= k < start.len() implies #[trigger] self@[k] == tile_model(self.tiles@[k]) by {}
    }

    /// The positions of the dirty tiles, in order.
    pub fn dirty_tiles(&self) -> (r: Vec<usize>)
        ensures
            r@ == dirty_positions(self@),
    {
        let mut r: Vec<usize> = Vec::new();
        let mut i: usize = 0;
        while i < self.tiles.len()
            invariant
                i <= self.tiles@.len(),
                r@ == dirty_positions(self@.subrange(0, i as int)),
            decreases self.tiles.len() - i,
        {
            assert(self@.subrange(0, i + 1).drop_last() =~= self@.subrange(0, i as int));
            if self.tiles[i].dirty {
                r.push(i);
            }
            i += 1;
        }
        assert(self@.subrange(0, i as int) =~= self@);
        r
    }

    /// Keep the rendered pixels of tile `index` and mark it clean; an index
    /// past the last tile changes nothing.
    pub fn store_tile(&mut self, index: usize, buffer: PixelBuffer)
        ensures
            index < old(self)@.len() ==> final(self)@ == old(self)@.update(
                index as int,
                TileModel { rect: old(self)@[index as int].rect, dirty: false, buffer: Some(buffer@) },
            ),
            index >= old(self)@.len() ==> final(self)@ == old(self)@,
    {
        if index < self.tiles.len() {
            let rect = self.tiles[index].rect;
            self.tiles.set(index, CachedTile { rect, dirty: false, buffer: Some(buffer) });
            assert(self@ =~= old(self)@.update(
                index as int,
                TileModel { rect: old(self)@[index as int].rect, dirty: false, buffer: Some(buffer@) },
            ));
        }
    }

    /// Where tile `index` is, if there is such a tile.
    pub fn tile_rect(&self, index: usize) -> (r: Option<Rect>)
        ensures
            r == (if index < self@.len() { Some(self@[index as int].rect) } else { None }),
    {
        if index < self.tiles.len() {
            Some(self.tiles[index].rect)
        } else {
            None
        }
    }

    /// Number of tiles.
    pub fn tile_count(&self) -> (r: usize)
        ensures
            r == self@.len(),
    {
        self.tiles.len()
    }

    /// Whether no tile is dirty.
    pub fn is_clean(&self) -> (r: bool)
        ensures
            r == (forall|k: int| 0 <= k < self@.len() ==> !(#[trigger] self@[k]).dirty),
    {
        let mut i: usize = 0;
        while i < self.tiles.len()
            invariant
                i <= self.tiles@.len(),
                forall|k: int| 0 <= k < i ==> !(#[trigger] self@[k]).dirty,
            decreases self.tiles.len() - i,
        {
            if self.tiles[i].dirty {
                assert(self@[i as int].dirty);
                return false;
            }
            i += 1;
        }
        true
    }
}

} // verus!
