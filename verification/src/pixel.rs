//! Pixel buffers: row-major RGBA pixels.
use vstd::prelude::*;

use crate::color::{transparent_color, Color};

verus! {

/// A pixel buffer: `width * height` colors in row-major order.
#[derive(Debug)]
pub struct PixelBuffer {
    pub width: u32,
    pub height: u32,
    data: Vec<Color>,
}

/// Most pixels a buffer holds (256 megapixels).
pub const MAX_PIXELS: usize = 256 * 1024 * 1024;

/// How many pixels a buffer of this size holds: `width * height`, capped at
/// `MAX_PIXELS`, and none when the product does not fit in a `usize`.
pub open spec fn buffer_len(width: u32, height: u32) -> nat {
    let n = width * height;
    if n > usize::MAX {
        0
    } else if n > MAX_PIXELS {
        MAX_PIXELS as nat
    } else {
        n as nat
    }
}

/// Position of pixel `(x, y)` in a row-major buffer of the given width.
pub open spec fn pixel_index(width: u32, x: u32, y: u32) -> int {
    y * width + x
}

/// The value of a pixel buffer.
pub struct BufferModel {
    pub width: u32,
    pub height: u32,
    /// The pixels, in row-major order.
    pub pixels: Seq<Color>,
}

impl BufferModel {
    /// Whether `(x, y)` lies inside the width and height.
    pub open spec fn in_bounds(self, x: u32, y: u32) -> bool {
        x < self.width && y < self.height
    }

    /// The position `(x, y)`, if inside the width and height, has a pixel.
    pub open spec fn addressable(self, x: u32, y: u32) -> bool {
        self.in_bounds(x, y) ==> pixel_index(self.width, x, y) < self.pixels.len()
    }

    /// The pixel at `(x, y)`.
    pub open spec fn at(self, x: u32, y: u32) -> Color {
        self.pixels[pixel_index(self.width, x, y)]
    }
}

/// `b` with the pixel at `(x, y)` set to `c`; unchanged outside its width and height.
pub open spec fn with_pixel(b: BufferModel, x: u32, y: u32, c: Color) -> BufferModel {
    if b.in_bounds(x, y) {
        BufferModel { pixels: b.pixels.update(pixel_index(b.width, x, y), c), ..b }
    } else {
        b
    }
}

/// Reading a pixel gives back what was last written there, and writing a
/// pixel leaves every other pixel as it was.
pub proof fn law_read_after_write(b: BufferModel, x: u32, y: u32, c: Color, x2: u32, y2: u32)
    requires
        b.addressable(x, y),
        b.addressable(x2, y2),
    ensures
        b.in_bounds(x, y) ==> with_pixel(b, x, y, c).at(x, y) == c,
        with_pixel(b, x, y, c).in_bounds(x2, y2) == b.in_bounds(x2, y2),
        b.in_bounds(x2, y2) && (x2 != x || y2 != y) ==> with_pixel(b, x, y, c).at(x2, y2) == b.at(x2, y2),
{
    if b.in_bounds(x2, y2) && b.in_bounds(x, y) && (x2 != x || y2 != y) {
        assert(pixel_index(b.width, x, y) != pixel_index(b.width, x2, y2)) by (nonlinear_arith)
            requires
                x < b.width,
                x2 < b.width,
                x2 != x || y2 != y,
        {
            if y != y2 {
                if y < y2 {
                    assert(y * b.width + b.width <= y2 * b.width);
                } else {
                    assert(y2 * b.width + b.width <= y * b.width);
                }
            }
        }
    }
}

impl View for PixelBuffer {
    type V = BufferModel;

    closed spec fn view(&self) -> BufferModel {
        BufferModel { width: self.width, height: self.height, pixels: self.data@ }
    }
}

impl PixelBuffer {
    proof fn lemma_view(&self)
        ensures
            self@.width == self.width,
            self@.height == self.height,
            self@.pixels == self.data@,
    {
    }

    fn len_for(width: u32, height: u32) -> (n: usize)
        ensures
            n == buffer_len(width, height),
    {
        match (width as usize).checked_mul(height as usize) {
            Some(n) => if n > MAX_PIXELS { MAX_PIXELS } else { n },
            None => 0,
        }
    }

    /// A transparent buffer of the given size.
    pub fn new(width: u32, height: u32) -> (r: PixelBuffer)
        ensures
            r@ == (BufferModel {
                width,
                height,
                pixels: Seq::new(buffer_len(width, height), |i: int| transparent_color()),
            }),
    {
        let len = Self::len_for(width, height);
        let data = vec![Color::transparent(); len];
        assert(data@ =~= Seq::new(buffer_len(width, height), |i: int| transparent_color()));
        PixelBuffer { width, height, data }
    }

    /// A buffer of the given size with every pixel set to `color`.
    pub fn filled(width: u32, height: u32, color: Color) -> (r: PixelBuffer)
        ensures
            r@ == (BufferModel { width, height, pixels: Seq::new(buffer_len(width, height), |i: int| color) }),
    {
        let len = Self::len_for(width, height);
        let data = vec![color; len];
        assert(data@ =~= Seq::new(buffer_len(width, height), |i: int| color));
        PixelBuffer { width, height, data }
    }

    /// The pixel at `(x, y)`, or `None` outside the buffer.
    pub fn get(&self, x: u32, y: u32) -> (r: Option<Color>)
        requires
            self@.addressable(x, y),
        ensures
            r == (if self@.in_bounds(x, y) {
                Some(self@.at(x, y))
            } else {
                None
            }),
    {
        if x < self.width && y < self.height {
            Some(self.data[self.index(x, y)])
        } else {
            None
        }
    }

    /// Set the pixel at `(x, y)`; outside the buffer nothing changes.
    pub fn set(&mut self, x: u32, y: u32, color: Color)
        requires
            old(self)@.addressable(x, y),
        ensures
            final(self)@ == with_pixel(old(self)@, x, y, color),
    {
        if x < self.width && y < self.height {
            let idx = self.index(x, y);
            self.data.set(idx, color);
        }
    }

    /// The pixels, in row-major order.
    pub fn pixels(&self) -> (r: &[Color])
        ensures
            r@ == self@.pixels,
    {
        self.data.as_slice()
    }

    /// The pixels, in row-major order, to change in place; the size stays.
    pub fn pixels_mut(&mut self) -> (r: &mut [Color])
        ensures
            r@ == old(self)@.pixels,
            final(self)@ == (BufferModel { pixels: final(r)@, ..old(self)@ }),
    {
        self.data.as_mut_slice()
    }

    /// `(width, height)`.
    pub fn dimensions(&self) -> (r: (u32, u32))
        ensures
            r == (self@.width, self@.height),
    {
        (self.width, self.height)
    }

    fn index(&self, x: u32, y: u32) -> (r: usize)
        requires
            x < self.width,
            y < self.height,
            pixel_index(self.width, x, y) < self.data@.len(),
        ensures
            r == pixel_index(self.width, x, y),
    {
        let n = self.data.len();
        assert(y * self.width <= y * self.width + x);
        let row = (y as usize) * (self.width as usize);
        row + (x as usize)
    }
}

impl Clone for PixelBuffer {
    fn clone(&self) -> (r: PixelBuffer)
        ensures
            r@ == self@,
    {
        let mut data: Vec<Color> = Vec::new();
        let mut i: usize = 0;
        while i < self.data.len()
            invariant
                i <= self.data.len(),
                data@ == self.data@.subrange(0, i as int),
            decreases self.data.len() - i,
        {
            data.push(self.data[i]);
            i += 1;
        }
        assert(data@ =~= self.data@);
        PixelBuffer { width: self.width, height: self.height, data }
    }
}

/// Whether `len` bytes are exactly the 8-bit RGBA samples of a `width` by
/// `height` image.
pub fn rgba_len_matches(len: usize, width: u32, height: u32) -> (r: bool)
    ensures
        r == (len == width * height * 4),
{
    match (width as u64).checked_mul(height as u64) {
        Some(n) => match n.checked_mul(4) {
            Some(bytes) => bytes == len as u64,
            None => false,
        },
        None => false,
    }
}

} // verus!
