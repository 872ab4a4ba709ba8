//! Flattening a document: its visible layers composited bottom to top, groups
//! first composited on a canvas of their own. The blending of two pixels is
//! floating-point work handed in by the caller.
use vstd::prelude::*;

use crate::bits::{F32Bits, F32_SIGN};
use crate::color::{BlendMode, Color};
use crate::command::{blank_buffer, pixels_of};
use crate::document::{composite_into, composited, merge_pixels_addressable, Document};
use crate::gpu::CpuBackend;
use crate::layer::{layers_model, lemma_layers_model, Layer, LayerKind, LayerKindModel, LayerModel};
use crate::pixel::{pixel_index, BufferModel, PixelBuffer, MAX_PIXELS};

verus! {

/// Whether the `f32` with these bits compares at most `0.0` (zeros and
/// negative numbers; not NaN).
pub open spec fn f32_at_most_zero(b: F32Bits) -> bool {
    b == 0 || (b >= F32_SIGN && b <= 0xff80_0000u32)
}

/// A layer that contributes nothing: hidden, or with opacity at most zero.
pub open spec fn skipped(l: LayerModel) -> bool {
    !l.visible || f32_at_most_zero(l.opacity)
}

/// The smaller of `a` and `b`.
pub open spec fn smaller(a: u32, b: u32) -> u32 {
    if a < b { a } else { b }
}

/// Compositing `src` onto `dst` over the smaller of their sizes gives `out`.
pub open spec fn drawn_over<F: Fn(Color, Color, BlendMode, F32Bits) -> Color>(
    dst: BufferModel,
    src: BufferModel,
    mode: BlendMode,
    opacity: F32Bits,
    blend: F,
    out: BufferModel,
) -> bool {
    composited(dst, src, smaller(dst.width, src.width), smaller(dst.height, src.height), mode, opacity, blend, out)
}

/// `a` and `b` have the same width, height and number of pixels.
pub open spec fn same_shape(a: BufferModel, b: BufferModel) -> bool {
    a.width == b.width && a.height == b.height && a.pixels.len() == b.pixels.len()
}

/// Drawing the layer `l` onto `before` gives `after`: a skipped layer changes
/// nothing; a group draws its children on a transparent `w` by `h` canvas
/// and composites that; another layer composites its pixels, if it has any.
pub open spec fn layer_drawn<F: Fn(Color, Color, BlendMode, F32Bits) -> Color>(
    before: BufferModel,
    l: LayerModel,
    pixels: Seq<(u128, BufferModel)>,
    w: u32,
    h: u32,
    blend: F,
    after: BufferModel,
) -> bool
    decreases l,
{
    if skipped(l) {
        after == before
    } else {
        match l.kind {
            LayerKindModel::Group { children } => exists|g: BufferModel|
                #![trigger drawn_over(before, g, l.blend_mode, l.opacity, blend, after)]
                layers_drawn(blank_buffer(w, h), children, pixels, w, h, blend, g) && drawn_over(
                    before,
                    g,
                    l.blend_mode,
                    l.opacity,
                    blend,
                    after,
                ),
            _ => match pixels_of(pixels, l.id) {
                Some(b) => drawn_over(before, b, l.blend_mode, l.opacity, blend, after),
                None => after == before,
            },
        }
    }
}

/// Drawing the layers `s` in turn, bottom first, onto `before` gives `after`.
pub open spec fn layers_drawn<F: Fn(Color, Color, BlendMode, F32Bits) -> Color>(
    before: BufferModel,
    s: Seq<LayerModel>,
    pixels: Seq<(u128, BufferModel)>,
    w: u32,
    h: u32,
    blend: F,
    after: BufferModel,
) -> bool
    decreases s,
{
    if s.len() == 0 {
        after == before
    } else {
        exists|mid: BufferModel|
            #![trigger same_shape(mid, after)]
            same_shape(mid, after) && layers_drawn(before, s.drop_last(), pixels, w, h, blend, mid) && layer_drawn(
                mid,
                s.last(),
                pixels,
                w,
                h,
                blend,
                after,
            )
    }
}

/// The pixels of `b` hold every position of their overlap with a `w` by `h`
/// canvas.
pub open spec fn overlap_readable_model(b: BufferModel, w: u32, h: u32) -> bool {
    let cw = smaller(w, b.width);
    let ch = smaller(h, b.height);
    cw == 0 || ch == 0 || pixel_index(b.width, (cw - 1) as u32, (ch - 1) as u32) < b.pixels.len()
}

/// The pixels that drawing `l` reads exist: for a layer that is drawn, its
/// pixels hold every position of their overlap with a `w` by `h` canvas.
pub open spec fn layer_readable(l: LayerModel, pixels: Seq<(u128, BufferModel)>, w: u32, h: u32) -> bool
    decreases l,
{
    if skipped(l) {
        true
    } else {
        match l.kind {
            LayerKindModel::Group { children } => layers_readable(children, pixels, w, h),
            _ => match pixels_of(pixels, l.id) {
                Some(b) => overlap_readable_model(b, w, h),
                None => true,
            },
        }
    }
}

/// The pixels that drawing the layers `s` reads exist.
pub open spec fn layers_readable(s: Seq<LayerModel>, pixels: Seq<(u128, BufferModel)>, w: u32, h: u32) -> bool
    decreases s,
{
    if s.len() == 0 {
        true
    } else {
        layers_readable(s.drop_last(), pixels, w, h) && layer_readable(s.last(), pixels, w, h)
    }
}

/// Compositing the pixels of the layer `l` itself onto `before` gives
/// `after`: a skipped layer, or one without pixels, changes nothing.
pub open spec fn own_pixels_drawn<F: Fn(Color, Color, BlendMode, F32Bits) -> Color>(
    before: BufferModel,
    l: LayerModel,
    pixels: Seq<(u128, BufferModel)>,
    blend: F,
    after: BufferModel,
) -> bool {
    if skipped(l) {
        after == before
    } else {
        match pixels_of(pixels, l.id) {
            Some(b) => drawn_over(before, b, l.blend_mode, l.opacity, blend, after),
            None => after == before,
        }
    }
}

/// Compositing the own pixels of the layers `s` in turn, bottom first, onto
/// `before` gives `after`; the children of groups are not visited.
pub open spec fn flat_drawn<F: Fn(Color, Color, BlendMode, F32Bits) -> Color>(
    before: BufferModel,
    s: Seq<LayerModel>,
    pixels: Seq<(u128, BufferModel)>,
    blend: F,
    after: BufferModel,
) -> bool
    decreases s.len(),
{
    if s.len() == 0 {
        after == before
    } else {
        exists|mid: BufferModel|
            #![trigger same_shape(mid, after)]
            same_shape(mid, after) && flat_drawn(before, s.drop_last(), pixels, blend, mid) && own_pixels_drawn(
                mid,
                s.last(),
                pixels,
                blend,
                after,
            )
    }
}

/// Every pixel that compositing the own pixels of the layers `s` onto a `w`
/// by `h` canvas reads exists.
pub open spec fn flat_readable(s: Seq<LayerModel>, pixels: Seq<(u128, BufferModel)>, w: u32, h: u32) -> bool {
    forall|i: int|
        0 <= i < s.len() && !skipped(s[i]) ==> match pixels_of(pixels, #[trigger] s[i].id) {
            Some(b) => overlap_readable_model(b, w, h),
            None => true,
        }
}

/// `b` is a full `w` by `h` canvas.
pub open spec fn full_canvas(b: BufferModel, w: u32, h: u32) -> bool {
    b.width == w && b.height == h && b.pixels.len() == w * h
}

pub(crate) proof fn lemma_canvas_addressable(w: u32, h: u32, x: u32, y: u32)
    requires
        x < w,
        y < h,
    ensures
        pixel_index(w, x, y) < w * h,
{
    assert(y * w + x < w * h) by (nonlinear_arith)
        requires
            x < w,
            y < h,
    ;
}

proof fn lemma_one_more_drawn<F: Fn(Color, Color, BlendMode, F32Bits) -> Color>(
    before: BufferModel,
    s: Seq<LayerModel>,
    pixels: Seq<(u128, BufferModel)>,
    w: u32,
    h: u32,
    blend: F,
    mid: BufferModel,
    after: BufferModel,
)
    requires
        s.len() > 0,
        layers_drawn(before, s.drop_last(), pixels, w, h, blend, mid),
        layer_drawn(mid, s.last(), pixels, w, h, blend, after),
    ensures
        layers_drawn(before, s, pixels, w, h, blend, after),
{
    assert(same_shape(mid, after));
}

proof fn lemma_index_within(width: u32, cw: u32, ch: u32, x: u32, y: u32)
    requires
        x < cw,
        y < ch,
        cw <= width,
    ensures
        pixel_index(width, x, y) <= pixel_index(width, (cw - 1) as u32, (ch - 1) as u32),
{
    assert(y * width + x <= (ch - 1) * width + (cw - 1)) by (nonlinear_arith)
        requires
            x < cw,
            y < ch,
            cw <= width,
    ;
}

proof fn lemma_overlap_addressable(dst: BufferModel, b: BufferModel, w: u32, h: u32)
    requires
        full_canvas(dst, w, h),
        overlap_readable_model(b, w, h),
    ensures
        merge_pixels_addressable(dst, b, smaller(w, b.width), smaller(h, b.height)),
{
    assert forall|x: u32, y: u32| x < smaller(w, b.width) && y < smaller(h, b.height) implies {
        &&& #[trigger] dst.in_bounds(x, y)
        &&& dst.addressable(x, y)
        &&& b.addressable(x, y)
    } by {
        lemma_canvas_addressable(w, h, x, y);
        lemma_index_within(b.width, smaller(w, b.width), smaller(h, b.height), x, y);
    }
}

proof fn lemma_one_more_flat<F: Fn(Color, Color, BlendMode, F32Bits) -> Color>(
    before: BufferModel,
    s: Seq<LayerModel>,
    pixels: Seq<(u128, BufferModel)>,
    blend: F,
    mid: BufferModel,
    after: BufferModel,
)
    requires
        s.len() > 0,
        flat_drawn(before, s.drop_last(), pixels, blend, mid),
        own_pixels_drawn(mid, s.last(), pixels, blend, after),
    ensures
        flat_drawn(before, s, pixels, blend, after),
{
    assert(same_shape(mid, after));
}

proof fn lemma_blank_canvas(w: u32, h: u32)
    requires
        w * h <= MAX_PIXELS,
    ensures
        full_canvas(blank_buffer(w, h), w, h),
{
}

fn f32_bits_at_most_zero(b: F32Bits) -> (r: bool)
    ensures
        r == f32_at_most_zero(b),
{
    b == 0 || (b >= F32_SIGN && b <= 0xff80_0000u32)
}

proof fn lemma_layers_readable_prefix(s: Seq<LayerModel>, pixels: Seq<(u128, BufferModel)>, w: u32, h: u32, i: int)
    requires
        layers_readable(s, pixels, w, h),
        0 <= i < s.len(),
    ensures
        layers_readable(s.subrange(0, i + 1), pixels, w, h),
        layer_readable(s[i], pixels, w, h),
    decreases s.len(),
{
    if i + 1 == s.len() {
        assert(s.subrange(0, i + 1) =~= s);
    } else {
        assert(s.drop_last().subrange(0, i + 1) =~= s.subrange(0, i + 1));
        lemma_layers_readable_prefix(s.drop_last(), pixels, w, h, i);
    }
}

proof fn lemma_readable_prefix_needed(s: Seq<LayerModel>, pixels: Seq<(u128, BufferModel)>, w: u32, h: u32, i: int)
    requires
        0 <= i < s.len(),
        !layers_readable(s.subrange(0, i + 1), pixels, w, h),
    ensures
        !layers_readable(s, pixels, w, h),
{
    if layers_readable(s, pixels, w, h) {
        lemma_layers_readable_prefix(s, pixels, w, h, i);
    }
}

/// Composite `src` onto `dst` over the smaller of their two sizes: each
/// pixel there becomes a result of `blend` on the `dst` pixel, the `src`
/// pixel, `mode` and `opacity`; the rest of `dst` is unchanged.
pub fn composite_layer<F: Fn(Color, Color, BlendMode, F32Bits) -> Color>(
    dst: &mut PixelBuffer,
    src: &PixelBuffer,
    mode: BlendMode,
    opacity: F32Bits,
    blend: &F,
)
    requires
        forall|a: Color, b: Color, m: BlendMode, o: F32Bits| call_requires(*blend, (a, b, m, o)),
        merge_pixels_addressable(
            old(dst)@,
            src@,
            smaller(old(dst)@.width, src@.width),
            smaller(old(dst)@.height, src@.height),
        ),
    ensures
        drawn_over(old(dst)@, src@, mode, opacity, *blend, final(dst)@),
{
    let (dw, dh) = dst.dimensions();
    let (sw, sh) = src.dimensions();
    let w = if dw < sw { dw } else { sw };
    let h = if dh < sh { dh } else { sh };
    composite_into(dst, src, w, h, mode, opacity, blend);
}

/// Draw one layer onto `dst`, a full `w` by `h` canvas.
fn draw_layer<F: Fn(Color, Color, BlendMode, F32Bits) -> Color>(
    dst: &mut PixelBuffer,
    l: &Layer,
    doc: &Document,
    w: u32,
    h: u32,
    blend: &F,
)
    requires
        forall|a: Color, b: Color, m: BlendMode, o: F32Bits| call_requires(*blend, (a, b, m, o)),
        full_canvas(old(dst)@, w, h),
        w * h <= MAX_PIXELS,
        layer_readable(l@, doc@.pixels, w, h),
    ensures
        full_canvas(final(dst)@, w, h),
        layer_drawn(old(dst)@, l@, doc@.pixels, w, h, *blend, final(dst)@),
    decreases l,
{
    if !l.visible || f32_bits_at_most_zero(l.opacity) {
        return;
    }
    match &l.kind {
        LayerKind::Group { children } => {
            let mut g = PixelBuffer::new(w, h);
            proof {
                lemma_blank_canvas(w, h);
                lemma_layers_model(children@);
            }
            draw_layers(&mut g, children, doc, w, h, blend);
            proof {
                assert forall|x: u32, y: u32| x < w && y < h implies {
                    &&& #[trigger] old(dst)@.in_bounds(x, y)
                    &&& old(dst)@.addressable(x, y)
                    &&& g@.addressable(x, y)
                } by {
                    lemma_canvas_addressable(w, h, x, y);
                }
            }
            let ghost gm = g@;
            composite_layer(dst, &g, l.blend_mode, l.opacity, blend);
            assert(drawn_over(old(dst)@, gm, l.blend_mode, l.opacity, *blend, dst@));
        },
        _ => {
            match doc.get_pixels(l.id) {
                Some(b) => {
                    proof {
                        lemma_overlap_addressable(dst@, b@, w, h);
                    }
                    composite_layer(dst, b, l.blend_mode, l.opacity, blend);
                },
                None => {},
            }
        },
    }
}

/// Draw the layers of `s` in turn onto `dst`, a full `w` by `h` canvas.
fn draw_layers<F: Fn(Color, Color, BlendMode, F32Bits) -> Color>(
    dst: &mut PixelBuffer,
    s: &Vec<Layer>,
    doc: &Document,
    w: u32,
    h: u32,
    blend: &F,
)
    requires
        forall|a: Color, b: Color, m: BlendMode, o: F32Bits| call_requires(*blend, (a, b, m, o)),
        full_canvas(old(dst)@, w, h),
        w * h <= MAX_PIXELS,
        layers_readable(layers_model(s@), doc@.pixels, w, h),
    ensures
        full_canvas(final(dst)@, w, h),
        layers_drawn(old(dst)@, layers_model(s@), doc@.pixels, w, h, *blend, final(dst)@),
    decreases s,
{
    let ghost m = layers_model(s@);
    let ghost d0 = dst@;
    proof {
        lemma_layers_model(s@);
        assert(m.subrange(0, 0) =~= seq![]);
    }
    let mut i: usize = 0;
    while i < s.len()
        invariant
            i <= s@.len(),
            m == layers_model(s@),
            m.len() == s@.len(),
            forall|k: int| 0 <= k < s@.len() ==> #[trigger] m[k] == s@[k]@,
            forall|a: Color, b: Color, mm: BlendMode, o: F32Bits| call_requires(*blend, (a, b, mm, o)),
            full_canvas(dst@, w, h),
            w * h <= MAX_PIXELS,
            layers_readable(m, doc@.pixels, w, h),
            layers_drawn(d0, m.subrange(0, i as int), doc@.pixels, w, h, *blend, dst@),
        decreases s.len() - i,
    {
        let ghost mid = dst@;
        proof {
            lemma_layers_readable_prefix(m, doc@.pixels, w, h, i as int);
            assert(decreases_to!(s => s@));
            assert(decreases_to!(s@ => s@[i as int]));
        }
        draw_layer(dst, &s[i], doc, w, h, blend);
        proof {
            let t = m.subrange(0, i + 1);
            assert(t.drop_last() =~= m.subrange(0, i as int));
            assert(t.last() == s@[i as int]@);
            lemma_one_more_drawn(d0, t, doc@.pixels, w, h, *blend, mid, dst@);
        }
        i += 1;
    }
    assert(m.subrange(0, i as int) =~= m);
}

/// Whether the pixels of `b` hold every position of their overlap with a
/// `w` by `h` canvas.
fn overlap_readable(b: &PixelBuffer, w: u32, h: u32) -> (r: bool)
    ensures
        r == overlap_readable_model(b@, w, h),
{
    let (bw, bh) = b.dimensions();
    let cw = if w < bw { w } else { bw };
    let ch = if h < bh { h } else { bh };
    assert(cw == smaller(w, b@.width) && ch == smaller(h, b@.height));
    if cw == 0 || ch == 0 {
        return true;
    }
    let row: u64 = (ch - 1) as u64;
    assert(row * (bw as u64) <= 0xffff_fffe_0000_0001) by (nonlinear_arith)
        requires
            row < 0x1_0000_0000,
            bw < 0x1_0000_0000,
    ;
    let last: u64 = row * (bw as u64) + (cw - 1) as u64;
    last < b.pixels().len() as u64
}

/// Whether the pixels that drawing `l` reads exist.
fn layer_is_readable(l: &Layer, doc: &Document, w: u32, h: u32) -> (r: bool)
    ensures
        r == layer_readable(l@, doc@.pixels, w, h),
    decreases l,
{
    if !l.visible || f32_bits_at_most_zero(l.opacity) {
        return true;
    }
    match &l.kind {
        LayerKind::Group { children } => {
            proof {
                lemma_layers_model(children@);
            }
            layers_are_readable(children, doc, w, h)
        },
        _ => match doc.get_pixels(l.id) {
            Some(b) => overlap_readable(b, w, h),
            None => true,
        },
    }
}

/// Whether the pixels that drawing the layers of `s` reads exist.
fn layers_are_readable(s: &Vec<Layer>, doc: &Document, w: u32, h: u32) -> (r: bool)
    ensures
        r == layers_readable(layers_model(s@), doc@.pixels, w, h),
    decreases s,
{
    let ghost m = layers_model(s@);
    proof {
        lemma_layers_model(s@);
        assert(m.subrange(0, 0) =~= seq![]);
    }
    let mut i: usize = 0;
    while i < s.len()
        invariant
            i <= s@.len(),
            m == layers_model(s@),
            m.len() == s@.len(),
            forall|k: int| 0 <= k < s@.len() ==> #[trigger] m[k] == s@[k]@,
            layers_readable(m.subrange(0, i as int), doc@.pixels, w, h),
        decreases s.len() - i,
    {
        proof {
            assert(decreases_to!(s => s@));
            assert(decreases_to!(s@ => s@[i as int]));
        }
        let ok = layer_is_readable(&s[i], doc, w, h);
        proof {
            let t = m.subrange(0, i + 1);
            assert(t.drop_last() =~= m.subrange(0, i as int));
            assert(t.last() == s@[i as int]@);
        }
        if !ok {
            proof {
                lemma_readable_prefix_needed(m, doc@.pixels, w, h, i as int);
            }
            return false;
        }
        i += 1;
    }
    assert(m.subrange(0, i as int) =~= m);
    true
}

/// Whether `composite` can flatten `doc`: its canvas is within the pixel
/// limit and every pixel that compositing reads exists.
pub fn can_composite(doc: &Document) -> (r: bool)
    ensures
        r == (doc@.size.width * doc@.size.height <= MAX_PIXELS && layers_readable(
            doc@.layers,
            doc@.pixels,
            doc@.size.width,
            doc@.size.height,
        )),
{
    proof {
        doc.lemma_view();
    }
    let w = doc.size.width;
    let h = doc.size.height;
    assert((w as u64) * (h as u64) <= 0xffff_fffe_0000_0001) by (nonlinear_arith)
        requires
            w < 0x1_0000_0000,
            h < 0x1_0000_0000,
    ;
    if (w as u64) * (h as u64) > MAX_PIXELS as u64 {
        return false;
    }
    layers_are_readable(&doc.layers, doc, w, h)
}

/// The document's visible layers composited, bottom first, onto a
/// transparent canvas of the document's size; `blend` gives each pixel from
/// the pixel below, the pixel above, and the upper layer's mode and opacity.
pub fn composite<F: Fn(Color, Color, BlendMode, F32Bits) -> Color>(doc: &Document, blend: &F) -> (r: PixelBuffer)
    requires
        forall|a: Color, b: Color, m: BlendMode, o: F32Bits| call_requires(*blend, (a, b, m, o)),
        doc@.size.width * doc@.size.height <= MAX_PIXELS,
        layers_readable(doc@.layers, doc@.pixels, doc@.size.width, doc@.size.height),
    ensures
        layers_drawn(
            blank_buffer(doc@.size.width, doc@.size.height),
            doc@.layers,
            doc@.pixels,
            doc@.size.width,
            doc@.size.height,
            *blend,
            r@,
        ),
{
    proof {
        doc.lemma_view();
    }
    let w = doc.size.width;
    let h = doc.size.height;
    let mut out = PixelBuffer::new(w, h);
    proof {
        lemma_blank_canvas(w, h);
        assert(out@ == blank_buffer(w, h));
    }
    draw_layers(&mut out, &doc.layers, doc, w, h, blend);
    out
}

/// The own pixels of the document's visible top-level layers composited
/// with `backend`, bottom first, onto a transparent canvas of the document's
/// size; groups have no pixels of their own and draw nothing here.
pub fn composite_with_backend<F: Fn(Color, Color, BlendMode, F32Bits) -> Color>(
    doc: &Document,
    backend: &CpuBackend,
    blend: &F,
) -> (r: PixelBuffer)
    requires
        forall|a: Color, b: Color, m: BlendMode, o: F32Bits| call_requires(*blend, (a, b, m, o)),
        doc@.size.width * doc@.size.height <= MAX_PIXELS,
        flat_readable(doc@.layers, doc@.pixels, doc@.size.width, doc@.size.height),
    ensures
        flat_drawn(blank_buffer(doc@.size.width, doc@.size.height), doc@.layers, doc@.pixels, *blend, r@),
{
    proof {
        doc.lemma_view();
    }
    let w = doc.size.width;
    let h = doc.size.height;
    let mut out = PixelBuffer::new(w, h);
    let ghost m = doc@.layers;
    let ghost d0 = out@;
    proof {
        lemma_blank_canvas(w, h);
        assert(m.subrange(0, 0) =~= seq![]);
    }
    let mut i: usize = 0;
    while i < doc.layers.len()
        invariant
            i <= doc.layers@.len(),
            m == doc@.layers,
            m.len() == doc.layers@.len(),
            forall|k: int| 0 <= k < doc.layers@.len() ==> #[trigger] m[k] == doc.layers@[k]@,
            forall|a: Color, b: Color, mm: BlendMode, o: F32Bits| call_requires(*blend, (a, b, mm, o)),
            full_canvas(out@, w, h),
            w == doc@.size.width,
            h == doc@.size.height,
            w * h <= MAX_PIXELS,
            d0 == blank_buffer(w, h),
            flat_readable(m, doc@.pixels, w, h),
            flat_drawn(d0, m.subrange(0, i as int), doc@.pixels, *blend, out@),
        decreases doc.layers.len() - i,
    {
        let ghost mid = out@;
        let layer = &doc.layers[i];
        if layer.visible && !f32_bits_at_most_zero(layer.opacity) {
            match doc.get_pixels(layer.id) {
                Some(b) => {
                    assert(!skipped(m[i as int]));
                    assert(pixels_of(doc@.pixels, m[i as int].id) == Some(b@));
                    proof {
                        lemma_overlap_addressable(out@, b@, w, h);
                    }
                    backend.composite(&mut out, b, layer.blend_mode, layer.opacity, blend);
                },
                None => {},
            }
        }
        proof {
            let t = m.subrange(0, i + 1);
            assert(t.drop_last() =~= m.subrange(0, i as int));
            assert(t.last() == m[i as int]);
            lemma_one_more_flat(d0, t, doc@.pixels, *blend, mid, out@);
        }
        i += 1;
    }
    assert(m.subrange(0, i as int) =~= m);
    out
}

/// Drawing a group that is shown composites the canvas its children are
/// drawn on with the group's own blend mode and the group's own opacity:
/// every pixel where that canvas meets the pixels below is a result of
/// `blend` on the pixel below, the canvas pixel, the group's blend mode and
/// its opacity, and every other pixel is left as it was.
pub proof fn law_group_drawn_with_its_own_opacity<F: Fn(Color, Color, BlendMode, F32Bits) -> Color>(
    before: BufferModel,
    l: LayerModel,
    children: Seq<LayerModel>,
    pixels: Seq<(u128, BufferModel)>,
    w: u32,
    h: u32,
    blend: F,
    after: BufferModel,
)
    requires
        !skipped(l),
        l.kind == (LayerKindModel::Group { children }),
        layer_drawn(before, l, pixels, w, h, blend, after),
    ensures
        exists|g: BufferModel| #![trigger layers_drawn(blank_buffer(w, h), children, pixels, w, h, blend, g)]
            {
                &&& layers_drawn(blank_buffer(w, h), children, pixels, w, h, blend, g)
                &&& forall|x: u32, y: u32|
                    x < smaller(before.width, g.width) && y < smaller(before.height, g.height) ==> call_ensures(
                        blend,
                        (before.at(x, y), g.at(x, y), l.blend_mode, l.opacity),
                        #[trigger] after.at(x, y),
                    )
                &&& forall|x: u32, y: u32|
                    before.in_bounds(x, y) && pixel_index(before.width, x, y) < before.pixels.len() && !(x < smaller(
                        before.width,
                        g.width,
                    ) && y < smaller(before.height, g.height)) ==> #[trigger] after.at(x, y) == before.at(x, y)
            },
{
    let g = choose|g: BufferModel|
        #![trigger drawn_over(before, g, l.blend_mode, l.opacity, blend, after)]
        layers_drawn(blank_buffer(w, h), children, pixels, w, h, blend, g) && drawn_over(
            before,
            g,
            l.blend_mode,
            l.opacity,
            blend,
            after,
        );
    assert(layers_drawn(blank_buffer(w, h), children, pixels, w, h, blend, g));
}

/// Drawing a shown layer that is no group and has pixels `b` composites
/// them with the layer's own blend mode and opacity: every pixel where `b`
/// meets the pixels below is a result of `blend` on the pixel below, the
/// layer's pixel, its blend mode and its opacity; every other pixel stays.
pub proof fn law_layer_drawn_with_its_own_opacity<F: Fn(Color, Color, BlendMode, F32Bits) -> Color>(
    before: BufferModel,
    l: LayerModel,
    b: BufferModel,
    pixels: Seq<(u128, BufferModel)>,
    w: u32,
    h: u32,
    blend: F,
    after: BufferModel,
)
    requires
        !skipped(l),
        !(l.kind is Group),
        pixels_of(pixels, l.id) == Some(b),
        layer_drawn(before, l, pixels, w, h, blend, after),
    ensures
        forall|x: u32, y: u32|
            x < smaller(before.width, b.width) && y < smaller(before.height, b.height) ==> call_ensures(
                blend,
                (before.at(x, y), b.at(x, y), l.blend_mode, l.opacity),
                #[trigger] after.at(x, y),
            ),
        forall|x: u32, y: u32|
            before.in_bounds(x, y) && pixel_index(before.width, x, y) < before.pixels.len() && !(x < smaller(
                before.width,
                b.width,
            ) && y < smaller(before.height, b.height)) ==> #[trigger] after.at(x, y) == before.at(x, y),
{
}

/// Layers that are all hidden, or all at opacity zero or below, draw
/// nothing: compositing them leaves the canvas as it was.
pub proof fn law_skipped_layers_draw_nothing<F: Fn(Color, Color, BlendMode, F32Bits) -> Color>(
    before: BufferModel,
    s: Seq<LayerModel>,
    pixels: Seq<(u128, BufferModel)>,
    w: u32,
    h: u32,
    blend: F,
    after: BufferModel,
)
    requires
        forall|i: int| 0 <= i < s.len() ==> skipped(#[trigger] s[i]),
        layers_drawn(before, s, pixels, w, h, blend, after),
    ensures
        after == before,
    decreases s.len(),
{
    if s.len() > 0 {
        let mid = choose|mid: BufferModel|
            #![trigger same_shape(mid, after)]
            same_shape(mid, after) && layers_drawn(before, s.drop_last(), pixels, w, h, blend, mid) && layer_drawn(
                mid,
                s.last(),
                pixels,
                w,
                h,
                blend,
                after,
            );
        assert(skipped(s[s.len() - 1]));
        assert forall|i: int| 0 <= i < s.drop_last().len() implies skipped(#[trigger] s.drop_last()[i]) by {
            assert(s.drop_last()[i] == s[i]);
        }
        law_skipped_layers_draw_nothing(before, s.drop_last(), pixels, w, h, blend, mid);
    }
}

/// A hidden layer, or one at opacity zero or below, is ignored: drawing the
/// layers `s` gives exactly the canvases that drawing them without that
/// layer gives.
pub proof fn law_skipped_layer_is_ignored<F: Fn(Color, Color, BlendMode, F32Bits) -> Color>(
    before: BufferModel,
    s: Seq<LayerModel>,
    i: int,
    pixels: Seq<(u128, BufferModel)>,
    w: u32,
    h: u32,
    blend: F,
    after: BufferModel,
)
    requires
        0 <= i < s.len(),
        skipped(s[i]),
    ensures
        layers_drawn(before, s, pixels, w, h, blend, after) == layers_drawn(before, s.remove(i), pixels, w, h, blend, after),
    decreases s.len(),
{
    let t = s.drop_last();
    if i == s.len() - 1 {
        assert(s.remove(i) =~= t);
        if layers_drawn(before, s, pixels, w, h, blend, after) {
            let mid = choose|mid: BufferModel|
                #![trigger same_shape(mid, after)]
                same_shape(mid, after) && layers_drawn(before, t, pixels, w, h, blend, mid) && layer_drawn(
                    mid,
                    s.last(),
                    pixels,
                    w,
                    h,
                    blend,
                    after,
                );
            assert(mid == after);
        }
        if layers_drawn(before, t, pixels, w, h, blend, after) {
            assert(layer_drawn(after, s.last(), pixels, w, h, blend, after));
            lemma_one_more_drawn(before, s, pixels, w, h, blend, after, after);
        }
    } else {
        let r = s.remove(i);
        assert(r.drop_last() =~= t.remove(i));
        assert(r.last() == s.last());
        assert(t[i] == s[i]);
        law_skipped_layer_is_ignored(before, t, i, pixels, w, h, blend, after);
        if layers_drawn(before, s, pixels, w, h, blend, after) {
            let mid = choose|mid: BufferModel|
                #![trigger same_shape(mid, after)]
                same_shape(mid, after) && layers_drawn(before, t, pixels, w, h, blend, mid) && layer_drawn(
                    mid,
                    s.last(),
                    pixels,
                    w,
                    h,
                    blend,
                    after,
                );
            law_skipped_layer_is_ignored(before, t, i, pixels, w, h, blend, mid);
            lemma_one_more_drawn(before, r, pixels, w, h, blend, mid, after);
        }
        if layers_drawn(before, r, pixels, w, h, blend, after) {
            let mid = choose|mid: BufferModel|
                #![trigger same_shape(mid, after)]
                same_shape(mid, after) && layers_drawn(before, r.drop_last(), pixels, w, h, blend, mid) && layer_drawn(
                    mid,
                    r.last(),
                    pixels,
                    w,
                    h,
                    blend,
                    after,
                );
            law_skipped_layer_is_ignored(before, t, i, pixels, w, h, blend, mid);
            lemma_one_more_drawn(before, s, pixels, w, h, blend, mid, after);
        }
    }
}

} // verus!
