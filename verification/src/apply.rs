//! Putting the results of AI operations into a document.
use vstd::prelude::*;

use crate::bits::F32Bits;
use crate::command::{entry_index, with_blank_for, CommandModel};
use crate::document::{Document, DocumentModel};
use crate::error::RasaError;
use crate::layer::{fresh_layer_model, Layer, LayerKindModel};
use crate::pixel::{pixel_index, BufferModel, PixelBuffer};

verus! {

/// The output of an AI operation.
#[derive(Debug)]
pub enum AiResult {
    /// Pixels (inpainting, upscaling, generation, background removal).
    Image(PixelBuffer),
    /// A segmentation mask: one `f32` bit pattern per pixel, 0.0 for
    /// background and 1.0 for foreground.
    Mask { width: u32, height: u32, data: Vec<F32Bits> },
}

/// `out` is `dst` with each pixel `(x, y)` for `x < w`, `y < h` that `dst`
/// holds replaced by the pixel of `src` there; every other pixel is kept.
pub open spec fn copied(dst: BufferModel, src: BufferModel, w: u32, h: u32, out: BufferModel) -> bool {
    &&& out.width == dst.width
    &&& out.height == dst.height
    &&& out.pixels.len() == dst.pixels.len()
    &&& forall|x: u32, y: u32| #![trigger out.at(x, y)]
        dst.in_bounds(x, y) && pixel_index(dst.width, x, y) < dst.pixels.len() ==> out.at(x, y) == if x < w && y < h {
            src.at(x, y)
        } else {
            dst.at(x, y)
        }
}

/// Every pixel `(x, y)` with `x < w`, `y < h` lies inside `b` and is held by it.
pub open spec fn holds_region(b: BufferModel, w: u32, h: u32) -> bool {
    forall|x: u32, y: u32| x < w && y < h ==> #[trigger] b.in_bounds(x, y) && pixel_index(b.width, x, y) < b.pixels.len()
}

/// Copy the pixels `(x, y)` with `x < w`, `y < h` of `src` onto `dst`,
/// where `dst` holds them.
fn copy_region(dst: &mut PixelBuffer, src: &PixelBuffer, w: u32, h: u32)
    requires
        holds_region(src@, w, h),
    ensures
        copied(old(dst)@, src@, w, h, final(dst)@),
{
    let ghost d0 = dst@;
    let (dw, dh) = dst.dimensions();
    let n = dst.pixels().len();
    let mut y: u32 = 0;
    while y < h
        invariant
            y <= h,
            holds_region(src@, w, h),
            dw == d0.width,
            dh == d0.height,
            n == d0.pixels.len(),
            dst@.width == d0.width,
            dst@.height == d0.height,
            dst@.pixels.len() == d0.pixels.len(),
            forall|x: u32, yy: u32| #![trigger dst@.at(x, yy)]
                d0.in_bounds(x, yy) && pixel_index(d0.width, x, yy) < d0.pixels.len() ==> dst@.at(x, yy) == if x < w
                    && yy < y {
                    src@.at(x, yy)
                } else {
                    d0.at(x, yy)
                },
        decreases h - y,
    {
        let mut x: u32 = 0;
        while x < w
            invariant
                x <= w,
                y < h,
                holds_region(src@, w, h),
                dw == d0.width,
                dh == d0.height,
                n == d0.pixels.len(),
                dst@.width == d0.width,
                dst@.height == d0.height,
                dst@.pixels.len() == d0.pixels.len(),
                forall|xx: u32, yy: u32| #![trigger dst@.at(xx, yy)]
                    d0.in_bounds(xx, yy) && pixel_index(d0.width, xx, yy) < d0.pixels.len() ==> dst@.at(xx, yy) == if (
                    xx < w && yy < y) || (xx < x && yy == y) {
                        src@.at(xx, yy)
                    } else {
                        d0.at(xx, yy)
                    },
            decreases w - x,
        {
            assert(src@.in_bounds(x, y));
            let px = src.get(x, y);
            assert((y as int) * (dw as int) <= 0xffff_ffffint * 0xffff_ffffint) by (nonlinear_arith)
                requires
                    0 <= y <= 0xffff_ffffint,
                    0 <= dw <= 0xffff_ffffint,
            ;
            if x < dw && y < dh && (y as u64) * (dw as u64) + (x as u64) < n as u64 {
                let ghost before = dst@;
                let c = px.unwrap();
                dst.set(x, y, c);
                assert forall|xx: u32, yy: u32| #![trigger dst@.at(xx, yy)]
                    d0.in_bounds(xx, yy) && pixel_index(d0.width, xx, yy) < d0.pixels.len() implies dst@.at(xx, yy)
                    == if (xx < w && yy < y) || (xx < x + 1 && yy == y) {
                    src@.at(xx, yy)
                } else {
                    d0.at(xx, yy)
                } by {
                    if xx != x || yy != y {
                        crate::document::lemma_pixel_index_injective(d0.width, xx, yy, x, y);
                        assert(dst@.at(xx, yy) == before.at(xx, yy));
                    }
                }
            } else {
                assert forall|xx: u32, yy: u32| #![trigger dst@.at(xx, yy)]
                    d0.in_bounds(xx, yy) && pixel_index(d0.width, xx, yy) < d0.pixels.len() implies dst@.at(xx, yy)
                    == if (xx < w && yy < y) || (xx < x + 1 && yy == y) {
                    src@.at(xx, yy)
                } else {
                    d0.at(xx, yy)
                } by {
                    if xx == x && yy == y {
                        assert(false);
                    }
                }
            }
            x += 1;
        }
        y += 1;
    }
}

/// The document after `apply_as_new_layer` added the layer `l` and copied
/// `src` onto the first pixel entry of its identifier.
pub open spec fn applied_as_new_layer(old: DocumentModel, l: crate::layer::LayerModel, src: BufferModel, new: DocumentModel) -> bool {
    let p = with_blank_for(old.pixels, l);
    let j = entry_index(p, l.id)->0;
    &&& new.layers == old.layers.push(l)
    &&& new.active_layer == Some(l.id)
    &&& new.history == crate::document::recorded(old.history, CommandModel::AddLayer { layer: l, index: old.layers.len() as usize })
    &&& new.id == old.id && new.name == old.name && new.size == old.size && new.dpi == old.dpi
    &&& new.pixels.len() == p.len()
    &&& forall|k: int| 0 <= k < p.len() && k != j ==> #[trigger] new.pixels[k] == p[k]
    &&& new.pixels[j].0 == l.id
    &&& copied(p[j].1, src, src.width, src.height, new.pixels[j].1)
}

/// Add an AI image result to the document as a new raster layer named
/// `name`, of the result's size. A mask cannot be added this way.
pub fn apply_as_new_layer(doc: &mut Document, result: &AiResult, name: &str) -> (r: Result<u128, RasaError>)
    requires
        result matches AiResult::Image(b) ==> holds_region(b@, b@.width, b@.height),
    ensures
        result is Mask ==> (r matches Err(RasaError::Other(m)) && m@ == "cannot apply mask result as a layer directly"@)
            && final(doc)@ == old(doc)@,
        result matches AiResult::Image(b) ==> (r matches Ok(id) && applied_as_new_layer(
            old(doc)@,
            fresh_layer_model(id, name@, b@.width, b@.height, LayerKindModel::Raster { width: b@.width, height: b@.height }),
            b@,
            final(doc)@,
        )),
{
    match result {
        AiResult::Mask { .. } => Err(RasaError::Other("cannot apply mask result as a layer directly".to_owned())),
        AiResult::Image(buf) => {
            let (w, h) = buf.dimensions();
            let layer = Layer::new_raster(name, w, h);
            let layer_id = layer.id;
            let ghost l = layer@;
            doc.add_layer(layer);
            let ghost mid = doc@;
            proof {
                assert(mid.pixels == with_blank_for(old(doc)@.pixels, l));
                assert(mid.pixels.last().0 == layer_id);
                crate::command::lemma_entry_index_some(mid.pixels, layer_id, mid.pixels.len() - 1);
            }
            match doc.get_pixels_mut(layer_id) {
                Some(dest) => {
                    copy_region(dest, buf, w, h);
                },
                None => {},
            }
            Ok(layer_id)
        },
    }
}

/// Copy an AI image result onto the pixels of layer `layer_id`, over the
/// smaller of the two sizes. Fails with `LayerNotFound` when the layer has
/// no pixels; a mask cannot be copied this way.
pub fn apply_to_layer(doc: &mut Document, layer_id: u128, result: &AiResult) -> (r: Result<(), RasaError>)
    requires
        result matches AiResult::Image(b) ==> holds_region(b@, b@.width, b@.height),
    ensures
        result is Mask ==> (r matches Err(RasaError::Other(m)) && m@ == "cannot apply mask result to a layer directly"@)
            && final(doc)@ == old(doc)@,
        result is Image && entry_index(old(doc)@.pixels, layer_id) is None ==> (r matches Err(
            RasaError::LayerNotFound(e),
        ) && e == layer_id) && final(doc)@ == old(doc)@,
        result matches AiResult::Image(b) ==> (entry_index(old(doc)@.pixels, layer_id) matches Some(j) ==> {
            let d = old(doc)@.pixels[j].1;
            &&& r is Ok
            &&& final(doc)@ == (DocumentModel { pixels: final(doc)@.pixels, ..old(doc)@ })
            &&& final(doc)@.pixels.len() == old(doc)@.pixels.len()
            &&& forall|k: int| 0 <= k < old(doc)@.pixels.len() && k != j ==> #[trigger] final(doc)@.pixels[k] == old(doc)@.pixels[k]
            &&& final(doc)@.pixels[j].0 == layer_id
            &&& copied(
                d,
                b@,
                if d.width < b@.width { d.width } else { b@.width },
                if d.height < b@.height { d.height } else { b@.height },
                final(doc)@.pixels[j].1,
            )
        }),
{
    match result {
        AiResult::Mask { .. } => Err(RasaError::Other("cannot apply mask result to a layer directly".to_owned())),
        AiResult::Image(src) => {
            match doc.get_pixels_mut(layer_id) {
                Some(dest) => {
                    let (dw, dh) = dest.dimensions();
                    let (sw, sh) = src.dimensions();
                    let w = if dw < sw { dw } else { sw };
                    let h = if dh < sh { dh } else { sh };
                    proof {
                        assert(holds_region(src@, src@.width, src@.height));
                        assert forall|x: u32, y: u32| x < w && y < h implies #[trigger] src@.in_bounds(x, y)
                            && pixel_index(src@.width, x, y) < src@.pixels.len() by {
                            assert(x < src@.width && y < src@.height);
                            assert(src@.in_bounds(x, y));
                        }
                    }
                    copy_region(dest, src, w, h);
                    Ok(())
                },
                None => Err(RasaError::LayerNotFound(layer_id)),
            }
        },
    }
}

/// `out` is `dst` with each pixel `(x, y)` for `x < w`, `y < h` that `dst`
/// holds replaced by the pixel of `src` there where `selected` answered
/// `true` for it, and kept where it answered `false`; every other pixel is
/// kept.
pub open spec fn copied_where<F: Fn(u32, u32) -> bool>(
    dst: BufferModel,
    src: BufferModel,
    w: u32,
    h: u32,
    selected: F,
    out: BufferModel,
) -> bool {
    &&& out.width == dst.width
    &&& out.height == dst.height
    &&& out.pixels.len() == dst.pixels.len()
    &&& forall|x: u32, y: u32| #![trigger out.at(x, y)]
        dst.in_bounds(x, y) && pixel_index(dst.width, x, y) < dst.pixels.len() ==> out.at(x, y) == if x < w && y < h
            && call_ensures(selected, (x, y), true) {
            src.at(x, y)
        } else {
            dst.at(x, y)
        }
}

/// `selected` gives one answer for each pixel.
pub open spec fn answers_once<F: Fn(u32, u32) -> bool>(selected: F) -> bool {
    forall|x: u32, y: u32, r1: bool, r2: bool|
        call_ensures(selected, (x, y), r1) && call_ensures(selected, (x, y), r2) ==> r1 == r2
}

/// What `copy_selected` has done once it has visited the pixels before
/// `(x, y)` in row order.
pub open spec fn copied_before<F: Fn(u32, u32) -> bool>(
    d0: BufferModel,
    src: BufferModel,
    w: u32,
    h: u32,
    selected: F,
    cur: BufferModel,
    x: u32,
    y: u32,
) -> bool {
    &&& cur.width == d0.width
    &&& cur.height == d0.height
    &&& cur.pixels.len() == d0.pixels.len()
    &&& forall|xx: u32, yy: u32| #![trigger cur.at(xx, yy)]
        d0.in_bounds(xx, yy) && pixel_index(d0.width, xx, yy) < d0.pixels.len() ==> cur.at(xx, yy) == if xx < w && yy
            < h && (yy < y || (yy == y && xx < x)) && call_ensures(selected, (xx, yy), true) {
            src.at(xx, yy)
        } else {
            d0.at(xx, yy)
        }
}

proof fn lemma_copy_step<F: Fn(u32, u32) -> bool>(
    d0: BufferModel,
    src: BufferModel,
    w: u32,
    h: u32,
    selected: F,
    before: BufferModel,
    after: BufferModel,
    x: u32,
    y: u32,
    nx: u32,
    chosen: bool,
    wrote: bool,
)
    requires
        nx == x + 1,
        answers_once(selected),
        copied_before(d0, src, w, h, selected, before, x, y),
        x < w,
        y < h,
        call_ensures(selected, (x, y), chosen),
        wrote ==> chosen && d0.in_bounds(x, y) && pixel_index(d0.width, x, y) < d0.pixels.len() && after
            == crate::pixel::with_pixel(before, x, y, src.at(x, y)),
        !wrote ==> after == before && (!chosen || !(d0.in_bounds(x, y) && pixel_index(d0.width, x, y) < d0.pixels.len())),
    ensures
        copied_before(d0, src, w, h, selected, after, nx, y),
{
    assert forall|xx: u32, yy: u32| #![trigger after.at(xx, yy)]
        d0.in_bounds(xx, yy) && pixel_index(d0.width, xx, yy) < d0.pixels.len() implies after.at(xx, yy) == if xx < w
        && yy < h && (yy < y || (yy == y && xx < nx)) && call_ensures(selected, (xx, yy), true) {
        src.at(xx, yy)
    } else {
        d0.at(xx, yy)
    } by {
        if wrote {
            crate::pixel::law_read_after_write(before, x, y, src.at(x, y), xx, yy);
        }
        if xx == x && yy == y {
            if !chosen {
                assert(!call_ensures(selected, (x, y), true));
            }
        } else {
            assert(before.at(xx, yy) == before.at(xx, yy));
        }
    }
}

/// Copy the pixels `(x, y)` with `x < w`, `y < h` of `src` that `selected`
/// accepts onto `dst`, where `dst` holds them.
fn copy_selected<F: Fn(u32, u32) -> bool>(dst: &mut PixelBuffer, src: &PixelBuffer, w: u32, h: u32, selected: &F)
    requires
        holds_region(src@, w, h),
        forall|x: u32, y: u32| call_requires(*selected, (x, y)),
        answers_once(*selected),
    ensures
        copied_where(old(dst)@, src@, w, h, *selected, final(dst)@),
{
    let ghost d0 = dst@;
    let (dw, dh) = dst.dimensions();
    let n = dst.pixels().len();
    let mut y: u32 = 0;
    while y < h
        invariant
            y <= h,
            holds_region(src@, w, h),
            forall|x: u32, y: u32| call_requires(*selected, (x, y)),
            answers_once(*selected),
            dw == d0.width,
            dh == d0.height,
            n == d0.pixels.len(),
            copied_before(d0, src@, w, h, *selected, dst@, 0, y),
        decreases h - y,
    {
        let mut x: u32 = 0;
        while x < w
            invariant
                x <= w,
                y < h,
                holds_region(src@, w, h),
                forall|x: u32, y: u32| call_requires(*selected, (x, y)),
                answers_once(*selected),
                dw == d0.width,
                dh == d0.height,
                n == d0.pixels.len(),
                copied_before(d0, src@, w, h, *selected, dst@, x, y),
            decreases w - x,
        {
            let ghost before = dst@;
            let chosen = selected(x, y);
            assert(src@.in_bounds(x, y));
            let px = src.get(x, y);
            assert((y as int) * (dw as int) <= 0xffff_ffffint * 0xffff_ffffint) by (nonlinear_arith)
                requires
                    0 <= y <= 0xffff_ffffint,
                    0 <= dw <= 0xffff_ffffint,
            ;
            let wrote = chosen && x < dw && y < dh && (y as u64) * (dw as u64) + (x as u64) < n as u64;
            if wrote {
                let c = px.unwrap();
                dst.set(x, y, c);
            }
            proof {
                lemma_copy_step(d0, src@, w, h, *selected, before, dst@, x, y, (x + 1) as u32, chosen, wrote);
            }
            x += 1;
        }
        y += 1;
    }
    proof {
        assert forall|xx: u32, yy: u32| #![trigger dst@.at(xx, yy)]
            d0.in_bounds(xx, yy) && pixel_index(d0.width, xx, yy) < d0.pixels.len() implies dst@.at(xx, yy) == if xx < w
            && yy < h && call_ensures(*selected, (xx, yy), true) {
            src@.at(xx, yy)
        } else {
            d0.at(xx, yy)
        } by {
            assert(dst@.at(xx, yy) == dst@.at(xx, yy));
        }
    }
}

/// Replace the pixels of layer `layer_id` that `selected` accepts with those
/// of an AI image, over the smaller of the two sizes; `selected` says of a
/// pixel's column and row whether it lies in the selection. Fails with
/// `LayerNotFound` when the layer has no pixels; a mask cannot be applied.
pub fn apply_within_selection<F: Fn(u32, u32) -> bool>(
    doc: &mut Document,
    layer_id: u128,
    result: &AiResult,
    selected: &F,
) -> (r: Result<(), RasaError>)
    requires
        result matches AiResult::Image(b) ==> holds_region(b@, b@.width, b@.height),
        forall|x: u32, y: u32| call_requires(*selected, (x, y)),
        answers_once(*selected),
    ensures
        result is Mask ==> (r matches Err(RasaError::Other(m)) && m@ == "cannot apply mask result within selection"@)
            && final(doc)@ == old(doc)@,
        result is Image && entry_index(old(doc)@.pixels, layer_id) is None ==> (r matches Err(
            RasaError::LayerNotFound(e),
        ) && e == layer_id) && final(doc)@ == old(doc)@,
        result matches AiResult::Image(b) ==> (entry_index(old(doc)@.pixels, layer_id) matches Some(j) ==> {
            let d = old(doc)@.pixels[j].1;
            &&& r is Ok
            &&& final(doc)@ == (DocumentModel { pixels: final(doc)@.pixels, ..old(doc)@ })
            &&& final(doc)@.pixels.len() == old(doc)@.pixels.len()
            &&& forall|k: int| 0 <= k < old(doc)@.pixels.len() && k != j ==> #[trigger] final(doc)@.pixels[k] == old(doc)@.pixels[k]
            &&& final(doc)@.pixels[j].0 == layer_id
            &&& copied_where(
                d,
                b@,
                if d.width < b@.width { d.width } else { b@.width },
                if d.height < b@.height { d.height } else { b@.height },
                *selected,
                final(doc)@.pixels[j].1,
            )
        }),
{
    match result {
        AiResult::Mask { .. } => Err(RasaError::Other("cannot apply mask result within selection".to_owned())),
        AiResult::Image(src) => {
            match doc.get_pixels_mut(layer_id) {
                Some(dest) => {
                    let (dw, dh) = dest.dimensions();
                    let (sw, sh) = src.dimensions();
                    let w = if dw < sw { dw } else { sw };
                    let h = if dh < sh { dh } else { sh };
                    proof {
                        assert(holds_region(src@, src@.width, src@.height));
                        assert forall|x: u32, y: u32| x < w && y < h implies #[trigger] src@.in_bounds(x, y)
                            && pixel_index(src@.width, x, y) < src@.pixels.len() by {
                            assert(x < src@.width && y < src@.height);
                            assert(src@.in_bounds(x, y));
                        }
                    }
                    copy_selected(dest, src, w, h, selected);
                    Ok(())
                },
                None => Err(RasaError::LayerNotFound(layer_id)),
            }
        },
    }
}

} // verus!
