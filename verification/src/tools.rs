//! Painting tools on pixel buffers: the eyedropper, cropping and flood fill.
use vstd::prelude::*;

use crate::color::Color;
use crate::compositor::{lemma_canvas_addressable, smaller};
use crate::document::lemma_pixel_index_injective;
use crate::pixel::{law_read_after_write, pixel_index, BufferModel, PixelBuffer, MAX_PIXELS};

verus! {

/// Every position inside the width and height of `b` has a pixel.
pub open spec fn full_buffer(b: BufferModel) -> bool {
    b.pixels.len() == b.width * b.height
}

/// The color at `(x, y)`, or `None` outside the buffer.
pub fn eyedropper(buf: &PixelBuffer, x: u32, y: u32) -> (r: Option<Color>)
    requires
        buf@.addressable(x, y),
    ensures
        r == (if buf@.in_bounds(x, y) {
            Some(buf@.at(x, y))
        } else {
            None
        }),
{
    buf.get(x, y)
}

/// The amount by which `a` exceeds `b`, or zero.
pub open spec fn excess(a: u32, b: u32) -> u32 {
    if a > b { (a - b) as u32 } else { 0 }
}

/// The pixels of `b` from column `x0` to before `x1` and from row `y0` to
/// before `y1`, each bound first brought within the buffer, give `out`.
pub open spec fn cropped(b: BufferModel, x0: u32, y0: u32, x1: u32, y1: u32, out: BufferModel) -> bool {
    let cx0 = smaller(x0, b.width);
    let cy0 = smaller(y0, b.height);
    let w = excess(smaller(x1, b.width), cx0);
    let h = excess(smaller(y1, b.height), cy0);
    &&& out.width == w
    &&& out.height == h
    &&& full_buffer(out)
    &&& forall|dx: u32, dy: u32|
        dx < w && dy < h ==> #[trigger] out.at(dx, dy) == b.at((cx0 + dx) as u32, (cy0 + dy) as u32)
}

proof fn lemma_crop_size(bw: u32, bh: u32, w: u32, h: u32)
    requires
        w <= bw,
        h <= bh,
        bw * bh <= MAX_PIXELS,
    ensures
        w * h <= MAX_PIXELS,
{
    assert(w * h <= bw * bh) by (nonlinear_arith)
        requires
            w <= bw,
            h <= bh,
    ;
}

/// A new buffer holding the pixels of `buf` from column `x0` to before `x1`
/// and from row `y0` to before `y1`; bounds beyond the buffer are brought
/// to its edge, and an empty range gives an empty buffer.
pub fn crop_region(buf: &PixelBuffer, x0: u32, y0: u32, x1: u32, y1: u32) -> (r: PixelBuffer)
    requires
        full_buffer(buf@),
        buf@.width * buf@.height <= MAX_PIXELS,
    ensures
        cropped(buf@, x0, y0, x1, y1, r@),
{
    let (bw, bh) = buf.dimensions();
    let cx0 = if x0 < bw { x0 } else { bw };
    let cy0 = if y0 < bh { y0 } else { bh };
    let cx1 = if x1 < bw { x1 } else { bw };
    let cy1 = if y1 < bh { y1 } else { bh };
    let w = if cx1 > cx0 { cx1 - cx0 } else { 0 };
    let h = if cy1 > cy0 { cy1 - cy0 } else { 0 };
    proof {
        lemma_crop_size(bw, bh, w, h);
    }
    let mut out = PixelBuffer::new(w, h);
    assert(full_buffer(out@));
    let mut dy: u32 = 0;
    while dy < h
        invariant
            dy <= h,
            w <= bw,
            h <= bh,
            cx0 + w <= bw,
            cy0 + h <= bh,
            bw == buf@.width,
            bh == buf@.height,
            full_buffer(buf@),
            out@.width == w,
            out@.height == h,
            full_buffer(out@),
            w * h <= MAX_PIXELS,
            forall|x: u32, y: u32|
                x < w && y < dy ==> #[trigger] out@.at(x, y) == buf@.at((cx0 + x) as u32, (cy0 + y) as u32),
        decreases h - dy,
    {
        let mut dx: u32 = 0;
        while dx < w
            invariant
                dx <= w,
                dy < h,
                w <= bw,
                h <= bh,
                cx0 + w <= bw,
                cy0 + h <= bh,
                bw == buf@.width,
                bh == buf@.height,
                full_buffer(buf@),
                out@.width == w,
                out@.height == h,
                full_buffer(out@),
                w * h <= MAX_PIXELS,
                forall|x: u32, y: u32|
                    (x < w && y < dy) || (x < dx && y == dy) ==> #[trigger] out@.at(x, y) == buf@.at(
                        (cx0 + x) as u32,
                        (cy0 + y) as u32,
                    ),
            decreases w - dx,
        {
            proof {
                lemma_canvas_addressable(bw, bh, (cx0 + dx) as u32, (cy0 + dy) as u32);
                lemma_canvas_addressable(w, h, dx, dy);
            }
            let px = buf.get(cx0 + dx, cy0 + dy);
            match px {
                Some(c) => {
                    let ghost before = out@;
                    out.set(dx, dy, c);
                    proof {
                        assert forall|x: u32, y: u32| (x < w && y < dy) || (x < dx + 1 && y == dy) implies #[trigger] out@.at(
                            x,
                            y,
                        ) == buf@.at((cx0 + x) as u32, (cy0 + y) as u32) by {
                            lemma_canvas_addressable(w, h, x, y);
                            law_read_after_write(before, dx, dy, c, x, y);
                        }
                    }
                },
                None => {},
            }
            dx += 1;
        }
        dy += 1;
    }
    out
}

/// A position in a buffer: column, then row.
pub type Position = (u32, u32);

/// Two positions that share a side.
pub open spec fn adjacent(p: Position, q: Position) -> bool {
    ||| p.0 == q.0 && (p.1 + 1 == q.1 || q.1 + 1 == p.1)
    ||| p.1 == q.1 && (p.0 + 1 == q.0 || q.0 + 1 == p.0)
}

/// A position of `b` whose pixel `similar` accepts next to the color
/// `target`.
pub open spec fn fillable<F: Fn(Color, Color) -> bool>(b: BufferModel, similar: F, target: Color, p: Position) -> bool {
    b.in_bounds(p.0, p.1) && call_ensures(similar, (b.at(p.0, p.1), target), true)
}

/// `path` starts at `seed`, goes from each position to an adjacent one, and
/// holds fillable positions only.
pub open spec fn fill_path<F: Fn(Color, Color) -> bool>(
    b: BufferModel,
    similar: F,
    target: Color,
    seed: Position,
    path: Seq<Position>,
) -> bool {
    &&& path.len() > 0
    &&& path[0] == seed
    &&& forall|i: int| 0 <= i < path.len() ==> fillable(b, similar, target, #[trigger] path[i])
    &&& forall|i: int| 0 <= i < path.len() - 1 ==> adjacent(#[trigger] path[i], path[i + 1])
}

/// A flood fill from `seed` reaches `p`: some fill path from `seed` ends
/// there.
pub open spec fn reached<F: Fn(Color, Color) -> bool>(
    b: BufferModel,
    similar: F,
    target: Color,
    seed: Position,
    p: Position,
) -> bool {
    exists|path: Seq<Position>| #[trigger] fill_path(b, similar, target, seed, path) && path.last() == p
}

/// Flood-filling `b` from `seed` with `color` gives `out`: the positions
/// that the fill reaches, where `similar` compares each pixel with the
/// seed's, take `color`; every other pixel stays.
pub open spec fn flood_filled<F: Fn(Color, Color) -> bool>(
    b: BufferModel,
    seed: Position,
    color: Color,
    similar: F,
    out: BufferModel,
) -> bool {
    &&& out.width == b.width
    &&& out.height == b.height
    &&& out.pixels.len() == b.pixels.len()
    &&& forall|x: u32, y: u32|
        b.in_bounds(x, y) ==> #[trigger] out.at(x, y) == if reached(b, similar, b.at(seed.0, seed.1), seed, (x, y)) {
            color
        } else {
            b.at(x, y)
        }
}

/// `similar` gives one answer for each pair of colors.
pub open spec fn deterministic<F: Fn(Color, Color) -> bool>(similar: F) -> bool {
    forall|a: Color, t: Color, r1: bool, r2: bool|
        call_ensures(similar, (a, t), r1) && call_ensures(similar, (a, t), r2) ==> r1 == r2
}

/// The number of `false` entries.
pub open spec fn count_unset(s: Seq<bool>) -> nat
    decreases s.len(),
{
    if s.len() == 0 {
        0
    } else {
        count_unset(s.drop_last()) + if s.last() { 0nat } else { 1nat }
    }
}

proof fn lemma_count_unset_set(s: Seq<bool>, i: int)
    requires
        0 <= i < s.len(),
        !s[i],
    ensures
        count_unset(s.update(i, true)) + 1 == count_unset(s),
    decreases s.len(),
{
    let u = s.update(i, true);
    if i == s.len() - 1 {
        assert(u.drop_last() =~= s.drop_last());
    } else {
        lemma_count_unset_set(s.drop_last(), i);
        assert(u.drop_last() =~= s.drop_last().update(i, true));
    }
}

proof fn lemma_reach_seed<F: Fn(Color, Color) -> bool>(b: BufferModel, similar: F, target: Color, seed: Position)
    requires
        fillable(b, similar, target, seed),
    ensures
        reached(b, similar, target, seed, seed),
{
    let path = seq![seed];
    assert(fill_path(b, similar, target, seed, path));
}

proof fn lemma_reach_step<F: Fn(Color, Color) -> bool>(
    b: BufferModel,
    similar: F,
    target: Color,
    seed: Position,
    q: Position,
    p: Position,
)
    requires
        reached(b, similar, target, seed, q),
        adjacent(q, p),
        fillable(b, similar, target, p),
    ensures
        reached(b, similar, target, seed, p),
{
    let path = choose|path: Seq<Position>| #[trigger] fill_path(b, similar, target, seed, path) && path.last() == q;
    let longer = path.push(p);
    assert forall|i: int| 0 <= i < longer.len() implies fillable(b, similar, target, #[trigger] longer[i]) by {
        if i < path.len() {
            assert(longer[i] == path[i]);
        }
    }
    assert forall|i: int| 0 <= i < longer.len() - 1 implies adjacent(#[trigger] longer[i], longer[i + 1]) by {
        if i < path.len() - 1 {
            assert(longer[i] == path[i]);
            assert(longer[i + 1] == path[i + 1]);
        } else {
            assert(longer[i] == q);
        }
    }
    assert(fill_path(b, similar, target, seed, longer));
}

/// Whether the position `p` of a `w` wide buffer is marked in `visited`.
pub open spec fn marked(visited: Seq<bool>, w: u32, p: Position) -> bool {
    visited[pixel_index(w, p.0, p.1)]
}

proof fn lemma_paths_stay_marked<F: Fn(Color, Color) -> bool>(
    b: BufferModel,
    similar: F,
    target: Color,
    seed: Position,
    visited: Seq<bool>,
    path: Seq<Position>,
    i: int,
)
    requires
        fill_path(b, similar, target, seed, path),
        0 <= i < path.len(),
        marked(visited, b.width, seed),
        forall|p: Position, q: Position|
            #![trigger marked(visited, b.width, p), marked(visited, b.width, q)]
            marked(visited, b.width, p) && fillable(b, similar, target, p) && adjacent(p, q) && b.in_bounds(q.0, q.1)
                ==> marked(visited, b.width, q),
    ensures
        marked(visited, b.width, path[i]),
    decreases i,
{
    if i > 0 {
        lemma_paths_stay_marked(b, similar, target, seed, visited, path, i - 1);
        assert(adjacent(path[i - 1], path[i]));
        assert(fillable(b, similar, target, path[i - 1]));
        assert(fillable(b, similar, target, path[i]));
    }
}

/// The invariant of the flood fill's work list: every pixel marked and
/// fillable is filled and reached, every other pixel is as it was, and each
/// neighbour of a marked fillable pixel is marked or waits on the stack.
pub open spec fn fill_progress<F: Fn(Color, Color) -> bool>(
    b: BufferModel,
    similar: F,
    seed: Position,
    color: Color,
    buf: BufferModel,
    visited: Seq<bool>,
    stack: Seq<Position>,
) -> bool {
    let target = b.at(seed.0, seed.1);
    &&& forall|x: u32, y: u32|
        b.in_bounds(x, y) ==> #[trigger] buf.at(x, y) == if marked(visited, b.width, (x, y)) && fillable(
            b,
            similar,
            target,
            (x, y),
        ) {
            color
        } else {
            b.at(x, y)
        }
    &&& forall|p: Position|
        b.in_bounds(p.0, p.1) && #[trigger] marked(visited, b.width, p) && fillable(b, similar, target, p) ==> reached(
            b,
            similar,
            target,
            seed,
            p,
        )
    &&& forall|k: int|
        0 <= k < stack.len() ==> b.in_bounds(#[trigger] stack[k].0, stack[k].1) && (stack[k] == seed || exists|q: Position|
            #[trigger] adjacent(q, stack[k]) && b.in_bounds(q.0, q.1) && marked(visited, b.width, q) && fillable(
                b,
                similar,
                target,
                q,
            ))
    &&& forall|p: Position, q: Position|
        #![trigger marked(visited, b.width, p), marked(visited, b.width, q)]
        b.in_bounds(p.0, p.1) && marked(visited, b.width, p) && fillable(b, similar, target, p) && adjacent(p, q)
            && b.in_bounds(q.0, q.1) ==> marked(visited, b.width, q) || stack.contains(q)
    &&& marked(visited, b.width, seed) || stack.contains(seed)
}

proof fn lemma_marked_update(visited: Seq<bool>, w: u32, h: u32, p: Position, q: Position)
    requires
        visited.len() == w * h,
        p.0 < w,
        p.1 < h,
        q.0 < w,
        q.1 < h,
    ensures
        marked(visited.update(pixel_index(w, p.0, p.1), true), w, q) == (q == p || marked(visited, w, q)),
{
    lemma_canvas_addressable(w, h, p.0, p.1);
    lemma_canvas_addressable(w, h, q.0, q.1);
    if q != p {
        lemma_pixel_index_injective(w, p.0, p.1, q.0, q.1);
    }
}

proof fn lemma_progress_after_pop<F: Fn(Color, Color) -> bool>(
    b: BufferModel,
    similar: F,
    seed: Position,
    color: Color,
    buf: BufferModel,
    visited: Seq<bool>,
    stack: Seq<Position>,
    p: Position,
)
    requires
        fill_progress(b, similar, seed, color, buf, visited, stack),
        stack.len() > 0,
        stack.last() == p,
        marked(visited, b.width, p),
    ensures
        fill_progress(b, similar, seed, color, buf, visited, stack.drop_last()),
{
    let target = b.at(seed.0, seed.1);
    let rest = stack.drop_last();
    assert forall|k: int| 0 <= k < rest.len() implies b.in_bounds(#[trigger] rest[k].0, rest[k].1) && (rest[k] == seed
        || exists|q: Position|
        #[trigger] adjacent(q, rest[k]) && b.in_bounds(q.0, q.1) && marked(visited, b.width, q) && fillable(
            b,
            similar,
            target,
            q,
        )) by {
        assert(rest[k] == stack[k]);
        assert(b.in_bounds(stack[k].0, stack[k].1));
    }
    assert forall|r: Position| #[trigger] stack.contains(r) && r != p implies rest.contains(r) by {
        let k = choose|k: int| 0 <= k < stack.len() && stack[k] == r;
        assert(rest[k] == r);
    }
    let w = b.width;
    assert forall|a: Position, q: Position|
        #![trigger marked(visited, w, a), marked(visited, w, q)]
        b.in_bounds(a.0, a.1) && marked(visited, w, a) && fillable(b, similar, target, a) && adjacent(a, q) && b.in_bounds(
            q.0,
            q.1,
        ) implies marked(visited, w, q) || rest.contains(q) by {
        if !marked(visited, w, q) {
            assert(stack.contains(q));
        }
    }
    if !marked(visited, w, seed) {
        assert(stack.contains(seed));
    }
}

proof fn lemma_progress_after_skip<F: Fn(Color, Color) -> bool>(
    b: BufferModel,
    similar: F,
    seed: Position,
    color: Color,
    buf: BufferModel,
    visited: Seq<bool>,
    stack: Seq<Position>,
    p: Position,
)
    requires
        fill_progress(b, similar, seed, color, buf, visited, stack),
        full_buffer(b),
        visited.len() == b.width * b.height,
        stack.len() > 0,
        stack.last() == p,
        b.in_bounds(p.0, p.1),
        !marked(visited, b.width, p),
        !fillable(b, similar, b.at(seed.0, seed.1), p),
    ensures
        fill_progress(
            b,
            similar,
            seed,
            color,
            buf,
            visited.update(pixel_index(b.width, p.0, p.1), true),
            stack.drop_last(),
        ),
{
    let target = b.at(seed.0, seed.1);
    let w = b.width;
    let h = b.height;
    let v2 = visited.update(pixel_index(w, p.0, p.1), true);
    let rest = stack.drop_last();
    assert forall|q: Position| b.in_bounds(q.0, q.1) implies #[trigger] marked(v2, w, q) == (q == p || marked(visited, w, q)) by {
        lemma_marked_update(visited, w, h, p, q);
    }
    assert forall|x: u32, y: u32| b.in_bounds(x, y) implies #[trigger] buf.at(x, y) == if marked(v2, w, (x, y)) && fillable(
        b,
        similar,
        target,
        (x, y),
    ) {
        color
    } else {
        b.at(x, y)
    } by {
        assert(marked(v2, w, (x, y)) == ((x, y) == p || marked(visited, w, (x, y))));
    }
    assert forall|k: int| 0 <= k < rest.len() implies b.in_bounds(#[trigger] rest[k].0, rest[k].1) && (rest[k] == seed
        || exists|q: Position|
        #[trigger] adjacent(q, rest[k]) && b.in_bounds(q.0, q.1) && marked(v2, w, q) && fillable(b, similar, target, q)) by {
        assert(rest[k] == stack[k]);
        assert(b.in_bounds(stack[k].0, stack[k].1));
        if stack[k] != seed {
            let q = choose|q: Position|
                #[trigger] adjacent(q, stack[k]) && b.in_bounds(q.0, q.1) && marked(visited, w, q) && fillable(
                    b,
                    similar,
                    target,
                    q,
                );
            assert(marked(v2, w, q));
        }
    }
    assert forall|r: Position| #[trigger] stack.contains(r) && r != p implies rest.contains(r) by {
        let k = choose|k: int| 0 <= k < stack.len() && stack[k] == r;
        assert(rest[k] == r);
    }
    assert forall|a: Position, q: Position|
        #![trigger marked(v2, w, a), marked(v2, w, q)]
        b.in_bounds(a.0, a.1) && marked(v2, w, a) && fillable(b, similar, target, a) && adjacent(a, q) && b.in_bounds(
            q.0,
            q.1,
        ) implies marked(v2, w, q) || rest.contains(q) by {
        assert(marked(visited, w, a));
        assert(marked(visited, w, q) ==> marked(v2, w, q));
        if !marked(visited, w, q) {
            assert(stack.contains(q));
        }
    }
    if !marked(visited, w, seed) {
        assert(stack.contains(seed));
    }
    assert(marked(v2, w, seed) == (seed == p || marked(visited, w, seed)));
}

#[verifier::spinoff_prover]
#[verifier::rlimit(50)]
proof fn lemma_progress_after_fill<F: Fn(Color, Color) -> bool>(
    b: BufferModel,
    similar: F,
    seed: Position,
    color: Color,
    buf: BufferModel,
    visited: Seq<bool>,
    stack: Seq<Position>,
    after: Seq<Position>,
    p: Position,
)
    requires
        fill_progress(b, similar, seed, color, buf, visited, stack),
        full_buffer(b),
        buf.width == b.width,
        buf.height == b.height,
        buf.pixels.len() == b.pixels.len(),
        visited.len() == b.width * b.height,
        b.in_bounds(seed.0, seed.1),
        stack.len() > 0,
        stack.last() == p,
        b.in_bounds(p.0, p.1),
        !marked(visited, b.width, p),
        fillable(b, similar, b.at(seed.0, seed.1), p),
        after.len() >= stack.len() - 1,
        forall|k: int| 0 <= k < stack.len() - 1 ==> after[k] == stack[k],
        forall|k: int|
            stack.len() - 1 <= k < after.len() ==> b.in_bounds(#[trigger] after[k].0, after[k].1) && adjacent(p, after[k]),
        forall|q: Position| adjacent(p, q) && b.in_bounds(q.0, q.1) ==> #[trigger] after.contains(q),
    ensures
        fill_progress(
            b,
            similar,
            seed,
            color,
            crate::pixel::with_pixel(buf, p.0, p.1, color),
            visited.update(pixel_index(b.width, p.0, p.1), true),
            after,
        ),
{
    let target = b.at(seed.0, seed.1);
    let w = b.width;
    let h = b.height;
    let v2 = visited.update(pixel_index(w, p.0, p.1), true);
    let b2 = crate::pixel::with_pixel(buf, p.0, p.1, color);
    assert forall|q: Position| b.in_bounds(q.0, q.1) implies #[trigger] marked(v2, w, q) == (q == p || marked(visited, w, q)) by {
        lemma_marked_update(visited, w, h, p, q);
    }
    // The popped position is reached.
    assert(reached(b, similar, target, seed, p)) by {
        let k = stack.len() - 1;
        assert(stack[k] == p);
        assert(b.in_bounds(stack[k].0, stack[k].1));
        if p == seed {
            lemma_reach_seed(b, similar, target, seed);
        } else {
            let q = choose|q: Position|
                #[trigger] adjacent(q, stack[k]) && b.in_bounds(q.0, q.1) && marked(visited, w, q) && fillable(
                    b,
                    similar,
                    target,
                    q,
                );
            assert(marked(visited, w, q));
            assert(reached(b, similar, target, seed, q));
            lemma_reach_step(b, similar, target, seed, q, p);
        }
    }
    assert forall|x: u32, y: u32| b.in_bounds(x, y) implies #[trigger] b2.at(x, y) == if marked(v2, w, (x, y)) && fillable(
        b,
        similar,
        target,
        (x, y),
    ) {
        color
    } else {
        b.at(x, y)
    } by {
        lemma_canvas_addressable(w, h, x, y);
        lemma_canvas_addressable(w, h, p.0, p.1);
        crate::pixel::law_read_after_write(buf, p.0, p.1, color, x, y);
        assert(marked(v2, w, (x, y)) == ((x, y) == p || marked(visited, w, (x, y))));
        assert(buf.at(x, y) == if marked(visited, w, (x, y)) && fillable(b, similar, target, (x, y)) {
            color
        } else {
            b.at(x, y)
        });
    }
    assert forall|a: Position|
        b.in_bounds(a.0, a.1) && #[trigger] marked(v2, w, a) && fillable(b, similar, target, a) implies reached(
        b,
        similar,
        target,
        seed,
        a,
    ) by {
        if a != p {
            assert(marked(visited, w, a));
        }
    }
    assert forall|k: int| 0 <= k < after.len() implies b.in_bounds(#[trigger] after[k].0, after[k].1) && (after[k] == seed
        || exists|q: Position|
        #[trigger] adjacent(q, after[k]) && b.in_bounds(q.0, q.1) && marked(v2, w, q) && fillable(b, similar, target, q)) by {
        if k < stack.len() - 1 {
            assert(after[k] == stack[k]);
            assert(b.in_bounds(stack[k].0, stack[k].1));
            if stack[k] != seed {
                let q = choose|q: Position|
                    #[trigger] adjacent(q, stack[k]) && b.in_bounds(q.0, q.1) && marked(visited, w, q) && fillable(
                        b,
                        similar,
                        target,
                        q,
                    );
                assert(marked(v2, w, q));
            }
        } else {
            assert(adjacent(p, after[k]));
            assert(marked(v2, w, p));
        }
    }
    assert forall|r: Position| #[trigger] stack.contains(r) && r != p implies after.contains(r) by {
        let k = choose|k: int| 0 <= k < stack.len() && stack[k] == r;
        assert(after[k] == r);
    }
    assert forall|a: Position, q: Position|
        #![trigger marked(v2, w, a), marked(v2, w, q)]
        b.in_bounds(a.0, a.1) && marked(v2, w, a) && fillable(b, similar, target, a) && adjacent(a, q) && b.in_bounds(
            q.0,
            q.1,
        ) implies marked(v2, w, q) || after.contains(q) by {
        if a == p {
            assert(after.contains(q));
        } else {
            assert(marked(visited, w, a));
            if !marked(visited, w, q) {
                assert(stack.contains(q));
            }
        }
    }
    if !marked(visited, w, seed) {
        assert(stack.contains(seed));
    }
    assert(marked(v2, w, seed) == (seed == p || marked(visited, w, seed)));
}

proof fn lemma_fill_complete<F: Fn(Color, Color) -> bool>(
    b: BufferModel,
    similar: F,
    seed: Position,
    color: Color,
    buf: BufferModel,
    visited: Seq<bool>,
)
    requires
        fill_progress(b, similar, seed, color, buf, visited, Seq::<Position>::empty()),
        buf.width == b.width,
        buf.height == b.height,
        buf.pixels.len() == b.pixels.len(),
    ensures
        flood_filled(b, seed, color, similar, buf),
{
    let target = b.at(seed.0, seed.1);
    let w = b.width;
    let empty = Seq::<Position>::empty();
    assert(!empty.contains(seed));
    assert forall|p: Position, q: Position|
        #![trigger marked(visited, w, p), marked(visited, w, q)]
        marked(visited, w, p) && fillable(b, similar, target, p) && adjacent(p, q) && b.in_bounds(q.0, q.1) implies marked(
        visited,
        w,
        q,
    ) by {
        assert(!empty.contains(q));
    }
    assert forall|x: u32, y: u32| b.in_bounds(x, y) implies #[trigger] buf.at(x, y) == if reached(
        b,
        similar,
        target,
        seed,
        (x, y),
    ) {
        color
    } else {
        b.at(x, y)
    } by {
        if reached(b, similar, target, seed, (x, y)) {
            let path = choose|path: Seq<Position>| #[trigger] fill_path(b, similar, target, seed, path) && path.last() == (
            x,
            y,
            );
            lemma_paths_stay_marked(b, similar, target, seed, visited, path, path.len() - 1);
            assert(fillable(b, similar, target, path[path.len() - 1]));
        }
    }
}

/// Fill with `color` the region of `buf` that a flood from `(seed_x,
/// seed_y)` reaches: the seed and, repeatedly, the pixels beside a filled
/// pixel that `similar` accepts next to the seed's color. A seed outside the
/// buffer changes nothing.
pub fn flood_fill<F: Fn(Color, Color) -> bool>(
    buf: &mut PixelBuffer,
    seed_x: u32,
    seed_y: u32,
    color: Color,
    similar: &F,
)
    requires
        full_buffer(old(buf)@),
        old(buf)@.width * old(buf)@.height <= MAX_PIXELS,
        forall|a: Color, t: Color| call_requires(*similar, (a, t)),
        deterministic(*similar),
    ensures
        flood_filled(old(buf)@, (seed_x, seed_y), color, *similar, final(buf)@),
{
    let (w, h) = buf.dimensions();
    let ghost b0 = buf@;
    let ghost seed: Position = (seed_x, seed_y);
    if seed_x >= w || seed_y >= h {
        proof {
            assert forall|x: u32, y: u32| b0.in_bounds(x, y) implies !reached(b0, *similar, b0.at(seed_x, seed_y), seed, (x, y)) by {
                if reached(b0, *similar, b0.at(seed_x, seed_y), seed, (x, y)) {
                    let path = choose|path: Seq<Position>| #[trigger] fill_path(b0, *similar, b0.at(seed_x, seed_y), seed, path)
                        && path.last() == (x, y);
                    assert(fillable(b0, *similar, b0.at(seed_x, seed_y), path[0]));
                }
            }
        }
        return;
    }
    proof {
        lemma_canvas_addressable(w, h, seed_x, seed_y);
    }
    let target = match buf.get(seed_x, seed_y) {
        Some(c) => c,
        None => {
            return;
        },
    };
    let n: usize = (w as usize) * (h as usize);
    let mut visited: Vec<bool> = vec![false; n];
    let mut stack: Vec<Position> = vec![(seed_x, seed_y)];
    proof {
        assert(stack@[0] == seed);
        assert forall|x: u32, y: u32| b0.in_bounds(x, y) implies !marked(visited@, w, (x, y)) by {
            lemma_canvas_addressable(w, h, x, y);
        }
    }
    while stack.len() > 0
        invariant
            w == b0.width,
            h == b0.height,
            full_buffer(b0),
            w * h <= MAX_PIXELS,
            n == w * h,
            seed_x < w,
            seed_y < h,
            seed == (seed_x, seed_y),
            target == b0.at(seed_x, seed_y),
            buf@.width == w,
            buf@.height == h,
            buf@.pixels.len() == b0.pixels.len(),
            visited@.len() == n,
            forall|a: Color, t: Color| call_requires(*similar, (a, t)),
            deterministic(*similar),
            fill_progress(b0, *similar, seed, color, buf@, visited@, stack@),
        decreases 4 * count_unset(visited@) + stack@.len(),
    {
        let ghost before_stack = stack@;
        let ghost before_visited = visited@;
        let ghost before_buf = buf@;
        let p = stack.pop().unwrap();
        let (x, y) = p;
        assert(before_stack.last() == p);
        assert(b0.in_bounds(x, y));
        proof {
            lemma_canvas_addressable(w, h, x, y);
        }
        let idx: usize = (y as usize) * (w as usize) + (x as usize);
        assert(idx == pixel_index(w, x, y));
        if visited[idx] {
            proof {
                lemma_progress_after_pop(b0, *similar, seed, color, buf@, visited@, before_stack, p);
            }
            continue;
        }
        let c = match buf.get(x, y) {
            Some(c) => c,
            None => {
                return;
            },
        };
        assert(c == b0.at(x, y));
        visited.set(idx, true);
        proof {
            lemma_count_unset_set(before_visited, idx as int);
        }
        let ok = similar(c, target);
        if !ok {
            assert(!fillable(b0, *similar, target, p));
            proof {
                lemma_progress_after_skip(b0, *similar, seed, color, buf@, before_visited, before_stack, p);
            }
            continue;
        }
        assert(fillable(b0, *similar, target, p));
        buf.set(x, y, color);
        let ghost mut left: int = -1;
        let ghost mut right: int = -1;
        let ghost mut up: int = -1;
        let ghost mut down: int = -1;
        if x > 0 {
            stack.push((x - 1, y));
            proof {
                left = stack@.len() - 1;
            }
        }
        if x + 1 < w {
            stack.push((x + 1, y));
            proof {
                right = stack@.len() - 1;
            }
        }
        if y > 0 {
            stack.push((x, y - 1));
            proof {
                up = stack@.len() - 1;
            }
        }
        if y + 1 < h {
            stack.push((x, y + 1));
            proof {
                down = stack@.len() - 1;
            }
        }
        proof {
            let after = stack@;
            assert(x > 0 ==> after[left] == ((x - 1) as u32, y));
            assert(x + 1 < w ==> after[right] == ((x + 1) as u32, y));
            assert(y > 0 ==> after[up] == (x, (y - 1) as u32));
            assert(y + 1 < h ==> after[down] == (x, (y + 1) as u32));
            assert forall|q: Position| adjacent(p, q) && b0.in_bounds(q.0, q.1) implies #[trigger] after.contains(q) by {
                if q.0 == x {
                    if q.1 + 1 == y {
                        assert(after[up] == q);
                    } else {
                        assert(after[down] == q);
                    }
                } else if q.0 + 1 == x {
                    assert(after[left] == q);
                } else {
                    assert(after[right] == q);
                }
            }
            lemma_progress_after_fill(b0, *similar, seed, color, before_buf, before_visited, before_stack, after, p);
        }
    }
    proof {
        lemma_fill_complete(b0, *similar, seed, color, buf@, visited@);
    }
}

/// A flood fill from a seed inside the buffer whose color the test accepts
/// next to itself fills the seed.
pub proof fn law_fill_covers_seed<F: Fn(Color, Color) -> bool>(
    b: BufferModel,
    seed: Position,
    color: Color,
    similar: F,
    out: BufferModel,
)
    requires
        b.in_bounds(seed.0, seed.1),
        call_ensures(similar, (b.at(seed.0, seed.1), b.at(seed.0, seed.1)), true),
        flood_filled(b, seed, color, similar, out),
    ensures
        out.at(seed.0, seed.1) == color,
{
    lemma_reach_seed(b, similar, b.at(seed.0, seed.1), seed);
}

/// A flood fill changes only pixels that the test accepts next to the
/// seed's color, and gives each of them the fill color.
pub proof fn law_fill_changes_only_accepted<F: Fn(Color, Color) -> bool>(
    b: BufferModel,
    seed: Position,
    color: Color,
    similar: F,
    out: BufferModel,
    x: u32,
    y: u32,
)
    requires
        b.in_bounds(x, y),
        flood_filled(b, seed, color, similar, out),
        out.at(x, y) != b.at(x, y),
    ensures
        fillable(b, similar, b.at(seed.0, seed.1), (x, y)),
        out.at(x, y) == color,
{
    let target = b.at(seed.0, seed.1);
    assert(reached(b, similar, target, seed, (x, y)));
    let path = choose|path: Seq<Position>| #[trigger] fill_path(b, similar, target, seed, path) && path.last() == (x, y);
    assert(fillable(b, similar, target, path[path.len() - 1]));
}

/// Cropping a buffer to its whole extent gives the buffer back.
pub proof fn law_crop_whole_is_identity(b: BufferModel, out: BufferModel)
    requires
        full_buffer(b),
        cropped(b, 0, 0, b.width, b.height, out),
    ensures
        out == b,
{
    assert(out.pixels.len() == b.pixels.len());
    assert forall|i: int| 0 <= i < b.pixels.len() implies out.pixels[i] == b.pixels[i] by {
        let w = b.width as int;
        let x = i % w;
        let y = i / w;
        let hh = b.height as int;
        assert(i < w * hh);
        assert(w > 0) by (nonlinear_arith)
            requires
                0 <= i < w * hh,
                hh >= 0,
        ;
        assert(0 <= x < w && 0 <= y < hh && y * w + x == i) by (nonlinear_arith)
            requires
                w > 0,
                0 <= i < w * hh,
                x == i % w,
                y == i / w,
        ;
        assert(out.at(x as u32, y as u32) == b.at(x as u32, y as u32));
    }
    assert(out.pixels =~= b.pixels);
}

} // verus!
