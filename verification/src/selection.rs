//! How selections combine.
use vstd::prelude::*;

use crate::apply::answers_once;

verus! {

/// How to combine a new selection with an existing one.
#[derive(Debug, Clone, Copy, PartialEq, Eq, Structural)]
pub enum SelectionOp {
    Replace,
    Add,
    Subtract,
    Intersect,
}

/// `selected` accepts the pixel `(x, y)` of a `width` by `height` grid.
pub open spec fn picked<F: Fn(u32, u32) -> bool>(selected: F, width: u32, height: u32, x: u32, y: u32) -> bool {
    x < width && y < height && call_ensures(selected, (x, y), true)
}

/// `b` holds the extremes of the accepted pixels among the rows before `rows`
/// (and, of row `rows`, the columns before `cols`): the least column and row,
/// starting from `width` and `height`, and the greatest, starting from 0.
pub open spec fn extremes_of<F: Fn(u32, u32) -> bool>(
    selected: F,
    width: u32,
    height: u32,
    rows: u32,
    cols: u32,
    b: (u32, u32, u32, u32),
) -> bool {
    &&& forall|x: u32, y: u32| #[trigger] picked(selected, width, height, x, y) && (y < rows || (y == rows && x < cols))
        ==> b.0 <= x && x <= b.2 && b.1 <= y && y <= b.3
    &&& b.0 == width || exists|x: u32, y: u32| #[trigger] picked(selected, width, height, x, y) && (y < rows || (y == rows
        && x < cols)) && x == b.0
    &&& b.1 == height || exists|x: u32, y: u32| #[trigger] picked(selected, width, height, x, y) && (y < rows || (y
        == rows && x < cols)) && y == b.1
    &&& b.2 == 0 || exists|x: u32, y: u32| #[trigger] picked(selected, width, height, x, y) && (y < rows || (y == rows
        && x < cols)) && x == b.2
    &&& b.3 == 0 || exists|x: u32, y: u32| #[trigger] picked(selected, width, height, x, y) && (y < rows || (y == rows
        && x < cols)) && y == b.3
}

/// The least column, least row, greatest column and greatest row of the
/// pixels of a `width` by `height` grid that `selected` accepts. Without
/// such pixels they stay at `width`, `height`, 0 and 0.
pub fn selected_extremes<F: Fn(u32, u32) -> bool>(width: u32, height: u32, selected: &F) -> (r: (u32, u32, u32, u32))
    requires
        forall|x: u32, y: u32| call_requires(*selected, (x, y)),
        answers_once(*selected),
    ensures
        extremes_of(*selected, width, height, height, 0, r),
{
    let mut b: (u32, u32, u32, u32) = (width, height, 0, 0);
    let mut y: u32 = 0;
    while y < height
        invariant
            y <= height,
            forall|x: u32, y: u32| call_requires(*selected, (x, y)),
            answers_once(*selected),
            extremes_of(*selected, width, height, y, 0, b),
        decreases height - y,
    {
        let mut x: u32 = 0;
        while x < width
            invariant
                x <= width,
                y < height,
                forall|x: u32, y: u32| call_requires(*selected, (x, y)),
                answers_once(*selected),
                extremes_of(*selected, width, height, y, x, b),
            decreases width - x,
        {
            let ghost old_b = b;
            let hit = selected(x, y);
            if hit {
                let (x0, y0, x1, y1) = b;
                b = (if x < x0 { x } else { x0 }, if y < y0 { y } else { y0 }, if x > x1 { x } else { x1 }, if y > y1 {
                    y
                } else {
                    y1
                });
            }
            proof {
                lemma_extremes_step(*selected, width, height, y, x, (x + 1) as u32, old_b, b, hit);
            }
            x += 1;
        }
        proof {
            lemma_extremes_next_row(*selected, width, height, y, (y + 1) as u32, b);
        }
        y += 1;
    }
    b
}

proof fn lemma_extremes_step<F: Fn(u32, u32) -> bool>(
    selected: F,
    width: u32,
    height: u32,
    y: u32,
    x: u32,
    nx: u32,
    old_b: (u32, u32, u32, u32),
    b: (u32, u32, u32, u32),
    hit: bool,
)
    requires
        x < width,
        y < height,
        nx == x + 1,
        answers_once(selected),
        extremes_of(selected, width, height, y, x, old_b),
        call_ensures(selected, (x, y), hit),
        hit ==> b == (if x < old_b.0 { x } else { old_b.0 }, if y < old_b.1 { y } else { old_b.1 }, if x > old_b.2 { x } else {
            old_b.2
        }, if y > old_b.3 { y } else { old_b.3 }),
        !hit ==> b == old_b,
    ensures
        extremes_of(selected, width, height, y, nx, b),
{
    assert(hit == picked(selected, width, height, x, y));
    assert forall|xx: u32, yy: u32| #[trigger] picked(selected, width, height, xx, yy) && (yy < y || (yy == y && xx < nx))
        implies b.0 <= xx && xx <= b.2 && b.1 <= yy && yy <= b.3 by {
        if !(xx == x && yy == y) {
            assert(yy < y || (yy == y && xx < x));
        }
    }
    if b.0 != width {
        if hit && x < old_b.0 {
            assert(picked(selected, width, height, x, y));
        } else {
            let (wx, wy) = choose|wx: u32, wy: u32| #[trigger] picked(selected, width, height, wx, wy) && (wy < y || (wy == y
                && wx < x)) && wx == old_b.0;
            assert(picked(selected, width, height, wx, wy));
        }
    }
    if b.1 != height {
        if hit && y < old_b.1 {
            assert(picked(selected, width, height, x, y));
        } else {
            let (wx, wy) = choose|wx: u32, wy: u32| #[trigger] picked(selected, width, height, wx, wy) && (wy < y || (wy == y
                && wx < x)) && wy == old_b.1;
            assert(picked(selected, width, height, wx, wy));
        }
    }
    if b.2 != 0 {
        if hit && x > old_b.2 {
            assert(picked(selected, width, height, x, y));
        } else {
            let (wx, wy) = choose|wx: u32, wy: u32| #[trigger] picked(selected, width, height, wx, wy) && (wy < y || (wy == y
                && wx < x)) && wx == old_b.2;
            assert(picked(selected, width, height, wx, wy));
        }
    }
    if b.3 != 0 {
        if hit && y > old_b.3 {
            assert(picked(selected, width, height, x, y));
        } else {
            let (wx, wy) = choose|wx: u32, wy: u32| #[trigger] picked(selected, width, height, wx, wy) && (wy < y || (wy == y
                && wx < x)) && wy == old_b.3;
            assert(picked(selected, width, height, wx, wy));
        }
    }
}

proof fn lemma_extremes_next_row<F: Fn(u32, u32) -> bool>(
    selected: F,
    width: u32,
    height: u32,
    y: u32,
    ny: u32,
    b: (u32, u32, u32, u32),
)
    requires
        y < height,
        ny == y + 1,
        extremes_of(selected, width, height, y, width, b),
    ensures
        extremes_of(selected, width, height, ny, 0, b),
{
    assert forall|xx: u32, yy: u32| #[trigger] picked(selected, width, height, xx, yy) && (yy < ny || (yy == ny && xx < 0))
        implies b.0 <= xx && xx <= b.2 && b.1 <= yy && yy <= b.3 by {
        assert(yy < y || (yy == y && xx < width));
    }
    if b.0 != width {
        let (wx, wy) = choose|wx: u32, wy: u32| #[trigger] picked(selected, width, height, wx, wy) && (wy < y || (wy == y && wx
            < width)) && wx == b.0;
        assert(picked(selected, width, height, wx, wy));
    }
    if b.1 != height {
        let (wx, wy) = choose|wx: u32, wy: u32| #[trigger] picked(selected, width, height, wx, wy) && (wy < y || (wy == y && wx
            < width)) && wy == b.1;
        assert(picked(selected, width, height, wx, wy));
    }
    if b.2 != 0 {
        let (wx, wy) = choose|wx: u32, wy: u32| #[trigger] picked(selected, width, height, wx, wy) && (wy < y || (wy == y && wx
            < width)) && wx == b.2;
        assert(picked(selected, width, height, wx, wy));
    }
    if b.3 != 0 {
        let (wx, wy) = choose|wx: u32, wy: u32| #[trigger] picked(selected, width, height, wx, wy) && (wy < y || (wy == y && wx
            < width)) && wy == b.3;
        assert(picked(selected, width, height, wx, wy));
    }
}

} // verus!
