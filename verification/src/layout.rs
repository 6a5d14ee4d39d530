//! Layouts: pure functions from a region, an ordered ring of client ids and
//! the layout parameters to one rectangle per client.
//!
//! Layouts know nothing of gaps or borders; the manager pads the rectangles
//! when it turns them into configure requests.

use vstd::prelude::*;

use crate::data_types::{Region, WinId};

verus! {

/// The layout variants the core supplies. A workspace holds an ordered list
/// of these and cycles through them; adding a variant never changes
/// `Workspace`.
#[derive(Clone, Copy, Debug, PartialEq, Eq, Structural)]
pub enum Layout {
    /// Master/stack: the first `max_main` clients tile vertically in a main
    /// column of width `region.w * ratio / 100`, the rest in a stack column.
    Tiled,
    /// Every client receives the full region; stacking order decides
    /// visibility.
    Monocle,
    /// Identity layout: emits no geometry at all.
    Floating,
}

/// A region is small enough that its far corner, and any point inside it,
/// fits in `u32` arithmetic.
pub open spec fn region_within_limits(r: Region) -> bool {
    &&& r.x + r.w <= u32::MAX
    &&& r.y + r.h <= u32::MAX
}

/// Row `i` of `k` equal-as-possible rows stacked vertically in `r`: the row
/// spans from `y + (i*h)/k` up to `y + ((i+1)*h)/k`, so the `k` rows
/// partition the vertical extent of `r` exactly.
pub open spec fn vstack_rect(r: Region, k: int, i: int) -> Region
    recommends
        0 <= i < k,
        region_within_limits(r),
{
    Region {
        x: r.x,
        y: (r.y + i * r.h / k) as u32,
        w: r.w,
        h: ((i + 1) * r.h / k - i * r.h / k) as u32,
    }
}

/// The main (left) column of a master/stack split at `ratio` percent.
pub open spec fn main_column(r: Region, ratio: int) -> Region {
    Region { x: r.x, y: r.y, w: (r.w * ratio / 100) as u32, h: r.h }
}

/// The stack (right) column of a master/stack split at `ratio` percent.
pub open spec fn stack_column(r: Region, ratio: int) -> Region {
    Region {
        x: (r.x + r.w * ratio / 100) as u32,
        y: r.y,
        w: (r.w - r.w * ratio / 100) as u32,
        h: r.h,
    }
}

/// The rectangle of the client at ring position `i` under the master/stack
/// layout: one column when everything fits in the main column (or the ratio
/// consumes the whole width), otherwise a vertical split.
pub open spec fn tiled_rect(r: Region, n: int, max_main: int, ratio: int, i: int) -> Region
    recommends
        0 <= i < n,
        region_within_limits(r),
{
    if n <= max_main || ratio >= 100 {
        vstack_rect(r, n, i)
    } else if i < max_main {
        vstack_rect(main_column(r, ratio), max_main, i)
    } else {
        vstack_rect(stack_column(r, ratio), n - max_main, i - max_main)
    }
}

/// The rectangle of the client at ring position `i` for a geometry-emitting
/// layout variant.
pub open spec fn layout_rect(
    layout: Layout,
    r: Region,
    n: int,
    max_main: int,
    ratio: int,
    i: int,
) -> Region
    recommends
        0 <= i < n,
        region_within_limits(r),
{
    match layout {
        Layout::Tiled => tiled_rect(r, n, max_main, ratio, i),
        Layout::Monocle => r,
        Layout::Floating => r,
    }
}

/// What `arrange` returns: one `(id, rectangle)` pair per ring member in
/// ring order, or nothing at all for the floating layout.
pub open spec fn arrange_spec(
    layout: Layout,
    r: Region,
    ring: Seq<WinId>,
    max_main: int,
    ratio: int,
) -> Seq<(WinId, Region)>
    recommends
        region_within_limits(r),
{
    match layout {
        Layout::Floating => Seq::empty(),
        _ => Seq::new(
            ring.len(),
            |i: int| (ring[i], layout_rect(layout, r, ring.len() as int, max_main, ratio, i)),
        ),
    }
}

/// `inner` lies inside `outer`.
pub open spec fn rect_in_region(inner: Region, outer: Region) -> bool {
    &&& outer.x <= inner.x
    &&& inner.x + inner.w <= outer.x + outer.w
    &&& outer.y <= inner.y
    &&& inner.y + inner.h <= outer.y + outer.h
}

/// `a` and `b` do not overlap: they are separated on some axis.
pub open spec fn rects_disjoint(a: Region, b: Region) -> bool {
    ||| a.x + a.w <= b.x
    ||| b.x + b.w <= a.x
    ||| a.y + a.h <= b.y
    ||| b.y + b.h <= a.y
}

/// When a region offers `k * c` pixels of height, each of its `k` stacked
/// rows is at least `c` tall, and the rows follow one another without
/// overlap.
pub proof fn lemma_vstack_row_bounds(r: Region, k: int, c: int)
    requires
        0 < k,
        0 < c,
        region_within_limits(r),
        r.h >= k * c,
    ensures
        forall|i: int| 0 <= i < k ==> (#[trigger] vstack_rect(r, k, i)).h >= c,
        forall|i: int, j: int|
            0 <= i < j < k ==> (#[trigger] vstack_rect(r, k, i)).y + vstack_rect(r, k, i).h <= (
            #[trigger] vstack_rect(r, k, j)).y,
{
    assert forall|i: int| 0 <= i < k implies (#[trigger] vstack_rect(r, k, i)).h >= c by {
        lemma_vstack_in_region(r, k, i);
        assert((i + 1) * r.h / k - i * r.h / k >= c) by (nonlinear_arith)
            requires
                0 < k,
                0 <= i < k,
                0 < c,
                0 <= r.h,
                r.h >= k * c,
        ;
    }
    assert forall|i: int, j: int|
        0 <= i < j < k implies (#[trigger] vstack_rect(r, k, i)).y + vstack_rect(r, k, i).h <= (
    #[trigger] vstack_rect(r, k, j)).y by {
        lemma_vstack_in_region(r, k, i);
        lemma_vstack_in_region(r, k, j);
        assert((i + 1) * r.h / k <= j * r.h / k) by (nonlinear_arith)
            requires
                0 <= i,
                i < j,
                0 <= r.h,
                0 < k,
        ;
    }
}

/// A vertical stack row lies inside its region, and its coordinates are the
/// exact division expressions, free of the `u32` casts.
pub proof fn lemma_vstack_in_region(r: Region, k: int, i: int)
    requires
        0 <= i < k,
        region_within_limits(r),
    ensures
        ({
            let v = vstack_rect(r, k, i);
            &&& v.x == r.x
            &&& v.w == r.w
            &&& v.y == r.y + i * r.h / k
            &&& v.h == (i + 1) * r.h / k - i * r.h / k
            &&& rect_in_region(v, r)
            &&& region_within_limits(v)
        }),
{
    assert(0 <= i * r.h / k && i * r.h / k <= (i + 1) * r.h / k && (i + 1) * r.h / k
        <= r.h) by (nonlinear_arith)
        requires
            0 <= i < k,
            0 <= r.h,
    ;
}

/// The two columns of a master/stack split partition the region's width and
/// both lie inside the region.
pub proof fn lemma_columns_in_region(r: Region, ratio: int)
    requires
        0 <= ratio <= 100,
        region_within_limits(r),
    ensures
        ({
            let main = main_column(r, ratio);
            let stack = stack_column(r, ratio);
            &&& main.w == r.w * ratio / 100
            &&& main.x == r.x
            &&& stack.x == r.x + main.w
            &&& stack.w == r.w - main.w
            &&& main.y == r.y && stack.y == r.y && main.h == r.h && stack.h == r.h
            &&& rect_in_region(main, r)
            &&& rect_in_region(stack, r)
            &&& region_within_limits(main)
            &&& region_within_limits(stack)
        }),
{
    assert(0 <= r.w * ratio / 100 <= r.w) by (nonlinear_arith)
        requires
            0 <= ratio <= 100,
            0 <= r.w,
    ;
}

/// Every rectangle a layout emits lies inside the region it was given.
pub proof fn lemma_arrange_in_region(
    layout: Layout,
    r: Region,
    ring: Seq<WinId>,
    max_main: int,
    ratio: int,
)
    requires
        region_within_limits(r),
        0 <= max_main,
        0 <= ratio <= 100,
    ensures
        forall|i: int|
            0 <= i < arrange_spec(layout, r, ring, max_main, ratio).len() ==> rect_in_region(
                #[trigger] arrange_spec(layout, r, ring, max_main, ratio)[i].1,
                r,
            ),
{
    let rects = arrange_spec(layout, r, ring, max_main, ratio);
    assert forall|i: int| 0 <= i < rects.len() implies rect_in_region(rects[i].1, r) by {
        match layout {
            Layout::Floating => {},
            Layout::Monocle => {},
            Layout::Tiled => {
                let n = ring.len() as int;
                if n <= max_main || ratio >= 100 {
                    lemma_vstack_in_region(r, n, i);
                } else {
                    lemma_columns_in_region(r, ratio);
                    if i < max_main {
                        lemma_vstack_in_region(main_column(r, ratio), max_main, i);
                    } else {
                        lemma_vstack_in_region(stack_column(r, ratio), n - max_main, i - max_main);
                    }
                }
            },
        }
    }
}

/// Row `i` of `k` vertical rows in `r`, computed exactly as `vstack_rect`
/// describes it.
fn vstack_row(r: &Region, k: usize, i: usize) -> (out: Region)
    requires
        0 < k,
        i < k,
        region_within_limits(*r),
    ensures
        out == vstack_rect(*r, k as int, i as int),
{
    let kk: u128 = k as u128;
    let ii: u128 = i as u128;
    let hh: u128 = r.h as u128;
    proof {
        let i1 = ii as int;
        let h1 = hh as int;
        let k1 = kk as int;
        assert(i1 * h1 <= u128::MAX && (i1 + 1) * h1 <= u128::MAX && i1 * h1 / k1 <= h1 && (i1 + 1)
            * h1 / k1 <= h1 && i1 * h1 / k1 <= (i1 + 1) * h1 / k1) by (nonlinear_arith)
            requires
                0 < k1,
                0 <= i1 < k1,
                i1 <= u64::MAX,
                k1 <= u64::MAX,
                0 <= h1 <= u32::MAX,
        ;
    }
    let y0: u32 = (ii * hh / kk) as u32;
    let y1: u32 = ((ii + 1) * hh / kk) as u32;
    Region { x: r.x, y: r.y + y0, w: r.w, h: y1 - y0 }
}

/// The split position of a master/stack layout: `ratio` percent of the
/// region width, rounded down.
fn split_width(w: u32, ratio: u32) -> (out: u32)
    requires
        ratio <= 100,
    ensures
        out == w * ratio / 100,
        out <= w,
{
    proof {
        assert((w as int) * (ratio as int) <= (w as int) * 100 && (w as int) * (ratio as int) / 100
            <= w) by (nonlinear_arith)
            requires
                0 <= ratio <= 100,
                0 <= w as int,
        ;
    }
    ((w as u64) * (ratio as u64) / 100) as u32
}

/// Lay the ring out: produce the `(id, rectangle)` pair of every ring member
/// in ring order. The floating layout produces nothing.
pub fn arrange(
    layout: &Layout,
    region: &Region,
    ring: &Vec<WinId>,
    max_main: u32,
    ratio: u32,
) -> (out: Vec<(WinId, Region)>)
    requires
        region_within_limits(*region),
        ratio <= 100,
    ensures
        out@ == arrange_spec(*layout, *region, ring@, max_main as int, ratio as int),
{
    let mut out: Vec<(WinId, Region)> = Vec::new();
    let n = ring.len();
    match layout {
        Layout::Floating => {
            assert(out@ =~= arrange_spec(
                Layout::Floating,
                *region,
                ring@,
                max_main as int,
                ratio as int,
            ));
        },
        Layout::Monocle => {
            let mut i: usize = 0;
            while i < n
                invariant
                    i <= n,
                    n == ring.len(),
                    region_within_limits(*region),
                    out@.len() == i,
                    forall|j: int| 0 <= j < i ==> out@[j] == (ring@[j], *region),
                decreases n - i,
            {
                out.push((ring[i], *region));
                i = i + 1;
            }
            assert(out@ =~= arrange_spec(
                Layout::Monocle,
                *region,
                ring@,
                max_main as int,
                ratio as int,
            ));
        },
        Layout::Tiled => {
            if n == 0 {
                assert(out@ =~= arrange_spec(
                    Layout::Tiled,
                    *region,
                    ring@,
                    max_main as int,
                    ratio as int,
                ));
                return out;
            }
            if (n as u64) <= (max_main as u64) || ratio >= 100 {
                let mut i: usize = 0;
                while i < n
                    invariant
                        i <= n,
                        0 < n == ring.len(),
                        region_within_limits(*region),
                        n <= max_main || ratio >= 100,
                        out@.len() == i,
                        forall|j: int|
                            0 <= j < i ==> out@[j] == (
                                ring@[j],
                                tiled_rect(
                                    *region,
                                    n as int,
                                    max_main as int,
                                    ratio as int,
                                    j,
                                ),
                            ),
                    decreases n - i,
                {
                    let rect = vstack_row(region, n, i);
                    out.push((ring[i], rect));
                    i = i + 1;
                }
            } else {
                let mm: usize = max_main as usize;
                let wl = split_width(region.w, ratio);
                let left = Region { x: region.x, y: region.y, w: wl, h: region.h };
                let right = Region { x: region.x + wl, y: region.y, w: region.w - wl, h: region.h };
                assert(left == main_column(*region, ratio as int));
                assert(right == stack_column(*region, ratio as int));
                let mut i: usize = 0;
                while i < mm
                    invariant
                        i <= mm,
                        0 < n == ring.len(),
                        mm == max_main as usize,
                        mm < n,
                        ratio < 100,
                        region_within_limits(*region),
                        region_within_limits(left),
                        left == main_column(*region, ratio as int),
                        out@.len() == i,
                        forall|j: int|
                            0 <= j < i ==> out@[j] == (
                                ring@[j],
                                tiled_rect(
                                    *region,
                                    n as int,
                                    max_main as int,
                                    ratio as int,
                                    j,
                                ),
                            ),
                    decreases mm - i,
                {
                    let rect = vstack_row(&left, mm, i);
                    out.push((ring[i], rect));
                    i = i + 1;
                }
                while i < n
                    invariant
                        mm <= i <= n,
                        0 < n == ring.len(),
                        mm == max_main as usize,
                        mm < n,
                        ratio < 100,
                        region_within_limits(*region),
                        region_within_limits(right),
                        right == stack_column(*region, ratio as int),
                        out@.len() == i,
                        forall|j: int|
                            0 <= j < i ==> out@[j] == (
                                ring@[j],
                                tiled_rect(
                                    *region,
                                    n as int,
                                    max_main as int,
                                    ratio as int,
                                    j,
                                ),
                            ),
                    decreases n - i,
                {
                    let rect = vstack_row(&right, n - mm, i - mm);
                    out.push((ring[i], rect));
                    i = i + 1;
                }
            }
            assert(out@ =~= arrange_spec(
                Layout::Tiled,
                *region,
                ring@,
                max_main as int,
                ratio as int,
            ));
        },
    }
    out
}

} // verus!
