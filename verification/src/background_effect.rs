//! The parts of a surface behind which the screen is blurred.
use vstd::prelude::*;

verus! {

/// A rectangle of a surface, or of what is blurred behind it.
#[derive(Clone, Copy, Debug, PartialEq, Eq, Structural)]
pub struct RegionRect {
    pub x: i32,
    pub y: i32,
    pub w: i32,
    pub h: i32,
    /// Whether the rectangle belongs to the region, or is a hole in it.
    pub adds: bool,
}

/// The size of a surface.
#[derive(Clone, Copy, Debug, PartialEq, Eq, Structural)]
pub struct SurfaceSize {
    pub w: i32,
    pub h: i32,
}

pub open spec fn largest(a: int, b: int) -> int {
    if a >= b {
        a
    } else {
        b
    }
}

pub open spec fn smallest(a: int, b: int) -> int {
    if a <= b {
        a
    } else {
        b
    }
}

/// Whether a point lies in a rectangle.
pub open spec fn covers(r: RegionRect, px: int, py: int) -> bool {
    r.x <= px < r.x + r.w && r.y <= py < r.y + r.h
}

/// The part of a rectangle that lies on the surface, if there is one.
pub open spec fn clipped(r: RegionRect, size: SurfaceSize) -> Option<RegionRect> {
    if r.x < size.w && 0 < r.x + r.w && r.y < size.h && 0 < r.y + r.h {
        let left = largest(r.x as int, 0);
        let top = largest(r.y as int, 0);
        Some(
            RegionRect {
                x: left as i32,
                y: top as i32,
                w: (smallest(r.x + r.w, size.w as int) - left) as i32,
                h: (smallest(r.y + r.h, size.h as int) - top) as i32,
                adds: r.adds,
            },
        )
    } else {
        None
    }
}

fn clip(r: &RegionRect, size: &SurfaceSize) -> (out: Option<RegionRect>)
    requires
        r.w >= 0,
        r.h >= 0,
        size.w >= 0,
        size.h >= 0,
    ensures
        out == clipped(*r, *size),
{
    let right: i64 = r.x as i64 + r.w as i64;
    let bottom: i64 = r.y as i64 + r.h as i64;
    if !(r.x < size.w && 0 < right && r.y < size.h && 0 < bottom) {
        return None;
    }
    let left: i32 = if r.x >= 0 {
        r.x
    } else {
        0
    };
    let top: i32 = if r.y >= 0 {
        r.y
    } else {
        0
    };
    let x2: i32 = if right <= size.w as i64 {
        right as i32
    } else {
        size.w
    };
    let y2: i32 = if bottom <= size.h as i64 {
        bottom as i32
    } else {
        size.h
    };
    Some(RegionRect { x: left, y: top, w: x2 - left, h: y2 - top, adds: r.adds })
}

/// The parts of a region that lie on the surface, in order. Without a known size
/// the region stands as it is.
pub open spec fn clipped_region(rects: Seq<RegionRect>, size: Option<SurfaceSize>) -> Seq<RegionRect>
    decreases rects.len(),
{
    if rects.len() == 0 {
        Seq::empty()
    } else {
        let rest = clipped_region(rects.drop_last(), size);
        match size {
            Some(s) => match clipped(rects.last(), s) {
                Some(r) => rest.push(r),
                None => rest,
            },
            None => rest.push(rects.last()),
        }
    }
}

/// The parts of a region that lie on the surface: a client sets one that is too
/// large to say all of it, and the screen around the surface must not be
/// blurred.
pub fn blur_rects(rects: &Vec<RegionRect>, size: Option<SurfaceSize>) -> (out: Vec<RegionRect>)
    requires
        forall|i: int| 0 <= i < rects@.len() ==> (#[trigger] rects@[i]).w >= 0 && rects@[i].h >= 0,
        size is Some ==> size->0.w >= 0 && size->0.h >= 0,
    ensures
        out@ == clipped_region(rects@, size),
{
    let mut out: Vec<RegionRect> = Vec::new();
    let mut i: usize = 0;
    while i < rects.len()
        invariant
            i <= rects.len(),
            forall|k: int|
                0 <= k < rects@.len() ==> (#[trigger] rects@[k]).w >= 0 && rects@[k].h >= 0,
            size is Some ==> size->0.w >= 0 && size->0.h >= 0,
            out@ == clipped_region(rects@.take(i as int), size),
        decreases rects.len() - i,
    {
        proof {
            assert(rects@.take(i + 1).drop_last() =~= rects@.take(i as int));
            assert(rects@.take(i + 1).last() == rects@[i as int]);
        }
        let r: RegionRect = rects[i];
        match size {
            Some(s) => {
                match clip(&r, &s) {
                    Some(c) => {
                        out.push(c);
                    },
                    None => {},
                }
            },
            None => {
                out.push(r);
            },
        }
        i = i + 1;
    }
    proof {
        assert(rects@.take(i as int) =~= rects@);
    }
    out
}

/// Whether a surface has anything blurred behind it: what is drawn below it then
/// shows through, and cannot be left as it was.
pub fn has_blur_region(rects: &Option<Vec<RegionRect>>) -> (r: bool)
    ensures
        r == (match *rects {
            Some(v) => v@.len() > 0,
            None => false,
        }),
{
    match rects {
        Some(v) => v.len() > 0,
        None => false,
    }
}

/// What is clipped covers just the points that the rectangle and the surface
/// share.
pub proof fn law_clip_is_the_intersection(r: RegionRect, size: SurfaceSize, px: int, py: int)
    requires
        r.w >= 0,
        r.h >= 0,
        size.w >= 0,
        size.h >= 0,
    ensures
        (clipped(r, size) is Some && covers(clipped(r, size)->0, px, py)) <==> (covers(r, px, py) && 0
            <= px < size.w && 0 <= py < size.h),
{
}

/// Where the size of the surface is known, a point is blurred behind it, or left
/// out, exactly if it lies on the surface and in a rectangle of the client's that
/// says so; where it is not, the client's rectangles stand.
pub proof fn law_blur_stays_on_the_surface(
    rects: Vec<RegionRect>,
    size: Option<SurfaceSize>,
    out: Vec<RegionRect>,
    adds: bool,
    px: int,
    py: int,
)
    requires
        call_ensures(blur_rects, (&rects, size), out),
        forall|i: int| 0 <= i < rects@.len() ==> (#[trigger] rects@[i]).w >= 0 && rects@[i].h >= 0,
        size is Some ==> size->0.w >= 0 && size->0.h >= 0,
    ensures
        size is None ==> out@ == rects@,
        size is Some ==> ((exists|i: int|
            0 <= i < out@.len() && (#[trigger] out@[i]).adds == adds && covers(out@[i], px, py)) <==> (exists|
            k: int,
        |
            0 <= k < rects@.len() && (#[trigger] rects@[k]).adds == adds && covers(rects@[k], px, py)) && 0
            <= px < size->0.w && 0 <= py < size->0.h),
{
    match size {
        None => {
            lemma_unclipped(rects@);
        },
        Some(s) => {
            lemma_clipped_region(rects@, s, adds, px, py);
        },
    }
}

proof fn lemma_unclipped(rects: Seq<RegionRect>)
    ensures
        clipped_region(rects, None) == rects,
    decreases rects.len(),
{
    if rects.len() > 0 {
        lemma_unclipped(rects.drop_last());
        assert(rects.drop_last().push(rects.last()) =~= rects);
    } else {
        assert(clipped_region(rects, None) =~= rects);
    }
}

proof fn lemma_clipped_region(rects: Seq<RegionRect>, s: SurfaceSize, adds: bool, px: int, py: int)
    requires
        forall|i: int| 0 <= i < rects.len() ==> (#[trigger] rects[i]).w >= 0 && rects[i].h >= 0,
        s.w >= 0,
        s.h >= 0,
    ensures
        (exists|i: int|
            0 <= i < clipped_region(rects, Some(s)).len() && (#[trigger] clipped_region(
                rects,
                Some(s),
            )[i]).adds == adds && covers(clipped_region(rects, Some(s))[i], px, py)) <==> (exists|k: int|
            0 <= k < rects.len() && (#[trigger] rects[k]).adds == adds && covers(rects[k], px, py)) && 0
            <= px < s.w && 0 <= py < s.h,
    decreases rects.len(),
{
    if rects.len() > 0 {
        let less = rects.drop_last();
        let rest = clipped_region(less, Some(s));
        let now = clipped_region(rects, Some(s));
        let last = rects.last();
        assert(rects[rects.len() - 1] == last);
        assert forall|i: int| 0 <= i < less.len() implies (#[trigger] less[i]).w >= 0 && less[i].h >= 0 by {
            assert(less[i] == rects[i]);
        }
        lemma_clipped_region(less, s, adds, px, py);
        law_clip_is_the_intersection(last, s, px, py);
        if exists|i: int|
            0 <= i < now.len() && (#[trigger] now[i]).adds == adds && covers(now[i], px, py) {
            let i = choose|i: int|
                0 <= i < now.len() && (#[trigger] now[i]).adds == adds && covers(now[i], px, py);
            if i < rest.len() {
                assert(rest[i] == now[i]);
                let k = choose|k: int|
                    0 <= k < less.len() && (#[trigger] less[k]).adds == adds && covers(less[k], px, py);
                assert(rects[k] == less[k]);
            } else {
                assert(covers(last, px, py));
            }
        }
        if (exists|k: int|
            0 <= k < rects.len() && (#[trigger] rects[k]).adds == adds && covers(rects[k], px, py)) && 0
            <= px < s.w && 0 <= py < s.h {
            let k = choose|k: int|
                0 <= k < rects.len() && (#[trigger] rects[k]).adds == adds && covers(rects[k], px, py);
            if k < less.len() {
                assert(less[k] == rects[k]);
                let i = choose|i: int|
                    0 <= i < rest.len() && (#[trigger] rest[i]).adds == adds && covers(rest[i], px, py);
                assert(now[i] == rest[i]);
            } else {
                assert(now[rest.len() as int].adds == adds);
            }
        }
    }
}

/// A surface has something blurred behind it exactly if it gave a region with a
/// rectangle in it.
pub proof fn law_empty_region_blurs_nothing(rects: Option<Vec<RegionRect>>, r: bool)
    requires
        call_ensures(has_blur_region, (&rects,), r),
    ensures
        r <==> rects is Some && rects->0@.len() != 0,
{
}

} // verus!
