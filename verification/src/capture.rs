//! Copying a drawn frame into the memory that a client shares with the shell.
use vstd::prelude::*;

verus! {

/// The layouts of a pixel that clients offer.
#[derive(Clone, Copy, Debug, PartialEq, Eq, Structural)]
pub enum ShmFormat {
    Xrgb8888,
    Argb8888,
    /// Anything else.
    Other,
}

/// The layouts of a pixel that can be drawn.
#[derive(Clone, Copy, Debug, PartialEq, Eq, Structural)]
pub enum Fourcc {
    Xrgb8888,
    Argb8888,
}

/// The shape of a client's buffer.
#[derive(Clone, Copy, Debug, PartialEq, Eq, Structural)]
pub struct ShmTarget {
    pub w: i32,
    pub h: i32,
    pub stride: i32,
    pub fourcc: Fourcc,
}

/// The shape of a client's buffer, when its pixels are laid out in a way that
/// can be drawn.
pub fn shm_target(format: ShmFormat, w: i32, h: i32, stride: i32) -> (r: Option<ShmTarget>)
    ensures
        r == match format {
            ShmFormat::Xrgb8888 => Some(ShmTarget { w, h, stride, fourcc: Fourcc::Xrgb8888 }),
            ShmFormat::Argb8888 => Some(ShmTarget { w, h, stride, fourcc: Fourcc::Argb8888 }),
            ShmFormat::Other => None,
        },
{
    let fourcc: Fourcc = match format {
        ShmFormat::Xrgb8888 => Fourcc::Xrgb8888,
        ShmFormat::Argb8888 => Fourcc::Argb8888,
        ShmFormat::Other => {
            return None;
        },
    };
    Some(ShmTarget { w, h, stride, fourcc })
}

/// How many bytes of each row are copied: a row of pixels, or what a row of the
/// client's buffer holds of it.
pub open spec fn row_bytes(target: ShmTarget) -> int {
    if target.w * 4 <= target.stride {
        target.w * 4
    } else {
        target.stride as int
    }
}

/// Whether all rows fit, in the pixels that were read and in the pool from
/// `offset` on.
pub open spec fn rows_fit(pixels: int, pool: int, offset: int, target: ShmTarget) -> bool {
    &&& offset + target.stride * target.h <= pool
    &&& target.w * 4 * target.h <= pixels
}

/// Where the byte `x` of the row `y` stands in the pixels that were read, whose
/// rows have nothing between them.
pub open spec fn source_at(target: ShmTarget, y: int, x: int) -> int {
    y * (target.w * 4) + x
}

/// Where it stands in the pool.
pub open spec fn pool_at(offset: int, target: ShmTarget, y: int, x: int) -> int {
    offset + y * target.stride + x
}

/// Whether the byte at `at` of the pool belongs to one of the first `rows` rows.
pub open spec fn in_rows(at: int, offset: int, target: ShmTarget, rows: int) -> bool {
    exists|y: int, x: int|
        0 <= y < rows && 0 <= x < row_bytes(target) && at == #[trigger] pool_at(offset, target, y, x)
}

/// What the pool holds after the first `rows` rows were copied into it: the
/// bytes of those rows, and as before elsewhere.
pub open spec fn copied(
    before: Seq<u8>,
    after: Seq<u8>,
    pixels: Seq<u8>,
    offset: int,
    target: ShmTarget,
    rows: int,
) -> bool {
    &&& after.len() == before.len()
    &&& forall|y: int, x: int|
        0 <= y < rows && 0 <= x < row_bytes(target) ==> after[#[trigger] pool_at(offset, target, y, x)]
            == pixels[source_at(target, y, x)]
    &&& forall|at: int|
        0 <= at < before.len() && !in_rows(at, offset, target, rows) ==> #[trigger] after[at]
            == before[at]
}

/// Copy the pixels into the pool, row by row: the client's rows may be longer.
/// Nothing is written when they do not all fit.
pub fn copy_rows(pixels: &Vec<u8>, pool: &mut Vec<u8>, offset: usize, target: &ShmTarget) -> (r: bool)
    requires
        0 <= target.w && target.w * 4 <= i32::MAX,
        0 <= target.h,
        0 <= target.stride,
    ensures
        r == rows_fit(pixels@.len() as int, old(pool)@.len() as int, offset as int, *target),
        !r ==> final(pool)@ == old(pool)@,
        r ==> copied(
            old(pool)@,
            final(pool)@,
            pixels@,
            offset as int,
            *target,
            target.h as int,
        ),
{
    let src_stride: u128 = (target.w * 4) as u128;
    let dst_stride: u128 = target.stride as u128;
    let rows: u128 = target.h as u128;
    proof {
        assert(0 <= dst_stride * rows <= 0xffff_ffff * 0xffff_ffff) by (nonlinear_arith)
            requires
                0 <= dst_stride <= 0xffff_ffff,
                0 <= rows <= 0xffff_ffff,
        ;
        assert(0 <= src_stride * rows <= 0xffff_ffff * 0xffff_ffff) by (nonlinear_arith)
            requires
                0 <= src_stride <= 0xffff_ffff,
                0 <= rows <= 0xffff_ffff,
        ;
    }
    if offset as u128 + dst_stride * rows > pool.len() as u128 || (pixels.len() as u128) < src_stride
        * rows {
        return false;
    }
    let ghost before = pool@;
    let ghost t = *target;
    let src: usize = (target.w * 4) as usize;
    let dst: usize = target.stride as usize;
    let width: usize = if src <= dst {
        src
    } else {
        dst
    };
    let mut from: usize = 0;
    let mut to: usize = offset;
    let mut y: i32 = 0;
    while y < target.h
        invariant
            0 <= y <= target.h,
            t == *target,
            0 <= t.w && t.w * 4 <= i32::MAX,
            0 <= t.stride,
            src == t.w * 4,
            dst == t.stride,
            width == row_bytes(t),
            rows_fit(pixels@.len() as int, before.len() as int, offset as int, t),
            from == y * (t.w * 4),
            to == offset + y * t.stride,
            copied(before, pool@, pixels@, offset as int, t, y as int),
        decreases target.h - y,
    {
        proof {
            assert((y + 1) * (t.w * 4) <= t.h * (t.w * 4)) by (nonlinear_arith)
                requires
                    0 <= y < t.h,
                    0 <= t.w,
            ;
            assert((y + 1) * t.stride <= t.h * t.stride) by (nonlinear_arith)
                requires
                    0 <= y < t.h,
                    0 <= t.stride,
            ;
            assert((y + 1) * (t.w * 4) == y * (t.w * 4) + t.w * 4) by (nonlinear_arith);
            assert((y + 1) * t.stride == y * t.stride + t.stride) by (nonlinear_arith);
            assert(t.w * 4 * t.h == t.h * (t.w * 4)) by (nonlinear_arith);
            assert(t.stride * t.h == t.h * t.stride) by (nonlinear_arith);
            assert(from + src <= pixels.len());
            assert(to + dst <= pool.len());
        }
        let ghost start = pool@;
        let mut x: usize = 0;
        while x < width
            invariant
                x <= width,
                from + width <= pixels.len(),
                to + width <= pool.len(),
                pool.len() == start.len(),
                forall|at: int|
                    to <= at < to + x ==> #[trigger] pool@[at] == pixels@[from + (at - to)],
                forall|at: int|
                    0 <= at < start.len() && !(to <= at < to + x) ==> #[trigger] pool@[at] == start[at],
            decreases width - x,
        {
            pool.set(to + x, pixels[from + x]);
            x = x + 1;
        }
        proof {
            lemma_row_copied(before, start, pool@, pixels@, offset as int, t, y as int);
        }
        assert(to + dst <= pool.len());
        from = from + src;
        to = to + dst;
        y = y + 1;
    }
    true
}

/// One more row was copied.
proof fn lemma_row_copied(
    before: Seq<u8>,
    start: Seq<u8>,
    after: Seq<u8>,
    pixels: Seq<u8>,
    offset: int,
    t: ShmTarget,
    y: int,
)
    requires
        0 <= y < t.h,
        0 <= t.w,
        0 <= t.stride,
        0 <= offset,
        rows_fit(pixels.len() as int, before.len() as int, offset, t),
        copied(before, start, pixels, offset, t, y),
        after.len() == start.len(),
        forall|at: int|
            pool_at(offset, t, y, 0) <= at < pool_at(offset, t, y, row_bytes(t)) ==> #[trigger] after[at]
                == pixels[source_at(t, y, at - pool_at(offset, t, y, 0))],
        forall|at: int|
            0 <= at < start.len() && !(pool_at(offset, t, y, 0) <= at < pool_at(
                offset,
                t,
                y,
                row_bytes(t),
            )) ==> #[trigger] after[at] == start[at],
    ensures
        copied(before, after, pixels, offset, t, y + 1),
{
    assert forall|r: int, x: int| 0 <= r < y + 1 && 0 <= x < row_bytes(t) implies after[
    #[trigger] pool_at(offset, t, r, x)] == pixels[source_at(t, r, x)] by {
        let at = pool_at(offset, t, r, x);
        if r < y {
            lemma_rows_apart(t, r, y);
            lemma_rows_apart(t, y, t.h as int);
            assert(0 <= r * t.stride) by (nonlinear_arith)
                requires
                    0 <= r,
                    0 <= t.stride,
            ;
            assert(t.h * t.stride == t.stride * t.h) by (nonlinear_arith);
            assert(0 <= at < start.len());
            assert(after[at] == start[at]);
        } else {
            assert(after[at] == pixels[source_at(t, y, at - pool_at(offset, t, y, 0))]);
        }
    }
    assert forall|at: int| 0 <= at < before.len() && !in_rows(at, offset, t, y + 1) implies #[trigger] after[at]
        == before[at] by {
        if pool_at(offset, t, y, 0) <= at < pool_at(offset, t, y, row_bytes(t)) {
            assert(at == pool_at(offset, t, y, at - pool_at(offset, t, y, 0)));
        }
        if in_rows(at, offset, t, y) {
            let (r, x) = choose|r: int, x: int|
                0 <= r < y && 0 <= x < row_bytes(t) && at == #[trigger] pool_at(offset, t, r, x);
            assert(0 <= r < y + 1 && at == pool_at(offset, t, r, x));
        }
        assert(after[at] == start[at]);
    }
}

/// The rows of the pool come one after the other.
proof fn lemma_rows_apart(t: ShmTarget, r: int, y: int)
    requires
        r < y,
        0 <= t.stride,
    ensures
        r * t.stride + t.stride <= y * t.stride,
{
    assert((r + 1) * t.stride <= y * t.stride) by (nonlinear_arith)
        requires
            r + 1 <= y,
            0 <= t.stride,
    ;
    assert((r + 1) * t.stride == r * t.stride + t.stride) by (nonlinear_arith);
}

/// The shape of a buffer is taken as the client gave it, and its pixels are laid
/// out as the client said; a layout that cannot be drawn is refused.
pub proof fn law_buffer_keeps_its_layout(
    format: ShmFormat,
    w: i32,
    h: i32,
    stride: i32,
    r: Option<ShmTarget>,
)
    requires
        call_ensures(shm_target, (format, w, h, stride), r),
    ensures
        r is None <==> format == ShmFormat::Other,
        r is Some ==> r->0.w == w && r->0.h == h && r->0.stride == stride,
        r is Some ==> (r->0.fourcc == Fourcc::Argb8888 <==> format == ShmFormat::Argb8888),
        r is Some ==> (r->0.fourcc == Fourcc::Xrgb8888 <==> format == ShmFormat::Xrgb8888),
{
}

/// The pixel in column `x` of row `y` stands in the client's memory after `y` of
/// the client's rows and `x` pixels, byte for byte as it was read. What lies
/// before the picture or behind it is left alone.
pub proof fn law_pixel_stands_in_its_row(
    pixels: &Vec<u8>,
    pool: &mut Vec<u8>,
    offset: usize,
    target: &ShmTarget,
    r: bool,
    y: int,
    x: int,
    byte: int,
    at: int,
)
    requires
        call_ensures(copy_rows, (pixels, pool, offset, target), r),
        r,
        0 <= y < target.h,
        0 <= x < target.w,
        0 <= byte < 4,
        target.w * 4 <= target.stride,
        0 <= at < old(pool)@.len(),
        at < offset || at >= offset + target.stride * target.h,
    ensures
        final(pool)@.len() == old(pool)@.len(),
        final(pool)@[offset + y * target.stride + 4 * x + byte] == pixels@[4 * (y * target.w + x)
            + byte],
        final(pool)@[at] == old(pool)@[at],
{
    let t = *target;
    assert(y * (t.w * 4) + (4 * x + byte) == 4 * (y * t.w + x) + byte) by (nonlinear_arith);
    assert(pool_at(offset as int, t, y, 4 * x + byte) == offset + y * t.stride + 4 * x + byte);
    assert(source_at(t, y, 4 * x + byte) == 4 * (y * t.w + x) + byte);
    if in_rows(at, offset as int, t, t.h as int) {
        let (j, i) = choose|j: int, i: int|
            0 <= j < t.h && 0 <= i < row_bytes(t) && at == #[trigger] pool_at(offset as int, t, j, i);
        assert(0 <= j * t.stride && j * t.stride + t.stride <= t.stride * t.h) by (nonlinear_arith)
            requires
                0 <= j < t.h,
                0 <= t.stride,
        ;
    }
}

/// A picture that does not fit, in what was read or in the client's memory, is
/// not copied at all, and one that fits is.
pub proof fn law_picture_is_copied_whole_or_not(
    pixels: &Vec<u8>,
    pool: &mut Vec<u8>,
    offset: usize,
    target: &ShmTarget,
    r: bool,
)
    requires
        call_ensures(copy_rows, (pixels, pool, offset, target), r),
    ensures
        r <==> offset + target.stride * target.h <= old(pool)@.len() && target.w * 4 * target.h
            <= pixels@.len(),
        !r ==> final(pool)@ == old(pool)@,
{
}

} // verus!
