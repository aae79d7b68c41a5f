//! Which backend presents the shell, and how large its window is.
use vstd::prelude::*;

use crate::text::{chars_of, part, read_i32, same, trim, trimmed, written_within};

verus! {

/// The default size of the development window, in logical pixels.
pub const DEV_WINDOW_WIDTH: i32 = 1224;

pub const DEV_WINDOW_HEIGHT: i32 = 2700;

/// How many characters come before the first `x` or `X`.
pub open spec fn times_sign(s: Seq<char>) -> int
    decreases s.len(),
{
    if s.len() == 0 || s[0] == 'x' || s[0] == 'X' {
        0
    } else {
        1 + times_sign(s.skip(1))
    }
}

/// The size that `s` writes as width, `x` and height, if both are positive.
pub open spec fn size_written(s: Seq<char>) -> Option<(int, int)> {
    let i = times_sign(s);
    if i >= s.len() {
        None
    } else {
        match (
            written_within(trim(s.take(i)), i32::MIN as int, i32::MAX as int),
            written_within(trim(s.skip(i + 1)), i32::MIN as int, i32::MAX as int),
        ) {
            (Some(w), Some(h)) => if w > 0 && h > 0 {
                Some((w, h))
            } else {
                None
            },
            _ => None,
        }
    }
}

/// The size of the development window that a setting gives.
pub open spec fn dev_size(value: Option<Seq<char>>) -> (int, int) {
    match value {
        Some(s) => match size_written(s) {
            Some(size) => size,
            None => (DEV_WINDOW_WIDTH as int, DEV_WINDOW_HEIGHT as int),
        },
        None => (DEV_WINDOW_WIDTH as int, DEV_WINDOW_HEIGHT as int),
    }
}

/// Read `$SPRINGCHICK_WINIT_SIZE`; what cannot be read gives the default.
pub fn parse_dev_window_size(value: Option<&str>) -> (r: (i32, i32))
    ensures
        (r.0 as int, r.1 as int) == dev_size(
            match value {
                Some(s) => Some(s@),
                None => None,
            },
        ),
{
    let s: Vec<char> = match value {
        Some(v) => chars_of(v),
        None => return (DEV_WINDOW_WIDTH, DEV_WINDOW_HEIGHT),
    };
    let mut i: usize = 0;
    proof {
        assert(s@.skip(0) =~= s@);
    }
    while i < s.len() && s[i] != 'x' && s[i] != 'X'
        invariant
            i <= s.len(),
            times_sign(s@) == i + times_sign(s@.skip(i as int)),
        decreases s.len() - i,
    {
        proof {
            assert(s@.skip(i as int)[0] == s@[i as int]);
            assert(s@.skip(i as int).skip(1) =~= s@.skip(i + 1));
        }
        i = i + 1;
    }
    if i == s.len() {
        return (DEV_WINDOW_WIDTH, DEV_WINDOW_HEIGHT);
    }
    proof {
        assert(s@.skip(i as int)[0] == s@[i as int]);
        assert(s@.take(i as int) =~= s@.subrange(0, i as int));
        assert(s@.skip(i + 1) =~= s@.subrange(i + 1, s@.len() as int));
    }
    let w: Option<i32> = read_i32(&trimmed(&part(&s, 0, i)));
    let h: Option<i32> = read_i32(&trimmed(&part(&s, i + 1, s.len())));
    match (w, h) {
        (Some(w), Some(h)) if w > 0 && h > 0 => (w, h),
        _ => (DEV_WINDOW_WIDTH, DEV_WINDOW_HEIGHT),
    }
}

/// The two ways to present the shell: a window on a desktop, or the device's
/// own display.
#[derive(Clone, Copy, Debug, PartialEq, Eq, Structural)]
pub enum BackendKind {
    Winit,
    Drm,
}

impl BackendKind {
    /// Read `$SPRINGCHICK_BACKEND`: a window, unless it says `drm`.
    pub fn from_value(value: Option<&str>) -> (r: Self)
        ensures
            r == (if value is Some && value->0@ == "drm"@ {
                BackendKind::Drm
            } else {
                BackendKind::Winit
            }),
    {
        match value {
            Some(v) => {
                if same(v, "drm") {
                    BackendKind::Drm
                } else {
                    BackendKind::Winit
                }
            },
            None => BackendKind::Winit,
        }
    }
}

/// A size is written as a width, an `x` and a height, with white space around
/// the numbers if one likes. It is taken if both are positive, and the default is
/// taken otherwise.
pub proof fn law_written_size_is_taken(
    width: Seq<char>,
    sign: char,
    height: Seq<char>,
    value: &str,
    r: (i32, i32),
    w: int,
    h: int,
)
    requires
        sign == 'x' || sign == 'X',
        !width.contains('x') && !width.contains('X'),
        value@ == width + seq![sign] + height,
        written_within(trim(width), i32::MIN as int, i32::MAX as int) == Some(w),
        written_within(trim(height), i32::MIN as int, i32::MAX as int) == Some(h),
        call_ensures(parse_dev_window_size, (Some(value),), r),
    ensures
        w > 0 && h > 0 ==> r == (w as i32, h as i32),
        w <= 0 || h <= 0 ==> r == (DEV_WINDOW_WIDTH, DEV_WINDOW_HEIGHT),
{
    let s = value@;
    lemma_times_sign(width, sign, height);
    assert(s.take(width.len() as int) =~= width);
    assert(s.skip(width.len() as int + 1) =~= height);
}

/// The sign stands behind the width.
proof fn lemma_times_sign(width: Seq<char>, sign: char, height: Seq<char>)
    requires
        sign == 'x' || sign == 'X',
        !width.contains('x') && !width.contains('X'),
    ensures
        times_sign(width + seq![sign] + height) == width.len(),
    decreases width.len(),
{
    let s = width + seq![sign] + height;
    if width.len() > 0 {
        assert(s[0] == width[0]);
        assert(width.contains(width[0]));
        assert forall|c: char| width.skip(1).contains(c) implies width.contains(c) by {
            let k = choose|k: int| 0 <= k < width.skip(1).len() && width.skip(1)[k] == c;
            assert(width[k + 1] == c);
        }
        lemma_times_sign(width.skip(1), sign, height);
        assert(s.skip(1) =~= width.skip(1) + seq![sign] + height);
    } else {
        assert(s[0] == sign);
    }
}

/// The device's own display is used only where the setting asks for it by name.
pub proof fn law_window_unless_told_otherwise(value: Option<&str>, r: BackendKind)
    requires
        call_ensures(BackendKind::from_value, (value,), r),
    ensures
        r == BackendKind::Drm <==> value is Some && value->0@ == "drm"@,
{
}

} // verus!
