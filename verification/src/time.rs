//! Time as the shell counts it: nanoseconds on a clock that never runs
//! backwards. Only differences matter, so where the clock starts does not.
use vstd::prelude::*;

verus! {

/// A moment, or a span of time, in nanoseconds.
pub type Nanos = u128;

/// One millisecond.
pub const MILLI: Nanos = 1_000_000;

/// One second.
pub const SECOND: Nanos = 1_000_000_000;

/// The time from `then` to `now`; none when `now` lies before `then`.
pub open spec fn elapsed(then: Nanos, now: Nanos) -> Nanos {
    if now >= then {
        (now - then) as Nanos
    } else {
        0
    }
}

/// The time from `then` to `now`; none when `now` lies before `then`.
pub fn since(then: Nanos, now: Nanos) -> (r: Nanos)
    ensures
        r == elapsed(then, now),
{
    if now >= then {
        now - then
    } else {
        0
    }
}

/// A span given in milliseconds.
pub open spec fn from_millis(ms: int) -> int {
    ms * 1_000_000
}

/// A span given in milliseconds.
pub fn millis(ms: u64) -> (r: Nanos)
    ensures
        r == from_millis(ms as int),
{
    ms as Nanos * MILLI
}

/// So many parts of a whole, between nothing and all of it.
#[derive(Clone, Copy, Debug, PartialEq, Eq, Structural)]
pub struct Share {
    pub part: Nanos,
    pub whole: Nanos,
}

impl Share {
    pub open spec fn wf(self) -> bool {
        self.part <= self.whole && self.whole > 0
    }

    pub open spec fn nothing() -> Share {
        Share { part: 0, whole: 1 }
    }

    pub open spec fn all() -> Share {
        Share { part: 1, whole: 1 }
    }

    pub fn none_of_it() -> (r: Self)
        ensures
            r == Share::nothing(),
    {
        Share { part: 0, whole: 1 }
    }

    pub fn all_of_it() -> (r: Self)
        ensures
            r == Share::all(),
    {
        Share { part: 1, whole: 1 }
    }
}

/// How much of `span` is over after `t`.
pub open spec fn over(t: Nanos, span: Nanos) -> Share {
    if t >= span {
        Share::all()
    } else {
        Share { part: t, whole: span }
    }
}

/// How much of `span` is left after `t`.
pub open spec fn left(t: Nanos, span: Nanos) -> Share {
    if t >= span {
        Share::nothing()
    } else {
        Share { part: (span - t) as Nanos, whole: span }
    }
}

/// How much of `span` is over after `t`.
pub fn share_over(t: Nanos, span: Nanos) -> (r: Share)
    ensures
        r == over(t, span),
        r.wf(),
{
    if t >= span {
        Share::all_of_it()
    } else {
        Share { part: t, whole: span }
    }
}

/// How much of `span` is left after `t`.
pub fn share_left(t: Nanos, span: Nanos) -> (r: Share)
    ensures
        r == left(t, span),
        r.wf(),
{
    if t >= span {
        Share::none_of_it()
    } else {
        Share { part: span - t, whole: span }
    }
}

/// Time that goes on adds up; a clock that goes back gives no time.
pub proof fn law_time_adds_up(a: Nanos, b: Nanos, c: Nanos, ab: Nanos, bc: Nanos, ac: Nanos, ba: Nanos)
    requires
        call_ensures(since, (a, b), ab),
        call_ensures(since, (b, c), bc),
        call_ensures(since, (a, c), ac),
        call_ensures(since, (b, a), ba),
    ensures
        a <= b <= c ==> ac == ab + bc,
        a <= b ==> a + ab == b,
        ab == 0 || ba == 0,
        ab == 0 && ba == 0 <==> a == b,
{
}

/// A thousand thousand nanoseconds make a millisecond.
pub proof fn law_millisecond_is_a_million_nanoseconds(ms: u64, r: Nanos)
    requires
        call_ensures(millis, (ms,), r),
    ensures
        r == ms * 1_000_000,
        r / 1_000_000 == ms,
{
}

/// What is over of a span and what is left of it make up the whole; all is over just
/// when the time has come.
pub proof fn law_over_and_left_make_a_whole(t: Nanos, span: Nanos, o: Share, l: Share)
    requires
        call_ensures(share_over, (t, span), o),
        call_ensures(share_left, (t, span), l),
    ensures
        o.whole == l.whole,
        o.part + l.part == o.whole,
        o.part == o.whole <==> t >= span,
        l.part == 0 <==> t >= span,
        t < span ==> o.part * span == t * o.whole,
        o.part <= o.whole && o.whole > 0,
{
}

} // verus!
