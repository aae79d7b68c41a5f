//! When the home pill is drawn.
//!
//! On arriving in an app the pill blinks once to say where it is, then fades
//! away. A touch of the bar zone brings it back for a moment, and it stays lit
//! for the whole of a drag, where it is the thing being dragged. On Home it is
//! not drawn at all. Only what is drawn changes: a hidden pill still swipes
//! like a visible one.
use vstd::prelude::*;

use crate::time::{elapsed, left, over, share_left, share_over, since, Nanos, Share};

verus! {

/// Arriving in an app: hold, dip, come back, hold, fade away.
pub const BLINK_HOLD: Nanos = 300_000_000;

pub const BLINK_DIP: Nanos = 150_000_000;

/// What is left of the pill where the dip is deepest, in twentieths. A pill that
/// vanished would read as a glitch and not as a wink.
pub const BLINK_DIP_ALPHA: Nanos = 3;

pub const BLINK_SETTLE: Nanos = 450_000_000;

pub const BLINK_FADE: Nanos = 500_000_000;

/// Touched while hidden: appear, stay for a beat, fade out.
pub const REVEAL_IN: Nanos = 120_000_000;

pub const REVEAL_HOLD: Nanos = 1_000_000_000;

pub const REVEAL_OUT: Nanos = 450_000_000;

/// What the shell shows, as far as the pill is concerned.
#[derive(Clone, Copy, Debug, PartialEq, Eq, Structural)]
pub enum BarMode {
    /// Home: never drawn.
    Off,
    /// A drag is in flight.
    Shown,
    /// In an app.
    Auto,
}

/// What the pill is doing.
#[derive(Clone, Copy, Debug, PartialEq, Eq, Structural)]
pub enum Phase {
    /// Drawn for as long as the drag lasts.
    Steady,
    /// The blink on arrival, since.
    Blink(Nanos),
    /// Out of the way.
    Hidden,
    /// Shown again after a touch, since.
    Reveal(Nanos),
}

/// When the home pill is drawn.
#[derive(Clone, Copy, Debug)]
pub struct BarHint {
    pub phase: Phase,
    pub mode: BarMode,
}

impl Default for BarHint {
    fn default() -> (r: Self)
        ensures
            r.phase == Phase::Hidden,
            r.mode == BarMode::Off,
            r.wf(),
    {
        BarHint { phase: Phase::Hidden, mode: BarMode::Off }
    }
}

impl BarHint {
    /// How long the blink lasts.
    pub const BLINK_TOTAL: Nanos = BLINK_HOLD + BLINK_DIP + BLINK_DIP + BLINK_SETTLE + BLINK_FADE;

    /// How long the pill is shown after a touch.
    pub const REVEAL_TOTAL: Nanos = REVEAL_IN + REVEAL_HOLD + REVEAL_OUT;

    /// How much of the pill is drawn after `t` of the blink: all of it, then less,
    /// then more again, then all of it, then less and less.
    pub open spec fn blink_share(t: Nanos) -> Share {
        let dip = BLINK_HOLD;
        let back = BLINK_HOLD + BLINK_DIP;
        let settle = back + BLINK_DIP;
        let fade = settle + BLINK_SETTLE;
        if t < dip || settle <= t < fade {
            Share::all()
        } else if t < back {
            Share {
                part: (20 * BLINK_DIP - (20 - BLINK_DIP_ALPHA) * (t - dip)) as Nanos,
                whole: (20 * BLINK_DIP) as Nanos,
            }
        } else if t < settle {
            Share {
                part: (BLINK_DIP_ALPHA * BLINK_DIP + (20 - BLINK_DIP_ALPHA) * (t - back)) as Nanos,
                whole: (20 * BLINK_DIP) as Nanos,
            }
        } else {
            left((t - fade) as Nanos, BLINK_FADE)
        }
    }

    /// How much of the pill is drawn `t` after a touch.
    pub open spec fn reveal_share(t: Nanos) -> Share {
        if t < REVEAL_IN {
            over(t, REVEAL_IN)
        } else if t < REVEAL_IN + REVEAL_HOLD {
            Share::all()
        } else {
            left((t - REVEAL_IN - REVEAL_HOLD) as Nanos, REVEAL_OUT)
        }
    }

    /// How much of the pill is drawn.
    pub open spec fn drawn(self, now: Nanos) -> Share {
        match self.phase {
            Phase::Steady => Share::all(),
            Phase::Hidden => Share::nothing(),
            Phase::Blink(t) => BarHint::blink_share(elapsed(t, now)),
            Phase::Reveal(t) => BarHint::reveal_share(elapsed(t, now)),
        }
    }

    /// Whether what is drawn still changes.
    pub open spec fn animates(self, now: Nanos) -> bool {
        match self.phase {
            Phase::Steady | Phase::Hidden => false,
            Phase::Blink(t) => elapsed(t, now) < BarHint::BLINK_TOTAL,
            Phase::Reveal(t) => elapsed(t, now) < BarHint::REVEAL_TOTAL,
        }
    }

    /// The phase once what the shell shows is `mode`.
    pub open spec fn with_mode(self, mode: BarMode, now: Nanos) -> BarHint {
        if mode == self.mode {
            self
        } else {
            BarHint {
                mode,
                phase: match mode {
                    BarMode::Off => Phase::Hidden,
                    BarMode::Shown => Phase::Steady,
                    BarMode::Auto => Phase::Blink(now),
                },
            }
        }
    }

    /// The pill once a finger landed in the bar zone.
    pub open spec fn after_touch(self, now: Nanos) -> BarHint {
        if self.mode == BarMode::Auto {
            BarHint { phase: Phase::Reveal(now), ..self }
        } else {
            self
        }
    }

    /// On Home the pill is hidden, and it is steady during a drag and only then.
    pub open spec fn wf(self) -> bool {
        &&& self.mode == BarMode::Off ==> self.phase == Phase::Hidden
        &&& self.mode == BarMode::Shown ==> self.phase == Phase::Steady
        &&& self.mode == BarMode::Auto ==> self.phase != Phase::Steady
    }

    /// The phase after a frame: a sequence that has ended leaves the pill
    /// hidden.
    pub open spec fn advanced(self, now: Nanos) -> BarHint {
        if (self.phase is Blink || self.phase is Reveal) && !self.animates(now) {
            BarHint { phase: Phase::Hidden, ..self }
        } else {
            self
        }
    }

    pub fn new() -> (r: Self)
        ensures
            r.phase == Phase::Hidden,
            r.mode == BarMode::Off,
            r.wf(),
    {
        BarHint { phase: Phase::Hidden, mode: BarMode::Off }
    }

    /// What the shell shows. Only a change starts a sequence, so it can be told
    /// the same every frame.
    pub fn set_mode(&mut self, mode: BarMode, now: Nanos)
        ensures
            *final(self) == old(self).with_mode(mode, now),
    {
        if mode == self.mode {
            return;
        }
        self.mode = mode;
        self.phase = match mode {
            BarMode::Off => Phase::Hidden,
            BarMode::Shown => Phase::Steady,
            BarMode::Auto => Phase::Blink(now),
        };
    }

    /// A finger landed in the bar zone. In an app that brings the pill back;
    /// elsewhere it changes nothing.
    pub fn touched(&mut self, now: Nanos)
        ensures
            *final(self) == old(self).after_touch(now),
    {
        if self.mode == BarMode::Auto {
            self.phase = Phase::Reveal(now);
        }
    }

    fn blink_alpha(t: Nanos) -> (r: Share)
        ensures
            r == BarHint::blink_share(t),
            r.wf(),
    {
        let dip: Nanos = BLINK_HOLD;
        let back: Nanos = dip + BLINK_DIP;
        let settle: Nanos = back + BLINK_DIP;
        let fade: Nanos = settle + BLINK_SETTLE;
        if t < dip {
            Share::all_of_it()
        } else if t < back {
            Share {
                part: 20 * BLINK_DIP - (20 - BLINK_DIP_ALPHA) * (t - dip),
                whole: 20 * BLINK_DIP,
            }
        } else if t < settle {
            Share {
                part: BLINK_DIP_ALPHA * BLINK_DIP + (20 - BLINK_DIP_ALPHA) * (t - back),
                whole: 20 * BLINK_DIP,
            }
        } else if t < fade {
            Share::all_of_it()
        } else {
            share_left(t - fade, BLINK_FADE)
        }
    }

    fn reveal_alpha(t: Nanos) -> (r: Share)
        ensures
            r == BarHint::reveal_share(t),
            r.wf(),
    {
        if t < REVEAL_IN {
            share_over(t, REVEAL_IN)
        } else if t < REVEAL_IN + REVEAL_HOLD {
            Share::all_of_it()
        } else {
            share_left(t - REVEAL_IN - REVEAL_HOLD, REVEAL_OUT)
        }
    }

    /// How much of the pill is drawn.
    pub fn alpha(&self, now: Nanos) -> (r: Share)
        ensures
            r == self.drawn(now),
            r.wf(),
    {
        match self.phase {
            Phase::Steady => Share::all_of_it(),
            Phase::Hidden => Share::none_of_it(),
            Phase::Blink(start) => Self::blink_alpha(since(start, now)),
            Phase::Reveal(start) => Self::reveal_alpha(since(start, now)),
        }
    }

    /// Retire a sequence that has ended. Called once a frame.
    pub fn advance(&mut self, now: Nanos)
        ensures
            *final(self) == old(self).advanced(now),
    {
        let done: bool = match self.phase {
            Phase::Blink(start) => since(start, now) >= Self::BLINK_TOTAL,
            Phase::Reveal(start) => since(start, now) >= Self::REVEAL_TOTAL,
            _ => false,
        };
        if done {
            self.phase = Phase::Hidden;
        }
    }

    /// Whether what is drawn still changes, so that frames must keep coming.
    pub fn is_animating(&self, now: Nanos) -> (r: bool)
        ensures
            r == self.animates(now),
    {
        match self.phase {
            Phase::Steady | Phase::Hidden => false,
            Phase::Blink(start) => since(start, now) < Self::BLINK_TOTAL,
            Phase::Reveal(start) => since(start, now) < Self::REVEAL_TOTAL,
        }
    }
}

/// The same mode, told again, does not restart the blink.
pub proof fn law_same_mode_changes_nothing(h: BarHint, mode: BarMode, t0: Nanos, t1: Nanos)
    ensures
        h.with_mode(mode, t0).with_mode(mode, t1) == h.with_mode(mode, t0),
{
}

/// In an app the pill gets out of the way by itself: a frame after the longest
/// sequence finds it hidden, and nothing is drawn for it any more.
pub proof fn law_pill_hides_itself(h: BarHint, now: Nanos)
    requires
        match h.phase {
            Phase::Blink(t) | Phase::Reveal(t) => elapsed(t, now) >= BarHint::REVEAL_TOTAL,
            Phase::Steady => false,
            Phase::Hidden => true,
        },
    ensures
        h.advanced(now).phase == Phase::Hidden,
        !h.advanced(now).animates(now),
        h.drawn(now).part == 0 && h.advanced(now).drawn(now) == Share::nothing(),
{
}

/// Retiring a sequence shows nowhere: whether anything moves stays as it was. What
/// still moves is left alone, and so is everything on Home and during a drag. In
/// an app, once nothing moves, the pill is hidden and stays so.
pub proof fn law_pill_at_rest_stays_hidden(h: BarHint, now: Nanos, later: Nanos)
    requires
        h.wf(),
    ensures
        h.advanced(now).animates(now) == h.animates(now),
        h.animates(now) ==> h.advanced(now) == h,
        h.mode != BarMode::Auto ==> h.advanced(now) == h,
        h.mode == BarMode::Auto && !h.animates(now) ==> h.advanced(now).drawn(later)
            == Share::nothing() && !h.advanced(now).animates(later),
{
}

/// Whatever happens, the pill is not drawn on Home and is drawn whole during a
/// drag: that holds at the start, and everything keeps it.
pub proof fn law_pill_follows_the_mode(h: BarHint, mode: BarMode, t0: Nanos, t1: Nanos)
    requires
        h.wf(),
    ensures
        h.with_mode(mode, t0).wf(),
        h.after_touch(t0).wf(),
        h.advanced(t0).wf(),
        h.mode == BarMode::Off ==> h.drawn(t1) == Share::nothing() && !h.animates(t1),
        h.mode == BarMode::Shown ==> h.drawn(t1) == Share::all() && !h.animates(t1),
{
}

/// On arriving in an app the pill blinks: whole for three tenths of a second, a
/// dip to three twentieths and back, whole again, then gone after a second and
/// eleven twentieths.
pub proof fn law_arrival_blinks(h: &mut BarHint, start: Nanos, now: Nanos, r: Share, moves: bool)
    requires
        call_ensures(BarHint::set_mode, (h, BarMode::Auto, start), ()),
        old(h).mode != BarMode::Auto,
        call_ensures(BarHint::alpha, (final(h), now), r),
        call_ensures(BarHint::is_animating, (final(h), now), moves),
        now >= start,
    ensures
        ({
            let t = now - start;
            &&& t < 300_000_000 || 600_000_000 <= t < 1_050_000_000 ==> r.part == r.whole
            &&& t == 450_000_000 ==> 20 * r.part == 3 * r.whole
            &&& 300_000_000 < t < 600_000_000 ==> 20 * r.part >= 3 * r.whole && r.part < r.whole
            &&& 1_050_000_000 <= t < 1_550_000_000 ==> r.whole == 500_000_000 && r.part == 1_550_000_000 - t
            &&& t >= 1_550_000_000 ==> r.part == 0
            &&& moves <==> t < 1_550_000_000
        }),
{
}

/// A touch in an app brings the pill back within twelve hundredths of a second,
/// for a second, and it is gone soon after; elsewhere a touch changes nothing.
pub proof fn law_touch_brings_the_pill_back(h: &mut BarHint, start: Nanos, now: Nanos, r: Share, moves: bool)
    requires
        call_ensures(BarHint::touched, (h, start), ()),
        call_ensures(BarHint::alpha, (final(h), now), r),
        call_ensures(BarHint::is_animating, (final(h), now), moves),
        now >= start,
    ensures
        old(h).mode != BarMode::Auto ==> *final(h) == *old(h),
        final(h).mode == old(h).mode,
        old(h).mode == BarMode::Auto ==> ({
            let t = now - start;
            &&& t < 120_000_000 ==> r.whole == 120_000_000 && r.part == t
            &&& 120_000_000 <= t < 1_120_000_000 ==> r.part == r.whole
            &&& 1_120_000_000 <= t < 1_570_000_000 ==> r.whole == 450_000_000 && r.part == 1_570_000_000 - t
            &&& t >= 1_570_000_000 ==> r.part == 0
            &&& moves <==> t < 1_570_000_000
        }),
{
}

/// The pill is not drawn on Home and is drawn whole for a drag, and being told
/// the same again changes nothing.
pub proof fn law_mode_decides_the_pill(h: &mut BarHint, mode: BarMode, start: Nanos, now: Nanos, r: Share)
    requires
        call_ensures(BarHint::set_mode, (h, mode, start), ()),
        call_ensures(BarHint::alpha, (final(h), now), r),
    ensures
        old(h).mode == mode ==> *final(h) == *old(h),
        final(h).mode == mode,
        old(h).mode != mode && mode == BarMode::Off ==> r.part == 0,
        old(h).mode != mode && mode == BarMode::Shown ==> r.part == r.whole,
{
}

/// A frame hides a pill whose blink or reveal has ended, and leaves any other
/// alone.
pub proof fn law_ended_sequence_hides_the_pill(h: &mut BarHint, start: Nanos, now: Nanos)
    requires
        call_ensures(BarHint::advance, (h, now), ()),
        now >= start,
    ensures
        final(h).mode == old(h).mode,
        old(h).phase == Phase::Blink(start) ==> final(h).phase == (if now - start >= 1_550_000_000 {
            Phase::Hidden
        } else {
            Phase::Blink(start)
        }),
        old(h).phase == Phase::Reveal(start) ==> final(h).phase == (if now - start >= 1_570_000_000 {
            Phase::Hidden
        } else {
            Phase::Reveal(start)
        }),
        old(h).phase == Phase::Steady || old(h).phase == Phase::Hidden ==> final(h).phase == old(h).phase,
{
}

/// Nothing is shown and nothing moves before a mode was set.
pub proof fn law_hint_starts_hidden(hint: BarHint, now: Nanos, moving: bool, drawn: Share)
    requires
        call_ensures(BarHint::new, (), hint),
        call_ensures(BarHint::is_animating, (&hint, now), moving),
        call_ensures(BarHint::alpha, (&hint, now), drawn),
    ensures
        hint.mode == BarMode::Off,
        !moving,
        drawn.part == 0,
{
}

} // verus!
