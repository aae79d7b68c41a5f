//! Landscape rotation of fullscreen apps.
//!
//! A fullscreen app is turned to match how the device is held, and goes back to
//! portrait when it leaves fullscreen or the device is held upright again. Two
//! things stand between the sensor and the turn: [`Settle`] waits until one
//! reading has held still, and [`Fade`] dips the screen to black around the
//! swap, because the client keeps drawing its old, wrongly shaped buffer until
//! it gets round to the resize.
use vstd::prelude::*;

use crate::text::same;
use crate::time::{elapsed, from_millis, left, millis, over, share_left, share_over, since, Nanos, Share};

verus! {

/// How the device is held, as the accelerometer reports it.
#[derive(Clone, Copy, Debug, PartialEq, Eq, Structural)]
pub enum DeviceOrientation {
    /// Upright portrait. Also the assumption when there is no sensor.
    Normal,
    /// Portrait, upside down.
    BottomUp,
    /// The device's left edge is up: it was turned clockwise.
    LeftUp,
    /// The device's right edge is up: it was turned anticlockwise.
    RightUp,
    /// Lying flat, or the sensor has not reported yet.
    Undefined,
}

impl Default for DeviceOrientation {
    fn default() -> (r: Self)
        ensures
            r == DeviceOrientation::Normal,
    {
        DeviceOrientation::Normal
    }
}

/// The orientation that the sensor writes as `s`.
pub open spec fn orientation_named(s: Seq<char>) -> DeviceOrientation {
    if s == "normal"@ {
        DeviceOrientation::Normal
    } else if s == "bottom-up"@ {
        DeviceOrientation::BottomUp
    } else if s == "left-up"@ {
        DeviceOrientation::LeftUp
    } else if s == "right-up"@ {
        DeviceOrientation::RightUp
    } else {
        DeviceOrientation::Undefined
    }
}

impl DeviceOrientation {
    /// Read the sensor's `AccelerometerOrientation` text. Anything unknown,
    /// its own `undefined` included, does not rotate.
    pub fn from_sensor(s: &str) -> (r: Self)
        ensures
            r == orientation_named(s@),
    {
        if same(s, "normal") {
            DeviceOrientation::Normal
        } else if same(s, "bottom-up") {
            DeviceOrientation::BottomUp
        } else if same(s, "left-up") {
            DeviceOrientation::LeftUp
        } else if same(s, "right-up") {
            DeviceOrientation::RightUp
        } else {
            DeviceOrientation::Undefined
        }
    }
}

/// Which way a fullscreen app is turned, named for the device edge that is up.
#[derive(Clone, Copy, Debug, PartialEq, Eq, Structural)]
pub enum Rotation {
    /// The app follows the output.
    Portrait,
    /// The left edge is up, so the app is turned a quarter anticlockwise: its
    /// top edge runs up the screen's left side.
    LeftUp,
    /// The right edge is up: the opposite quarter turn.
    RightUp,
}

impl Default for Rotation {
    fn default() -> (r: Self)
        ensures
            r == Rotation::Portrait,
    {
        Rotation::Portrait
    }
}

/// How an app should be turned.
///
/// Only fullscreen apps turn. Flat or unknown does not: with no reliable
/// reading things stay as they are. Upside down does not either: a phone shell
/// that flips over because the user leaned back is worse than one that never
/// does.
pub open spec fn rotation_wanted(device: DeviceOrientation, fullscreen: bool) -> Rotation {
    if fullscreen && device == DeviceOrientation::LeftUp {
        Rotation::LeftUp
    } else if fullscreen && device == DeviceOrientation::RightUp {
        Rotation::RightUp
    } else {
        Rotation::Portrait
    }
}

/// How an app should be turned, given how the device is held.
pub fn desired_rotation(device: DeviceOrientation, fullscreen: bool) -> (r: Rotation)
    ensures
        r == rotation_wanted(device, fullscreen),
{
    if !fullscreen {
        return Rotation::Portrait;
    }
    match device {
        DeviceOrientation::LeftUp => Rotation::LeftUp,
        DeviceOrientation::RightUp => Rotation::RightUp,
        DeviceOrientation::Normal | DeviceOrientation::BottomUp | DeviceOrientation::Undefined => {
            Rotation::Portrait
        },
    }
}

/// The eight ways a buffer can lie on an output: four quarter turns, each with
/// or without a flip.
#[derive(Clone, Copy, Debug, PartialEq, Eq, Structural)]
pub enum Transform {
    Normal,
    Turn90,
    Turn180,
    Turn270,
    Flipped,
    Flipped90,
    Flipped180,
    Flipped270,
}

/// Where a coordinate of the app comes from.
#[derive(Clone, Copy, Debug, PartialEq, Eq, Structural)]
pub struct Axis {
    /// From the distance to the top of the output, and not to its left.
    pub from_y: bool,
    /// Counted from the far edge.
    pub mirrored: bool,
}

/// The coordinate of a point of the output along an axis.
pub open spec fn along(a: Axis, p: (int, int), output: (i32, i32)) -> int {
    let v = if a.from_y {
        p.1
    } else {
        p.0
    };
    let extent = if a.from_y {
        output.1 as int
    } else {
        output.0 as int
    };
    if a.mirrored {
        extent - v
    } else {
        v
    }
}

impl Rotation {
    pub open spec fn swaps(self) -> bool {
        self != Rotation::Portrait
    }

    pub open spec fn drawn_with(self) -> Transform {
        match self {
            Rotation::Portrait => Transform::Normal,
            Rotation::LeftUp => Transform::Turn270,
            Rotation::RightUp => Transform::Turn90,
        }
    }

    pub open spec fn size_of(self, output: (i32, i32)) -> (i32, i32) {
        if self.swaps() {
            (output.1, output.0)
        } else {
            output
        }
    }

    /// How a touch on the output becomes one on the app.
    pub open spec fn axes(self) -> (Axis, Axis) {
        match self {
            Rotation::Portrait => (
                Axis { from_y: false, mirrored: false },
                Axis { from_y: true, mirrored: false },
            ),
            Rotation::LeftUp => (
                Axis { from_y: true, mirrored: true },
                Axis { from_y: false, mirrored: false },
            ),
            Rotation::RightUp => (
                Axis { from_y: true, mirrored: false },
                Axis { from_y: false, mirrored: true },
            ),
        }
    }

    /// Where a point of the output lies on the app.
    pub open spec fn mapped(self, p: (int, int), output: (i32, i32)) -> (int, int) {
        (along(self.axes().0, p, output), along(self.axes().1, p, output))
    }

    /// How a touch on the output becomes one on the app: where each of its two
    /// coordinates comes from.
    pub fn input_axes(self) -> (r: (Axis, Axis))
        ensures
            r == self.axes(),
    {
        match self {
            Rotation::Portrait => (
                Axis { from_y: false, mirrored: false },
                Axis { from_y: true, mirrored: false },
            ),
            Rotation::LeftUp => (
                Axis { from_y: true, mirrored: true },
                Axis { from_y: false, mirrored: false },
            ),
            Rotation::RightUp => (
                Axis { from_y: true, mirrored: false },
                Axis { from_y: false, mirrored: true },
            ),
        }
    }

    /// The extra transform that the app is drawn with.
    pub fn transform(self) -> (r: Transform)
        ensures
            r == self.drawn_with(),
    {
        match self {
            Rotation::Portrait => Transform::Normal,
            Rotation::LeftUp => Transform::Turn270,
            Rotation::RightUp => Transform::Turn90,
        }
    }

    /// Whether this rotation swaps width and height.
    pub fn swaps_axes(self) -> (r: bool)
        ensures
            r == self.swaps(),
    {
        matches!(self, Rotation::LeftUp | Rotation::RightUp)
    }

    /// The app's drawing area, given the output's: a turned app is as wide as
    /// the output is tall.
    pub fn app_size(self, output: (i32, i32)) -> (r: (i32, i32))
        ensures
            r == self.size_of(output),
    {
        if self.swaps_axes() {
            (output.1, output.0)
        } else {
            output
        }
    }
}

/// Turning the drawing area twice gives it back.
pub proof fn law_app_size_undoes_itself(r: Rotation, output: (i32, i32))
    ensures
        r.size_of(r.size_of(output)) == output,
{
}

/// The two landscapes are different turns, and neither is portrait.
pub proof fn law_landscapes_differ()
    ensures
        Rotation::LeftUp.drawn_with() != Rotation::RightUp.drawn_with(),
        forall|r: Rotation| r.swaps() <==> r.drawn_with() != Transform::Normal,
{
}

/// A touch on the output is one on the app, and no two touches become one.
pub proof fn law_touch_stays_on_the_app(
    r: Rotation,
    p: (int, int),
    q: (int, int),
    output: (i32, i32),
)
    requires
        0 <= p.0 <= output.0,
        0 <= p.1 <= output.1,
    ensures
        0 <= r.mapped(p, output).0 <= r.size_of(output).0,
        0 <= r.mapped(p, output).1 <= r.size_of(output).1,
        r.mapped(p, output) == r.mapped(q, output) ==> p == q,
{
}

/// The two landscapes are half a turn apart: what is the app's origin in the one
/// is its far corner in the other.
pub proof fn law_landscapes_are_opposite(p: (int, int), output: (i32, i32))
    ensures
        ({
            let a = Rotation::LeftUp.mapped(p, output);
            let b = Rotation::RightUp.mapped(p, output);
            a.0 + b.0 == output.1 && a.1 + b.1 == output.0
        }),
{
}

/// Waits for the accelerometer to make up its mind.
///
/// The sensor flips the moment the phone passes the diagonal, so a wobble would
/// turn the app and turn it straight back. Nothing is acted on until one
/// orientation has held still for `hold`.
#[derive(Clone, Copy, Debug)]
pub struct Settle {
    pub hold: Nanos,
    /// The orientation that is acted on.
    pub committed: DeviceOrientation,
    /// Another orientation that the sensor reports, and since when.
    pub pending: Option<(DeviceOrientation, Nanos)>,
}

impl Settle {
    /// What waits is never what is already acted on.
    pub open spec fn wf(self) -> bool {
        self.pending is Some ==> (self.pending->0).0 != self.committed
    }

    /// The state once the sensor has reported `o`.
    pub open spec fn observed(self, o: DeviceOrientation, now: Nanos) -> Settle {
        Settle {
            pending: if o == self.committed {
                None
            } else if self.pending is Some && (self.pending->0).0 == o {
                self.pending
            } else {
                Some((o, now))
            },
            ..self
        }
    }

    /// Whether the waiting orientation has held long enough.
    pub open spec fn due(self, now: Nanos) -> bool {
        self.pending is Some && elapsed((self.pending->0).1, now) >= self.hold
    }

    /// The state after a poll, and what the poll reports.
    pub open spec fn polled(self, now: Nanos) -> (Settle, Option<DeviceOrientation>) {
        if self.due(now) {
            (
                Settle { committed: (self.pending->0).0, pending: None, ..self },
                Some((self.pending->0).0),
            )
        } else {
            (self, None)
        }
    }

    /// A hold of zero commits at the next poll.
    pub fn new(hold_ms: u64, initial: DeviceOrientation) -> (r: Self)
        ensures
            r.hold == from_millis(hold_ms as int),
            r.committed == initial,
            r.pending is None,
            r.wf(),
    {
        Settle { hold: millis(hold_ms), committed: initial, pending: None }
    }

    /// Change the hold time. What already waits keeps its start and is judged
    /// by the new hold.
    pub fn set_hold(&mut self, hold_ms: u64)
        ensures
            final(self).hold == from_millis(hold_ms as int),
            final(self).committed == old(self).committed,
            final(self).pending == old(self).pending,
            old(self).wf() ==> final(self).wf(),
    {
        self.hold = millis(hold_ms);
    }

    /// The sensor reported `o`. A report of what is already acted on cancels
    /// what waits; a repeat of what waits leaves its clock running.
    pub fn observe(&mut self, o: DeviceOrientation, now: Nanos)
        ensures
            *final(self) == old(self).observed(o, now),
            final(self).wf(),
    {
        if o == self.committed {
            self.pending = None;
            return;
        }
        match self.pending {
            Some((p, _)) if p == o => {},
            _ => self.pending = Some((o, now)),
        }
    }

    /// Commit the waiting orientation once it has held for `hold`, and report
    /// it, once.
    pub fn poll(&mut self, now: Nanos) -> (r: Option<DeviceOrientation>)
        ensures
            (*final(self), r) == old(self).polled(now),
            old(self).wf() ==> final(self).wf(),
            old(self).wf() && r is Some ==> r->0 != old(self).committed,
    {
        let (o, started) = match self.pending {
            Some(p) => p,
            None => return None,
        };
        if since(started, now) < self.hold {
            return None;
        }
        self.pending = None;
        self.committed = o;
        Some(o)
    }

    /// Whether a change is waiting, so that frames must keep coming.
    pub fn is_pending(&self) -> (r: bool)
        ensures
            r == self.pending is Some,
    {
        self.pending.is_some()
    }
}

/// A change is reported exactly once: whatever the time, a poll right after one
/// that reported finds nothing.
pub proof fn law_settle_reports_once(s: Settle, now: Nanos, later: Nanos)
    requires
        s.polled(now).1 is Some,
    ensures
        s.polled(now).0.committed == s.polled(now).1->0,
        s.polled(now).0.polled(later) == (s.polled(now).0, None::<DeviceOrientation>),
{
}

/// A wobble back to where it was never fires.
pub proof fn law_settle_wobble_cancels(s: Settle, o: DeviceOrientation, t0: Nanos, t1: Nanos, t2: Nanos)
    ensures
        s.observed(o, t0).observed(s.committed, t1).polled(t2).1 is None,
        s.observed(o, t0).observed(s.committed, t1).committed == s.committed,
{
}

/// Repeated reports of one orientation do not push its deadline out: it commits
/// as if only the first had come.
pub proof fn law_settle_repeats_do_not_delay(s: Settle, o: DeviceOrientation, t0: Nanos, t1: Nanos, t2: Nanos)
    requires
        o != s.committed,
    ensures
        s.observed(o, t0).observed(o, t1).polled(t2) == s.observed(o, t0).polled(t2),
{
}

/// A report that has held for the whole hold is committed.
pub proof fn law_settle_commits(s: Settle, o: DeviceOrientation, t0: Nanos, now: Nanos)
    requires
        o != s.committed,
        s.pending is None,
    ensures
        s.observed(o, t0).polled(now).1 == (if elapsed(t0, now) >= s.hold {
            Some(o)
        } else {
            None
        }),
{
}

/// What a tick of the fade asks for.
#[derive(Clone, Copy, Debug, PartialEq, Eq, Structural)]
pub enum FadeStep {
    /// Nothing.
    Nothing,
    /// The screen is dark: swap the rotation and reconfigure the app now.
    Apply,
    /// The fade-in finished: the transition is over.
    Done,
}

/// Where the fade is.
#[derive(Clone, Copy, Debug, PartialEq, Eq, Structural)]
pub enum Phase {
    Idle,
    /// Fading to black, since.
    Out(Nanos),
    /// Black, waiting for the client to draw at its new size, since.
    Wait(Nanos),
    /// Fading back in, since.
    In(Nanos),
}

/// The dip to black that covers a change of orientation.
#[derive(Clone, Copy, Debug)]
pub struct Fade {
    pub dur: Nanos,
    pub phase: Phase,
}

impl Fade {
    /// How long the screen may stay black for a client that is slow to redraw.
    pub const MAX_WAIT: Nanos = 400_000_000;

    /// The phase after a change was announced, and whether to apply it at once.
    pub open spec fn begun(self, now: Nanos) -> (Phase, bool) {
        if self.dur == 0 {
            (self.phase, true)
        } else {
            match self.phase {
                Phase::Out(_) => (self.phase, false),
                Phase::Wait(_) => (self.phase, true),
                Phase::In(_) => (Phase::Wait(now), true),
                Phase::Idle => (Phase::Out(now), false),
            }
        }
    }

    /// The phase after a frame, and what the frame asks for.
    pub open spec fn ticked(self, now: Nanos) -> (Phase, FadeStep) {
        match self.phase {
            Phase::Idle => (Phase::Idle, FadeStep::Nothing),
            Phase::Out(t) => if elapsed(t, now) >= self.dur {
                (Phase::Wait(now), FadeStep::Apply)
            } else {
                (self.phase, FadeStep::Nothing)
            },
            Phase::Wait(t) => if elapsed(t, now) >= Fade::MAX_WAIT {
                (Phase::In(now), FadeStep::Nothing)
            } else {
                (self.phase, FadeStep::Nothing)
            },
            Phase::In(t) => if elapsed(t, now) >= self.dur {
                (Phase::Idle, FadeStep::Done)
            } else {
                (self.phase, FadeStep::Nothing)
            },
        }
    }

    pub open spec fn active(self) -> bool {
        self.phase != Phase::Idle
    }

    /// How dark the screen is.
    pub open spec fn darkness(self, now: Nanos) -> Share {
        match self.phase {
            Phase::Idle => Share::nothing(),
            Phase::Out(t) => over(elapsed(t, now), self.dur),
            Phase::Wait(_) => Share::all(),
            Phase::In(t) => left(elapsed(t, now), self.dur),
        }
    }

    /// The fade after a frame.
    pub open spec fn after_tick(self, now: Nanos) -> Fade {
        Fade { dur: self.dur, phase: self.ticked(now).0 }
    }

    /// A duration of zero turns the transition off.
    pub fn new(ms: u64) -> (r: Self)
        ensures
            r.dur == from_millis(ms as int),
            r.phase == Phase::Idle,
    {
        Fade { dur: millis(ms), phase: Phase::Idle }
    }

    pub fn set_duration(&mut self, ms: u64)
        ensures
            final(self).dur == from_millis(ms as int),
            final(self).phase == old(self).phase,
    {
        self.dur = millis(ms);
    }

    /// The rotation is about to change. True when the caller should apply it
    /// right now: fades are off, or the screen is dark (or coming back, and then
    /// goes dark again). A change while the screen is still going dark is picked
    /// up by the swap that is already due.
    pub fn begin(&mut self, now: Nanos) -> (r: bool)
        ensures
            final(self).dur == old(self).dur,
            (final(self).phase, r) == old(self).begun(now),
    {
        if self.dur == 0 {
            return true;
        }
        match self.phase {
            Phase::Out(_) => false,
            Phase::Wait(_) => true,
            Phase::In(_) => {
                self.phase = Phase::Wait(now);
                true
            },
            Phase::Idle => {
                self.phase = Phase::Out(now);
                false
            },
        }
    }

    /// Advance the fade, once a frame.
    pub fn tick(&mut self, now: Nanos) -> (r: FadeStep)
        ensures
            final(self).dur == old(self).dur,
            (final(self).phase, r) == old(self).ticked(now),
    {
        match self.phase {
            Phase::Idle => FadeStep::Nothing,
            Phase::Out(start) => {
                if since(start, now) >= self.dur {
                    self.phase = Phase::Wait(now);
                    FadeStep::Apply
                } else {
                    FadeStep::Nothing
                }
            },
            Phase::Wait(start) => {
                if since(start, now) >= Self::MAX_WAIT {
                    self.phase = Phase::In(now);
                }
                FadeStep::Nothing
            },
            Phase::In(start) => {
                if since(start, now) >= self.dur {
                    self.phase = Phase::Idle;
                    FadeStep::Done
                } else {
                    FadeStep::Nothing
                }
            },
        }
    }

    /// The client drew at its new size: start coming back. Ignored unless the
    /// screen is dark and waiting for it.
    pub fn content_ready(&mut self, now: Nanos)
        ensures
            final(self).dur == old(self).dur,
            final(self).phase == (if old(self).phase is Wait {
                Phase::In(now)
            } else {
                old(self).phase
            }),
    {
        if let Phase::Wait(_) = self.phase {
            self.phase = Phase::In(now);
        }
    }

    /// How dark the screen is, before that is eased at both ends.
    pub fn dim(&self, now: Nanos) -> (r: Share)
        ensures
            r == self.darkness(now),
            r.wf(),
    {
        match self.phase {
            Phase::Idle => Share::none_of_it(),
            Phase::Out(start) => share_over(since(start, now), self.dur),
            Phase::Wait(_) => Share::all_of_it(),
            Phase::In(start) => share_left(since(start, now), self.dur),
        }
    }

    /// Whether a transition is in flight.
    pub fn is_active(&self) -> (r: bool)
        ensures
            r == self.active(),
    {
        self.phase != Phase::Idle
    }
}

/// The swap is asked for only as the screen turns fully dark.
pub proof fn law_swap_happens_in_the_dark(f: Fade, now: Nanos)
    ensures
        f.ticked(now).1 == FadeStep::Apply ==> f.phase is Out && f.ticked(now).0 is Wait
            && f.darkness(now) == Share::all() && f.after_tick(now).darkness(now) == Share::all(),
        f.ticked(now).1 == FadeStep::Done ==> f.phase is In && !f.after_tick(now).active(),
{
}

/// A client that never redraws does not hold a black screen: three frames, each
/// a fade and the longest wait after the one before it, end any transition.
pub proof fn law_fade_always_ends(f: Fade, t1: Nanos, t2: Nanos, t3: Nanos)
    requires
        match f.phase {
            Phase::Idle => true,
            Phase::Out(t) | Phase::Wait(t) | Phase::In(t) => elapsed(t, t1) >= f.dur && elapsed(
                t,
                t1,
            ) >= Fade::MAX_WAIT,
        },
        elapsed(t1, t2) >= f.dur,
        elapsed(t1, t2) >= Fade::MAX_WAIT,
        elapsed(t2, t3) >= f.dur,
        elapsed(t2, t3) >= Fade::MAX_WAIT,
    ensures
        !f.after_tick(t1).after_tick(t2).after_tick(t3).active(),
{
}

/// With fades off nothing is ever dimmed, and every change is applied at once.
pub proof fn law_zero_duration_is_instant(f: Fade, now: Nanos)
    requires
        f.dur == 0,
        !f.active(),
    ensures
        f.begun(now) == (Phase::Idle, true),
        f.darkness(now) == Share::nothing(),
{
}

/// The sensor names the edge that is up; what it does not name is unknown.
pub proof fn law_sensor_names_the_edge(s: &str, r: DeviceOrientation)
    requires
        call_ensures(DeviceOrientation::from_sensor, (s,), r),
    ensures
        s@ == "normal"@ ==> r == DeviceOrientation::Normal,
        s@ == "bottom-up"@ ==> r == DeviceOrientation::BottomUp,
        s@ == "left-up"@ ==> r == DeviceOrientation::LeftUp,
        s@ == "right-up"@ ==> r == DeviceOrientation::RightUp,
        r == DeviceOrientation::Normal ==> s@ == "normal"@,
        r == DeviceOrientation::BottomUp ==> s@ == "bottom-up"@,
        r == DeviceOrientation::LeftUp ==> s@ == "left-up"@,
        r == DeviceOrientation::RightUp ==> s@ == "right-up"@,
{
    reveal_strlit("normal");
    reveal_strlit("bottom-up");
    reveal_strlit("left-up");
    reveal_strlit("right-up");
    assert("normal"@.len() == 6);
    assert("bottom-up"@.len() == 9);
    assert("left-up"@.len() == 7);
    assert("right-up"@.len() == 8);
}

/// An app is turned exactly while it fills the screen of a device on its side,
/// to the side that is up.
pub proof fn law_app_turns_with_the_device(device: DeviceOrientation, fullscreen: bool, r: Rotation)
    requires
        call_ensures(desired_rotation, (device, fullscreen), r),
    ensures
        r == Rotation::LeftUp <==> fullscreen && device == DeviceOrientation::LeftUp,
        r == Rotation::RightUp <==> fullscreen && device == DeviceOrientation::RightUp,
{
}

/// With the left edge up the app is drawn three quarters on, with the right edge
/// up one quarter. Its width is then the height of the output.
pub proof fn law_turned_app_swaps_its_sides(
    rotation: Rotation,
    t: Transform,
    swaps: bool,
    output: (i32, i32),
    size: (i32, i32),
)
    requires
        call_ensures(Rotation::transform, (rotation,), t),
        call_ensures(Rotation::swaps_axes, (rotation,), swaps),
        call_ensures(Rotation::app_size, (rotation, output), size),
    ensures
        rotation == Rotation::Portrait ==> t == Transform::Normal && !swaps && size == output,
        rotation == Rotation::LeftUp ==> t == Transform::Turn270,
        rotation == Rotation::RightUp ==> t == Transform::Turn90,
        rotation != Rotation::Portrait ==> swaps && size == (output.1, output.0),
{
}

/// With the left edge up the app's origin lies at the output's lower left corner,
/// with the right edge up at its upper right one, and its top edge runs along the
/// side from there.
pub proof fn law_app_starts_at_the_edge_that_is_up(
    rotation: Rotation,
    axes: (Axis, Axis),
    p: (int, int),
    output: (i32, i32),
)
    requires
        call_ensures(Rotation::input_axes, (rotation,), axes),
    ensures
        rotation == Rotation::Portrait ==> along(axes.0, p, output) == p.0 && along(axes.1, p, output)
            == p.1,
        rotation == Rotation::LeftUp ==> along(axes.0, p, output) == output.1 - p.1 && along(
            axes.1,
            p,
            output,
        ) == p.0,
        rotation == Rotation::RightUp ==> along(axes.0, p, output) == p.1 && along(axes.1, p, output)
            == output.0 - p.0,
{
}

/// An orientation is acted on once it has been reported first and then held for
/// the milliseconds that were asked for, and not before.
pub proof fn law_orientation_must_hold_still(
    hold_ms: u64,
    start: DeviceOrientation,
    settle: Settle,
    a: &mut Settle,
    b: &mut Settle,
    o: DeviceOrientation,
    at: Nanos,
    now: Nanos,
    r: Option<DeviceOrientation>,
    waits: bool,
)
    requires
        call_ensures(Settle::new, (hold_ms, start), settle),
        *old(a) == settle,
        call_ensures(Settle::observe, (a, o, at), ()),
        call_ensures(Settle::is_pending, (final(a),), waits),
        *final(a) == *old(b),
        call_ensures(Settle::poll, (b, now), r),
        now >= at,
    ensures
        waits <==> o != start,
        r is Some <==> o != start && now - at >= hold_ms * 1_000_000,
        r is Some ==> r->0 == o && final(b).committed == o,
        r is None ==> final(b).committed == start,
{
}

/// A report of another orientation than the waiting one starts the wait anew, a
/// repeat does not, and one of what is acted on ends it.
pub proof fn law_new_report_starts_the_wait(
    settle: &mut Settle,
    o: DeviceOrientation,
    now: Nanos,
    waiting: DeviceOrientation,
    since: Nanos,
)
    requires
        call_ensures(Settle::observe, (settle, o, now), ()),
        old(settle).pending == Some((waiting, since)),
        waiting != old(settle).committed,
    ensures
        o == old(settle).committed ==> final(settle).pending is None,
        o == waiting ==> final(settle).pending == Some((waiting, since)),
        o != old(settle).committed && o != waiting ==> final(settle).pending == Some((o, now)),
        final(settle).committed == old(settle).committed,
        final(settle).hold == old(settle).hold,
{
}

/// A change is applied at once where fades are off or the screen is dark or
/// coming back; otherwise the screen goes dark first.
pub proof fn law_change_waits_for_the_dark(fade: &mut Fade, now: Nanos, r: bool)
    requires
        call_ensures(Fade::begin, (fade, now), r),
    ensures
        r <==> old(fade).dur == 0 || old(fade).phase is Wait || old(fade).phase is In,
        !r ==> final(fade).phase is Out,
        old(fade).dur > 0 && old(fade).phase == Phase::Idle ==> final(fade).phase == Phase::Out(now),
        old(fade).dur > 0 && old(fade).phase is In ==> final(fade).phase == Phase::Wait(now),
        old(fade).phase is Out || old(fade).phase is Wait || old(fade).dur == 0 ==> final(fade).phase
            == old(fade).phase,
        final(fade).dur == old(fade).dur,
{
}

/// A fade goes dark for its duration, waits for the client no longer than four
/// tenths of a second, and comes back for its duration: then it is done.
pub proof fn law_fade_goes_through_its_phases(fade: &mut Fade, start: Nanos, now: Nanos, r: FadeStep)
    requires
        call_ensures(Fade::tick, (fade, now), r),
        now >= start,
        match old(fade).phase {
            Phase::Idle => true,
            Phase::Out(t) | Phase::Wait(t) | Phase::In(t) => t == start,
        },
    ensures
        r == FadeStep::Apply <==> old(fade).phase is Out && now - start >= old(fade).dur,
        r == FadeStep::Done <==> old(fade).phase is In && now - start >= old(fade).dur,
        r == FadeStep::Apply ==> final(fade).phase == Phase::Wait(now),
        r == FadeStep::Done ==> final(fade).phase == Phase::Idle,
        old(fade).phase is Wait ==> final(fade).phase == (if now - start >= 400_000_000 {
            Phase::In(now)
        } else {
            old(fade).phase
        }),
        r == FadeStep::Nothing && !(old(fade).phase is Wait) ==> final(fade).phase == old(fade).phase,
        final(fade).dur == old(fade).dur,
{
}

/// The client's first frame in the new size brings a dark screen back, and any
/// other screen is left alone.
pub proof fn law_new_frame_brings_the_screen_back(fade: &mut Fade, now: Nanos)
    requires
        call_ensures(Fade::content_ready, (fade, now), ()),
    ensures
        old(fade).phase is Wait ==> final(fade).phase == Phase::In(now),
        !(old(fade).phase is Wait) ==> final(fade).phase == old(fade).phase,
        final(fade).dur == old(fade).dur,
{
}

/// The screen darkens as it fades out and lightens as it fades in: the part that
/// is dark grows with the time and shrinks with it.
pub proof fn law_screen_darkens_and_lightens(fade: Fade, start: Nanos, now: Nanos, r: Share)
    requires
        call_ensures(Fade::dim, (&fade, now), r),
        fade.dur > 0,
        start <= now <= start + fade.dur,
    ensures
        fade.phase == Phase::Out(start) ==> r.part * fade.dur == (now - start) * r.whole,
        fade.phase == Phase::In(start) ==> r.part * fade.dur == (fade.dur - (now - start)) * r.whole,
        fade.phase is Wait ==> r.part == r.whole,
        fade.phase == Phase::Idle ==> r.part == 0,
{
    let t = now - start;
    let d = fade.dur as int;
    assert(1 * d == d * 1 && t * 1 == t && 0 * d == 0 && (d - t) * 1 == d - t && 1 * d == d)
        by (nonlinear_arith);
}

/// The time that an orientation must hold, and that of a fade, are given in
/// milliseconds; to change one changes nothing that is under way.
pub proof fn law_times_are_set_in_milliseconds(
    settle: &mut Settle,
    hold: u64,
    fade: &mut Fade,
    ms: u64,
    fresh: Fade,
    active: bool,
    moving: bool,
)
    requires
        call_ensures(Settle::set_hold, (settle, hold), ()),
        call_ensures(Fade::set_duration, (fade, ms), ()),
        call_ensures(Fade::new, (ms,), fresh),
        call_ensures(Fade::is_active, (&fresh,), active),
        call_ensures(Fade::is_active, (final(fade),), moving),
    ensures
        final(settle).hold == hold * 1_000_000,
        final(settle).committed == old(settle).committed,
        final(settle).pending == old(settle).pending,
        final(fade).dur == ms * 1_000_000,
        final(fade).phase == old(fade).phase,
        fresh.dur == ms * 1_000_000,
        !active,
        moving <==> !(old(fade).phase is Idle),
{
}

} // verus!
