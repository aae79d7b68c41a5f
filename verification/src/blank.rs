//! When the panel is dark.
use vstd::prelude::*;

use crate::time::{elapsed, since, Nanos, SECOND};

verus! {

/// What a key press means.
#[derive(Clone, Copy, Debug, PartialEq, Eq, Structural)]
pub enum KeyWhileBlanked {
    /// The press woke the screen and must not fire its binding.
    Woke,
    /// The screen was on: handle the key as usual.
    Normal,
}

/// Whether the panel is dark, and whether that is news to the backend.
#[derive(Clone, Copy, Debug)]
pub struct Blank {
    pub blanked: bool,
    /// The state changed and the backend has not acted on it yet.
    pub dirty: bool,
}

impl Default for Blank {
    fn default() -> (r: Self)
        ensures
            !r.blanked && !r.dirty,
    {
        Blank { blanked: false, dirty: false }
    }
}

impl Blank {
    pub fn new() -> (r: Self)
        ensures
            !r.blanked && !r.dirty,
    {
        Blank { blanked: false, dirty: false }
    }

    pub fn is_blanked(&self) -> (r: bool)
        ensures
            r == self.blanked,
    {
        self.blanked
    }

    pub fn toggle(&mut self)
        ensures
            final(self).blanked == !old(self).blanked,
            final(self).dirty,
    {
        self.blanked = !self.blanked;
        self.dirty = true;
    }

    /// What the panel should be, once per change.
    pub fn take_change(&mut self) -> (r: Option<bool>)
        ensures
            final(self).blanked == old(self).blanked,
            !final(self).dirty,
            r == (if old(self).dirty {
                Some(old(self).blanked)
            } else {
                None
            }),
    {
        if self.dirty {
            self.dirty = false;
            Some(self.blanked)
        } else {
            None
        }
    }

    /// A key was pressed. While the panel is dark the press only wakes it.
    pub fn on_key_press(&mut self) -> (r: KeyWhileBlanked)
        ensures
            !final(self).blanked,
            final(self).dirty == (old(self).dirty || old(self).blanked),
            r == (if old(self).blanked {
                KeyWhileBlanked::Woke
            } else {
                KeyWhileBlanked::Normal
            }),
    {
        if self.blanked {
            self.blanked = false;
            self.dirty = true;
            KeyWhileBlanked::Woke
        } else {
            KeyWhileBlanked::Normal
        }
    }
}

/// How long ago the last input was, against the time after which the panel goes
/// dark.
#[derive(Clone, Copy, Debug)]
pub struct Idle {
    /// `None` when the panel never goes dark by itself.
    pub timeout: Option<Nanos>,
    pub last_activity: Nanos,
}

impl Idle {
    /// Whether the timeout has passed since the last input.
    pub open spec fn is_due(self, now: Nanos) -> bool {
        self.timeout is Some && elapsed(self.last_activity, now) >= self.timeout->0
    }

    /// The countdown once input arrived.
    pub open spec fn after_input(self, now: Nanos) -> Idle {
        Idle { last_activity: now, ..self }
    }

    /// Zero seconds turn it off. The countdown starts at `now`.
    pub fn new(secs: u64, now: Nanos) -> (r: Self)
        ensures
            r.timeout == (if secs > 0 {
                Some((secs * SECOND) as Nanos)
            } else {
                None
            }),
            r.last_activity == now,
    {
        Idle {
            timeout: if secs > 0 {
                Some(secs as Nanos * SECOND)
            } else {
                None
            },
            last_activity: now,
        }
    }

    /// Input arrived: the countdown starts again.
    pub fn activity(&mut self, now: Nanos)
        ensures
            *final(self) == old(self).after_input(now),
    {
        self.last_activity = now;
    }

    /// Whether the timeout has passed since the last input. Whether the panel is
    /// dark already is for the caller to see.
    pub fn should_blank(&self, now: Nanos) -> (r: bool)
        ensures
            r == self.is_due(now),
    {
        match self.timeout {
            Some(timeout) => since(self.last_activity, now) >= timeout,
            None => false,
        }
    }
}

/// Input holds the panel on for a whole timeout.
pub proof fn law_activity_restarts_the_countdown(idle: Idle, input: Nanos, now: Nanos)
    requires
        idle.timeout is Some,
    ensures
        idle.after_input(input).is_due(now) <==> elapsed(input, now) >= (idle.timeout->0),
{
}

/// A press lights the panel. It is kept from its binding exactly if the panel
/// was dark, and the backend then learns of the change.
pub proof fn law_press_lights_a_dark_panel(blank: &mut Blank, r: KeyWhileBlanked)
    requires
        call_ensures(Blank::on_key_press, (blank,), r),
    ensures
        !final(blank).blanked,
        r == KeyWhileBlanked::Woke <==> old(blank).blanked,
        old(blank).blanked ==> final(blank).dirty,
        !old(blank).blanked ==> *final(blank) == *old(blank),
{
}

/// The backend hears of a toggle once, and of what the panel should be after it.
pub proof fn law_toggle_is_told_once(
    a: &mut Blank,
    b: &mut Blank,
    c: &mut Blank,
    first: Option<bool>,
    second: Option<bool>,
)
    requires
        call_ensures(Blank::toggle, (a,), ()),
        *final(a) == *old(b),
        call_ensures(Blank::take_change, (b,), first),
        *final(b) == *old(c),
        call_ensures(Blank::take_change, (c,), second),
    ensures
        first == Some(!old(a).blanked),
        second is None,
        final(c).blanked == !old(a).blanked,
{
}

/// The panel is due to go dark once the seconds that were asked for have passed
/// since the last input, and never if none were asked for.
pub proof fn law_panel_goes_dark_after_its_seconds(
    secs: u64,
    start: Nanos,
    idle: Idle,
    now: Nanos,
    due: bool,
)
    requires
        call_ensures(Idle::new, (secs, start), idle),
        call_ensures(Idle::should_blank, (&idle, now), due),
    ensures
        secs == 0 ==> !due,
        secs > 0 ==> (due <==> now - start >= secs * 1_000_000_000),
{
}

/// Input starts the countdown anew and changes nothing else, so that the panel is
/// not due until all of it has passed.
pub proof fn law_input_starts_the_countdown_anew(idle: &mut Idle, at: Nanos, now: Nanos, due: bool, lit: bool)
    requires
        call_ensures(Idle::activity, (idle, at), ()),
        call_ensures(Idle::should_blank, (final(idle), now), due),
        now >= at,
    ensures
        final(idle).timeout == old(idle).timeout,
        due <==> (old(idle).timeout matches Some(t) && now - at >= t),
{
}

/// The panel is lit at first, and what it says of itself is what holds.
pub proof fn law_panel_is_lit_at_first(fresh: Blank, dark: bool, panel: Blank, r: bool)
    requires
        call_ensures(Blank::new, (), fresh),
        call_ensures(Blank::is_blanked, (&fresh,), dark),
        call_ensures(Blank::is_blanked, (&panel,), r),
    ensures
        !dark && !fresh.dirty,
        r <==> panel.blanked,
{
}

} // verus!
