//! Locking the session: what may be drawn, and when the lock client is told.
use vstd::prelude::*;

verus! {

/// What is on screen because of the lock.
#[derive(Clone, Copy, Debug, PartialEq, Eq, Structural)]
pub enum LockView {
    /// No lock: the shell as usual.
    Unlocked,
    /// The lock surface, and nothing else.
    Surface,
    /// Locked without a usable surface: black.
    Blank,
}

/// What is on screen because of the lock.
pub open spec fn view_of(locked: bool, has_surface: bool) -> LockView {
    if !locked {
        LockView::Unlocked
    } else if has_surface {
        LockView::Surface
    } else {
        LockView::Blank
    }
}

/// What is on screen because of the lock. A locked session without a surface
/// still hides everything.
pub fn lock_view(locked: bool, has_surface: bool) -> (r: LockView)
    ensures
        r == view_of(locked, has_surface),
{
    if !locked {
        LockView::Unlocked
    } else if has_surface {
        LockView::Surface
    } else {
        LockView::Blank
    }
}

/// What has to happen around a change of the lock.
#[derive(Clone, Copy, Debug, PartialEq, Eq, Structural)]
pub enum LockStep {
    /// A half-finished swipe or a held icon is over.
    CancelGestures,
    /// The next frame has to paint everything: the lock painted over the whole
    /// screen, and what the app changed since does not tell.
    ForgetLastPresent,
    /// A frame is due.
    Redraw,
}

/// The lock of the session.
#[derive(Clone, Copy, Debug, PartialEq, Eq, Structural)]
pub struct SessionLock {
    pub locked: bool,
    /// The client waits to be told that the lock holds.
    pub pending: bool,
    /// Frames prepared since the lock engaged, until the client is told.
    pub frames: u32,
    /// The number of the lock client's surface.
    pub surface: Option<u64>,
}

impl SessionLock {
    /// The client is told after one frame, and waits only while locked.
    pub open spec fn wf(self) -> bool {
        self.frames <= 1 && (self.pending ==> self.locked)
    }

    pub open spec fn engaged(self) -> SessionLock {
        SessionLock { locked: true, pending: true, frames: 0, surface: self.surface }
    }

    pub open spec fn released(self) -> SessionLock {
        SessionLock { locked: false, pending: false, frames: 0, surface: None }
    }

    /// The lock after one more frame.
    pub open spec fn ticked(self) -> SessionLock {
        if !self.pending {
            self
        } else if self.frames >= 1 {
            SessionLock { pending: false, ..self }
        } else {
            SessionLock { frames: (self.frames + 1) as u32, ..self }
        }
    }

    /// Whether the client is told on this frame.
    pub open spec fn confirms(self) -> bool {
        self.pending && self.frames >= 1
    }

    pub fn new() -> (r: Self)
        ensures
            r == (SessionLock { locked: false, pending: false, frames: 0, surface: None }),
            r.wf(),
    {
        SessionLock { locked: false, pending: false, frames: 0, surface: None }
    }

    /// Whether nothing but the lock surface may be shown, and no input may reach
    /// the shell.
    pub fn is_locked(&self) -> (r: bool)
        ensures
            r == self.locked,
    {
        self.locked
    }

    /// The lock surface, when there is one and it is alive.
    pub fn wl_surface(&self, alive: bool) -> (r: Option<u64>)
        ensures
            r == (if alive {
                self.surface
            } else {
                None
            }),
    {
        if alive {
            self.surface
        } else {
            None
        }
    }

    /// What to draw. `alive` is whether the lock surface, if any, is.
    pub fn view(&self, alive: bool) -> (r: LockView)
        ensures
            r == view_of(self.locked, self.surface is Some && alive),
    {
        lock_view(self.locked, self.wl_surface(alive).is_some())
    }

    /// Whether the client still waits, so that frames must go on being drawn.
    pub fn needs_frame(&self) -> (r: bool)
        ensures
            r == self.pending,
    {
        self.pending
    }

    /// A client asks for the lock. The screen is hidden from this frame on; the
    /// client is told on a later one.
    pub fn lock(&mut self) -> (steps: Vec<LockStep>)
        ensures
            *final(self) == old(self).engaged(),
            final(self).wf(),
            steps@ == seq![LockStep::CancelGestures, LockStep::Redraw],
    {
        self.locked = true;
        self.pending = true;
        self.frames = 0;
        let mut steps: Vec<LockStep> = Vec::new();
        steps.push(LockStep::CancelGestures);
        steps.push(LockStep::Redraw);
        steps
    }

    /// The client gives the lock up.
    pub fn unlock(&mut self) -> (steps: Vec<LockStep>)
        ensures
            *final(self) == old(self).released(),
            final(self).wf(),
            steps@ == seq![LockStep::ForgetLastPresent, LockStep::Redraw],
    {
        self.locked = false;
        self.pending = false;
        self.frames = 0;
        self.surface = None;
        let mut steps: Vec<LockStep> = Vec::new();
        steps.push(LockStep::ForgetLastPresent);
        steps.push(LockStep::Redraw);
        steps
    }

    /// The client made its surface. A frame is due.
    pub fn set_surface(&mut self, surface: u64)
        ensures
            *final(self) == (SessionLock { surface: Some(surface), ..*old(self) }),
    {
        self.surface = Some(surface);
    }

    /// The surface is gone: the client unlocked, or died holding the lock. A
    /// frame is due, or the screen would keep showing what it drew last.
    pub fn forget_surface(&mut self)
        ensures
            *final(self) == (SessionLock { surface: None, ..*old(self) }),
    {
        self.surface = None;
    }

    /// Once per frame: whether the client is to be told now that the lock holds.
    pub fn tick(&mut self) -> (confirm: bool)
        requires
            old(self).wf(),
        ensures
            *final(self) == old(self).ticked(),
            final(self).wf(),
            confirm == old(self).confirms(),
    {
        if !self.pending {
            return false;
        }
        if self.frames >= 1 {
            self.pending = false;
            true
        } else {
            self.frames = self.frames + 1;
            false
        }
    }
}

/// Only giving the lock up unlocks: a frame, a new surface or a dead one leave
/// the session hidden.
pub proof fn law_lock_holds_until_released(lock: SessionLock, surface: u64, alive: bool)
    requires
        lock.locked,
    ensures
        lock.ticked().locked,
        lock.engaged().locked,
        view_of(lock.locked, lock.surface is Some && alive) != LockView::Unlocked,
        view_of(lock.ticked().locked, false) == LockView::Blank,
        view_of(lock.released().locked, alive) == LockView::Unlocked,
{
}

/// The client is told on the second frame after it asked, once.
pub proof fn law_client_is_told_once_after_a_frame(lock: SessionLock)
    ensures
        !lock.engaged().confirms(),
        lock.engaged().ticked().confirms(),
        !lock.engaged().ticked().ticked().confirms(),
        !lock.engaged().ticked().ticked().pending,
{
}

/// What is drawn follows the lock: the shell only while there is none, and the
/// lock's surface only while it is alive.
pub proof fn law_locked_session_shows_the_lock_alone(lock: SessionLock, alive: bool, v: LockView)
    requires
        call_ensures(SessionLock::view, (&lock, alive), v),
    ensures
        v == LockView::Unlocked <==> !lock.locked,
        v == LockView::Surface <==> lock.locked && lock.surface is Some && alive,
        v == LockView::Blank <==> lock.locked && !(lock.surface is Some && alive),
{
}

/// From the request on the session is locked and its client waits. Gestures end,
/// and a frame is due.
pub proof fn law_request_locks_at_once(lock: &mut SessionLock, steps: Vec<LockStep>, waits: bool)
    requires
        call_ensures(SessionLock::lock, (lock,), steps),
        call_ensures(SessionLock::needs_frame, (final(lock),), waits),
    ensures
        final(lock).locked,
        final(lock).surface == old(lock).surface,
        waits,
        steps@.contains(LockStep::CancelGestures),
        steps@.contains(LockStep::Redraw),
{
    assert(steps@[0] == LockStep::CancelGestures);
    assert(steps@[1] == LockStep::Redraw);
}

/// After the lock everything is painted again, and nothing of it is left.
pub proof fn law_unlocking_paints_everything(lock: &mut SessionLock, steps: Vec<LockStep>)
    requires
        call_ensures(SessionLock::unlock, (lock,), steps),
    ensures
        !final(lock).locked,
        !final(lock).pending,
        final(lock).surface is None,
        steps@.contains(LockStep::ForgetLastPresent),
        steps@.contains(LockStep::Redraw),
{
    assert(steps@[0] == LockStep::ForgetLastPresent);
    assert(steps@[1] == LockStep::Redraw);
}

/// Of the frames after a request the second tells the client, and no other does.
pub proof fn law_second_frame_tells_the_client(
    a: &mut SessionLock,
    b: &mut SessionLock,
    c: &mut SessionLock,
    d: &mut SessionLock,
    steps: Vec<LockStep>,
    first: bool,
    second: bool,
    third: bool,
)
    requires
        call_ensures(SessionLock::lock, (a,), steps),
        *final(a) == *old(b),
        call_ensures(SessionLock::tick, (b,), first),
        *final(b) == *old(c),
        call_ensures(SessionLock::tick, (c,), second),
        *final(c) == *old(d),
        call_ensures(SessionLock::tick, (d,), third),
    ensures
        !first,
        second,
        !third,
        final(d).locked,
{
}

/// A session that is not locked is shown; a locked one shows the surface of its
/// lock, and nothing where that is missing.
pub proof fn law_lock_hides_the_session(locked: bool, has_surface: bool, r: LockView)
    requires
        call_ensures(lock_view, (locked, has_surface), r),
    ensures
        r is Unlocked <==> !locked,
        r is Surface <==> locked && has_surface,
        r is Blank <==> locked && !has_surface,
{
}

/// A session starts unlocked, without a surface.
pub proof fn law_session_starts_unlocked(lock: SessionLock, locked: bool, alive: bool, surface: Option<u64>)
    requires
        call_ensures(SessionLock::new, (), lock),
        call_ensures(SessionLock::is_locked, (&lock,), locked),
        call_ensures(SessionLock::wl_surface, (&lock, alive), surface),
    ensures
        !locked,
        surface is None,
        !lock.pending && lock.frames == 0,
{
}

/// Whether a session is locked is what it says.
pub proof fn law_lock_tells_its_state(lock: SessionLock, locked: bool)
    requires
        call_ensures(SessionLock::is_locked, (&lock,), locked),
    ensures
        locked <==> lock.locked,
{
}

/// The surface that was set is the one of the lock while it lives, and none once it
/// was forgotten; neither locks nor unlocks.
pub proof fn law_lock_surface_comes_and_goes(
    a: &mut SessionLock,
    surface: u64,
    shown: Option<u64>,
    gone: Option<u64>,
    b: &mut SessionLock,
    alive: bool,
    left: Option<u64>,
)
    requires
        call_ensures(SessionLock::set_surface, (a, surface), ()),
        call_ensures(SessionLock::wl_surface, (final(a), true), shown),
        call_ensures(SessionLock::wl_surface, (final(a), false), gone),
        call_ensures(SessionLock::forget_surface, (b,), ()),
        call_ensures(SessionLock::wl_surface, (final(b), alive), left),
    ensures
        shown == Some(surface),
        gone is None,
        left is None,
        final(a).locked == old(a).locked && final(a).pending == old(a).pending && final(a).frames
            == old(a).frames,
        final(b).locked == old(b).locked && final(b).pending == old(b).pending && final(b).frames
            == old(b).frames,
{
}

} // verus!
