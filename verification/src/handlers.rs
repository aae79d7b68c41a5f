//! What requests of clients lead to, where more than the protocol decides.
use vstd::prelude::*;

use crate::capture::ShmFormat;

verus! {

// ---------------------------------------------------------------------------
// Commits
// ---------------------------------------------------------------------------

/// Something that a commit of a surface leads to.
#[derive(Clone, Copy, Debug, PartialEq, Eq, Structural)]
pub enum CommitStep {
    /// A frame is due. Clients are told to go on only when one is drawn, so
    /// without this an app would stall on a screen at rest.
    NeedsRender,
    /// Let the popups of the surface move on.
    CommitPopups,
    /// The space that the shell's own surfaces leave has changed.
    RecomputeLayers,
    /// Report the size that a window took.
    LogSize,
    /// The surface may have started or stopped playing a film.
    RefreshLandscapeHint,
    /// It may be the first commit in the size that a turn asked for.
    NoteRotationCommit,
}

/// What a commit leads to. `layers_changed` is whether it changed the space that
/// the shell's own surfaces leave, and `focus` the surface of the app in front.
pub fn after_commit(surface: u64, layers_changed: bool, focus: Option<u64>) -> (out: Vec<CommitStep>)
    ensures
        out@ == seq![CommitStep::NeedsRender, CommitStep::CommitPopups] + (if layers_changed {
            seq![CommitStep::RecomputeLayers]
        } else {
            Seq::empty()
        }) + seq![CommitStep::LogSize] + (if focus == Some(surface) {
            seq![CommitStep::RefreshLandscapeHint, CommitStep::NoteRotationCommit]
        } else {
            Seq::empty()
        }),
{
    let mut out: Vec<CommitStep> = Vec::new();
    out.push(CommitStep::NeedsRender);
    out.push(CommitStep::CommitPopups);
    if layers_changed {
        out.push(CommitStep::RecomputeLayers);
    }
    out.push(CommitStep::LogSize);
    let in_front: bool = match focus {
        Some(f) => f == surface,
        None => false,
    };
    if in_front {
        out.push(CommitStep::RefreshLandscapeHint);
        out.push(CommitStep::NoteRotationCommit);
    }
    out
}

// ---------------------------------------------------------------------------
// Popups
// ---------------------------------------------------------------------------

/// The popups that hold the input: only those are closed by a press outside. A
/// tooltip never is among them, so it cannot swallow a tap.
#[derive(Debug)]
pub struct PopupGrabs {
    pub surfaces: Vec<u64>,
}

impl View for PopupGrabs {
    type V = Set<u64>;

    open spec fn view(&self) -> Set<u64> {
        self.surfaces@.to_set()
    }
}

/// The surfaces other than `surface`, in order.
pub open spec fn without(surfaces: Seq<u64>, surface: u64) -> Seq<u64>
    decreases surfaces.len(),
{
    if surfaces.len() == 0 {
        Seq::empty()
    } else {
        let rest = without(surfaces.drop_last(), surface);
        if surfaces.last() == surface {
            rest
        } else {
            rest.push(surfaces.last())
        }
    }
}

proof fn lemma_without(surfaces: Seq<u64>, surface: u64, s: u64)
    ensures
        without(surfaces, surface).contains(s) <==> surfaces.contains(s) && s != surface,
    decreases surfaces.len(),
{
    if surfaces.len() > 0 {
        let init = surfaces.drop_last();
        let last = surfaces.last();
        let w = without(init, surface);
        lemma_without(init, surface, s);
        if surfaces.contains(s) && s != surface {
            let k = choose|k: int| 0 <= k < surfaces.len() && surfaces[k] == s;
            if k < init.len() {
                assert(init[k] == s);
                assert(w.contains(s));
                let j = choose|j: int| 0 <= j < w.len() && w[j] == s;
                assert(w.push(last)[j] == s);
            } else {
                assert(w.push(last)[w.len() as int] == s);
            }
        }
        if without(surfaces, surface).contains(s) {
            if w.contains(s) {
                let k = choose|k: int| 0 <= k < init.len() && init[k] == s;
                assert(surfaces[k] == s);
            } else {
                assert(surfaces[surfaces.len() - 1] == last);
            }
        }
    }
}

impl PopupGrabs {
    pub fn new() -> (r: Self)
        ensures
            r@ == Set::<u64>::empty(),
    {
        let r: PopupGrabs = PopupGrabs { surfaces: Vec::new() };
        proof {
            assert(r@ =~= Set::<u64>::empty());
        }
        r
    }

    pub fn contains(&self, surface: u64) -> (r: bool)
        ensures
            r == self@.contains(surface),
    {
        let mut i: usize = 0;
        while i < self.surfaces.len()
            invariant
                i <= self.surfaces.len(),
                forall|k: int| 0 <= k < i ==> self.surfaces@[k] != surface,
            decreases self.surfaces.len() - i,
        {
            if self.surfaces[i] == surface {
                proof {
                    assert(self.surfaces@[i as int] == surface);
                }
                return true;
            }
            i = i + 1;
        }
        false
    }

    /// A popup takes the input. The press that opened it stays with the surface
    /// that got it, and so does its release.
    pub fn grab(&mut self, surface: u64)
        ensures
            final(self)@ == old(self)@.insert(surface),
    {
        let ghost was = self.surfaces@;
        if self.contains(surface) {
            proof {
                assert(self@ =~= old(self)@.insert(surface));
            }
            return;
        }
        self.surfaces.push(surface);
        proof {
            let now = self.surfaces@;
            assert forall|s: u64| now.to_set().contains(s) <==> was.to_set().insert(
                surface,
            ).contains(s) by {
                if was.contains(s) {
                    let k = choose|k: int| 0 <= k < was.len() && was[k] == s;
                    assert(now[k] == s);
                }
                if s == surface {
                    assert(now[was.len() as int] == s);
                }
            }
            assert(self@ =~= old(self)@.insert(surface));
        }
    }

    /// A popup is gone.
    pub fn popup_destroyed(&mut self, surface: u64)
        ensures
            final(self)@ == old(self)@.remove(surface),
    {
        let ghost was = self.surfaces@;
        let mut left: Vec<u64> = Vec::new();
        let mut i: usize = 0;
        proof {
            assert(was.take(0) =~= Seq::<u64>::empty());
        }
        while i < self.surfaces.len()
            invariant
                i <= self.surfaces.len(),
                self.surfaces@ == was,
                left@ == without(was.take(i as int), surface),
            decreases self.surfaces.len() - i,
        {
            proof {
                assert(was.take(i + 1).drop_last() =~= was.take(i as int));
                assert(was.take(i + 1).last() == was[i as int]);
            }
            if self.surfaces[i] != surface {
                left.push(self.surfaces[i]);
            }
            i = i + 1;
        }
        proof {
            assert(was.take(i as int) =~= was);
        }
        self.surfaces = left;
        proof {
            assert forall|s: u64| self@.contains(s) <==> old(self)@.remove(surface).contains(s) by {
                lemma_without(was, surface, s);
            }
            assert(self@ =~= old(self)@.remove(surface));
        }
    }
}

/// A popup that took the input and went away leaves no trace, and no other popup
/// is touched.
pub proof fn law_grab_ends_with_its_popup(grabs: Set<u64>, popup: u64)
    requires
        !grabs.contains(popup),
    ensures
        grabs.insert(popup).contains(popup),
        grabs.insert(popup).remove(popup) == grabs,
{
    assert(grabs.insert(popup).remove(popup) =~= grabs);
}

// ---------------------------------------------------------------------------
// Screen copies
// ---------------------------------------------------------------------------

/// The sessions whose client is there, in order. A session without an entry in
/// `alive` counts as gone.
pub open spec fn live(sessions: Seq<u64>, alive: Seq<bool>) -> Seq<u64>
    decreases sessions.len(),
{
    if sessions.len() == 0 {
        Seq::empty()
    } else {
        let rest = live(sessions.drop_last(), alive);
        let n = sessions.len() - 1;
        if n < alive.len() && alive[n] {
            rest.push(sessions.last())
        } else {
            rest
        }
    }
}

/// Someone starts copying the screen. The session has to be held on to for as
/// long as its client is there, or every copy it asks for fails; those of clients
/// that are gone are let go of.
pub fn new_session(sessions: &mut Vec<u64>, alive: &Vec<bool>, session: u64)
    ensures
        final(sessions)@ == live(old(sessions)@, alive@).push(session),
{
    let ghost was = sessions@;
    let mut left: Vec<u64> = Vec::new();
    let mut i: usize = 0;
    proof {
        assert(was.take(0) =~= Seq::<u64>::empty());
    }
    while i < sessions.len()
        invariant
            i <= sessions.len(),
            sessions@ == was,
            left@ == live(was.take(i as int), alive@),
        decreases sessions.len() - i,
    {
        proof {
            assert(was.take(i + 1).drop_last() =~= was.take(i as int));
            assert(was.take(i + 1).last() == was[i as int]);
        }
        if i < alive.len() && alive[i] {
            left.push(sessions[i]);
        }
        i = i + 1;
    }
    proof {
        assert(was.take(i as int) =~= was);
    }
    left.push(session);
    *sessions = left;
}

/// What a buffer has to be like for a copy of the screen.
#[derive(Debug)]
pub struct BufferConstraints {
    pub size: (i32, i32),
    /// The layouts of pixels in shared memory, which every client can get.
    pub shm: Vec<ShmFormat>,
    /// Buffers that the GPU can draw to are taken as well.
    pub dma: bool,
}

/// What a buffer has to be like for a copy of the screen; `None` if there is no
/// screen. `size` is that of the output's mode, and `formats` whether the backend
/// can draw to a buffer of a client.
pub fn capture_constraints(size: Option<(i32, i32)>, formats: bool) -> (r: Option<BufferConstraints>)
    ensures
        match r {
            Some(c) => size == Some(c.size) && c.shm@ == seq![
                ShmFormat::Xrgb8888,
                ShmFormat::Argb8888,
            ] && c.dma == formats,
            None => size is None,
        },
{
    match size {
        Some(size) => {
            let mut shm: Vec<ShmFormat> = Vec::new();
            shm.push(ShmFormat::Xrgb8888);
            shm.push(ShmFormat::Argb8888);
            Some(BufferConstraints { size, shm, dma: formats })
        },
        None => None,
    }
}

/// Every commit makes a frame due, moves the popups of its surface on and is
/// reported. Only one that changed the shell's own surfaces has them laid out
/// again, and only that of the app in front can change how the screen is held.
pub proof fn law_commit_leads_to_a_frame(
    surface: u64,
    layers_changed: bool,
    focus: Option<u64>,
    out: Vec<CommitStep>,
)
    requires
        call_ensures(after_commit, (surface, layers_changed, focus), out),
    ensures
        out@.contains(CommitStep::NeedsRender),
        out@.contains(CommitStep::CommitPopups),
        out@.contains(CommitStep::LogSize),
        out@.contains(CommitStep::RecomputeLayers) <==> layers_changed,
        out@.contains(CommitStep::RefreshLandscapeHint) <==> focus == Some(surface),
        out@.contains(CommitStep::NoteRotationCommit) <==> focus == Some(surface),
{
    let at: int = if layers_changed {
        3
    } else {
        2
    };
    assert(out@[0] == CommitStep::NeedsRender);
    assert(out@[1] == CommitStep::CommitPopups);
    assert(layers_changed ==> out@[2] == CommitStep::RecomputeLayers);
    assert(out@[at] == CommitStep::LogSize);
    assert(focus == Some(surface) ==> out@[at + 1] == CommitStep::RefreshLandscapeHint && out@[at + 2]
        == CommitStep::NoteRotationCommit);
}

/// A popup holds the input from its grab until it is gone, whatever the others
/// do.
pub proof fn law_popup_holds_the_input_until_it_is_gone(
    a: &mut PopupGrabs,
    b: &mut PopupGrabs,
    popup: u64,
    gone: u64,
    held: bool,
    later: bool,
)
    requires
        call_ensures(PopupGrabs::grab, (a, popup), ()),
        call_ensures(PopupGrabs::contains, (final(a), popup), held),
        *final(a) == *old(b),
        call_ensures(PopupGrabs::popup_destroyed, (b, gone), ()),
        call_ensures(PopupGrabs::contains, (final(b), popup), later),
    ensures
        held,
        later <==> gone != popup,
{
}

/// A session with a client is kept, one without is not.
proof fn lemma_live(sessions: Seq<u64>, alive: Seq<bool>, s: u64)
    requires
        sessions.no_duplicates(),
        alive.len() == sessions.len(),
    ensures
        live(sessions, alive).contains(s) <==> exists|k: int|
            0 <= k < sessions.len() && #[trigger] sessions[k] == s && alive[k],
    decreases sessions.len(),
{
    lemma_live_part(sessions, alive, s, sessions.len() as int);
    assert(sessions.take(sessions.len() as int) =~= sessions);
}

proof fn lemma_live_part(sessions: Seq<u64>, alive: Seq<bool>, s: u64, n: int)
    requires
        0 <= n <= sessions.len(),
        alive.len() == sessions.len(),
    ensures
        live(sessions.take(n), alive).contains(s) <==> exists|k: int|
            0 <= k < n && #[trigger] sessions[k] == s && alive[k],
    decreases n,
{
    if n > 0 {
        let part = sessions.take(n);
        let rest = live(sessions.take(n - 1), alive);
        lemma_live_part(sessions, alive, s, n - 1);
        assert(part.drop_last() =~= sessions.take(n - 1));
        assert(part.last() == sessions[n - 1]);
        if exists|k: int| 0 <= k < n && #[trigger] sessions[k] == s && alive[k] {
            let k = choose|k: int| 0 <= k < n && #[trigger] sessions[k] == s && alive[k];
            if k < n - 1 {
                let j = choose|j: int| 0 <= j < rest.len() && rest[j] == s;
                assert(live(part, alive)[j] == s);
            } else {
                assert(live(part, alive)[rest.len() as int] == s);
            }
        }
        if live(part, alive).contains(s) {
            let j = choose|j: int| 0 <= j < live(part, alive).len() && live(part, alive)[j] == s;
            if j < rest.len() {
                assert(rest[j] == s);
            } else {
                assert(sessions[n - 1] == s);
            }
        }
    }
}

/// A new session is held on to, and so is each whose client is there; those whose
/// clients are gone are let go of.
pub proof fn law_live_sessions_are_held(sessions: &mut Vec<u64>, alive: &Vec<bool>, session: u64, k: int)
    requires
        call_ensures(new_session, (sessions, alive, session), ()),
        old(sessions)@.no_duplicates(),
        !old(sessions)@.contains(session),
        alive@.len() == old(sessions)@.len(),
        0 <= k < old(sessions)@.len(),
    ensures
        final(sessions)@.contains(session),
        final(sessions)@.contains(old(sessions)@[k]) <==> alive@[k],
{
    let was = old(sessions)@;
    let left = live(was, alive@);
    lemma_live(was, alive@, was[k]);
    assert(final(sessions)@[left.len() as int] == session);
    if left.contains(was[k]) {
        let j = choose|j: int| 0 <= j < left.len() && left[j] == was[k];
        assert(final(sessions)@[j] == was[k]);
    }
    if final(sessions)@.contains(was[k]) {
        let j = choose|j: int| 0 <= j < final(sessions)@.len() && final(sessions)@[j] == was[k];
        if j < left.len() {
            assert(left[j] == was[k]);
        } else {
            assert(was.contains(session));
        }
    }
}

/// A copy of the screen is as large as the screen, both layouts that can be drawn
/// will do, and a buffer of the GPU does where the backend can draw to it.
pub proof fn law_copy_is_as_large_as_the_screen(
    size: Option<(i32, i32)>,
    formats: bool,
    r: Option<BufferConstraints>,
)
    requires
        call_ensures(capture_constraints, (size, formats), r),
    ensures
        r is Some <==> size is Some,
        r is Some ==> r->0.size == size->0 && r->0.dma == formats,
        r is Some ==> r->0.shm@.contains(ShmFormat::Xrgb8888) && r->0.shm@.contains(ShmFormat::Argb8888)
            && !r->0.shm@.contains(ShmFormat::Other),
{
    if r is Some {
        let shm = r->0.shm@;
        assert(shm[0] == ShmFormat::Xrgb8888);
        assert(shm[1] == ShmFormat::Argb8888);
    }
}

/// No popup is grabbed at first.
pub proof fn law_no_popup_is_grabbed_at_first(grabs: PopupGrabs, surface: u64)
    requires
        call_ensures(PopupGrabs::new, (), grabs),
    ensures
        !grabs@.contains(surface),
{
}

} // verus!
