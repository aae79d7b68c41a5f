//! Surfaces of the shell's own around the apps: when they come and go, how they
//! slide in, and when the apps get their space back.
//!
//! Resizing an app makes some clients drop the text focus, which takes the
//! keyboard away, which grows the app back: on the device it looks as if the
//! keyboard were called and dismissed for ever. So growing waits a moment, and
//! is refused for a while once a surface is seen to come and go.
use vstd::prelude::*;

use crate::debug_input::{at_most, is_at_most, rank, Coord};
use crate::time::{elapsed, since, Nanos};

verus! {

/// How long a surface at the bottom takes to slide in.
pub const SLIDE: Nanos = 180_000_000;

/// How long growing the apps back waits.
pub const REGROW_DELAY: Nanos = 250_000_000;

/// Within which time a surface that keeps coming is cycling.
pub const FLAP_WINDOW: Nanos = 3_000_000_000;

/// How often it has to come for that.
pub const FLAP_LIMIT: usize = 4;

/// How long the apps are held small then.
pub const FLAP_HOLD: Nanos = 10_000_000_000;

// ---------------------------------------------------------------------------
// Growing the apps back
// ---------------------------------------------------------------------------

/// When the apps may grow back.
#[derive(Clone, Copy, Debug, PartialEq, Eq, Structural)]
pub struct RegrowGuard {
    /// The time that has passed, as this guard counts it.
    pub now: Nanos,
    /// From when on a growth that waits may be made.
    pub pending: Option<Nanos>,
    /// Until when none is.
    pub flap_until: Nanos,
}

impl Default for RegrowGuard {
    fn default() -> (r: Self)
        ensures
            r == (RegrowGuard { now: 0, pending: None, flap_until: 0 }),
            r.wf(),
    {
        RegrowGuard { now: 0, pending: None, flap_until: 0 }
    }
}

impl RegrowGuard {
    /// There is room on the clock for what is waited for.
    pub open spec fn wf(self) -> bool {
        self.now + FLAP_HOLD <= Nanos::MAX
    }

    pub open spec fn ticked(self, dt: Nanos) -> RegrowGuard {
        RegrowGuard { now: (self.now + dt) as Nanos, ..self }
    }

    /// Whether the apps may grow now.
    pub open spec fn grows(self) -> bool {
        self.now >= self.flap_until && self.pending is Some && self.now >= self.pending->0
    }

    /// The guard after it was asked whether the apps may grow.
    pub open spec fn asked(self) -> RegrowGuard {
        if self.now >= self.flap_until && self.pending is None {
            RegrowGuard { pending: Some((self.now + REGROW_DELAY) as Nanos), ..self }
        } else {
            self
        }
    }

    pub open spec fn settled(self) -> RegrowGuard {
        RegrowGuard { pending: None, ..self }
    }

    pub open spec fn latched(self) -> RegrowGuard {
        RegrowGuard { flap_until: (self.now + FLAP_HOLD) as Nanos, ..self }
    }

    /// Whether a growth is held back.
    pub open spec fn holds(self) -> bool {
        self.pending is Some || self.now < self.flap_until
    }

    pub fn tick(&mut self, dt: Nanos)
        requires
            old(self).now + dt + FLAP_HOLD <= Nanos::MAX,
        ensures
            *final(self) == old(self).ticked(dt),
            final(self).wf(),
    {
        self.now = self.now + dt;
    }

    /// Whether the apps may grow now. The first time it is asked for a growth,
    /// the wait begins.
    pub fn allow_grow(&mut self) -> (r: bool)
        requires
            old(self).wf(),
        ensures
            r == old(self).grows(),
            *final(self) == old(self).asked(),
            final(self).wf(),
    {
        if self.now < self.flap_until {
            return false;
        }
        match self.pending {
            None => {
                self.pending = Some(self.now + REGROW_DELAY);
                false
            },
            Some(deadline) => self.now >= deadline,
        }
    }

    /// The apps grew, or shrank again: nothing waits any more.
    pub fn resolved(&mut self)
        ensures
            *final(self) == old(self).settled(),
    {
        self.pending = None;
    }

    /// A surface keeps coming: the apps stay small for a while.
    pub fn latch(&mut self)
        requires
            old(self).wf(),
        ensures
            *final(self) == old(self).latched(),
            final(self).wf(),
    {
        self.flap_until = self.now + FLAP_HOLD;
    }

    /// Whether a growth is held back. Frames go on being drawn meanwhile, so that
    /// there is one for it to happen on.
    pub fn holding(&self) -> (r: bool)
        ensures
            r == self.holds(),
    {
        self.pending.is_some() || self.now < self.flap_until
    }

    /// The area left for the apps was computed anew. Whether it is handed to
    /// them: what shrinks is at once, what grows when it may.
    pub fn usable_changed(&mut self, changed: bool, taller: bool) -> (apply: bool)
        requires
            old(self).wf(),
        ensures
            final(self).wf(),
            apply == (changed && (!taller || old(self).grows())),
            *final(self) == (if !changed {
                *old(self)
            } else if apply {
                old(self).asked_if(taller).settled()
            } else {
                old(self).asked()
            }),
    {
        if !changed {
            return false;
        }
        if taller && !self.allow_grow() {
            return false;
        }
        self.resolved();
        true
    }

    pub open spec fn asked_if(self, taller: bool) -> RegrowGuard {
        if taller {
            self.asked()
        } else {
            self
        }
    }
}

/// A keyboard that comes back within the wait never resizes an app: the growth
/// is asked for, refused, and dropped.
pub proof fn law_brief_absence_resizes_nothing(g: RegrowGuard, dt: Nanos)
    requires
        g.wf(),
        g.pending is None,
        dt < REGROW_DELAY,
        g.now + dt + FLAP_HOLD <= Nanos::MAX,
    ensures
        !g.grows(),
        !g.asked().ticked(dt).grows(),
        g.asked().ticked(dt).settled().pending is None,
{
}

/// A keyboard that stays away gives the space back once the wait is over.
pub proof fn law_space_is_given_back(g: RegrowGuard, dt: Nanos)
    requires
        g.wf(),
        g.pending is None,
        g.now >= g.flap_until,
        dt >= REGROW_DELAY,
        g.now + dt <= Nanos::MAX,
    ensures
        g.asked().ticked(dt).grows(),
{
}

/// Nothing grows while the apps are held small, however often it is asked.
pub proof fn law_latch_refuses_growth(g: RegrowGuard, dt: Nanos)
    requires
        g.wf(),
        dt < FLAP_HOLD,
        g.now + dt <= Nanos::MAX,
    ensures
        !g.latched().ticked(dt).grows(),
        g.latched().ticked(dt).asked() == g.latched().ticked(dt),
        g.latched().ticked(dt).holds(),
{
}

/// The moments that are recent enough to count at `now`.
pub open spec fn recent(events: Seq<Nanos>, now: Nanos) -> Seq<Nanos>
    decreases events.len(),
{
    if events.len() == 0 {
        Seq::empty()
    } else {
        let rest = recent(events.drop_last(), now);
        if elapsed(events.last(), now) <= FLAP_WINDOW {
            rest.push(events.last())
        } else {
            rest
        }
    }
}

/// Whether a surface that came at `events` and comes again at `now` is cycling.
pub open spec fn trips(events: Seq<Nanos>, now: Nanos) -> bool {
    recent(events, now).len() + 1 >= FLAP_LIMIT
}

/// The moments that are remembered after a surface came at `now`. A burst that
/// tripped is forgotten, so it trips once.
pub open spec fn remembered(events: Seq<Nanos>, now: Nanos) -> Seq<Nanos> {
    if trips(events, now) {
        Seq::empty()
    } else {
        recent(events, now).push(now)
    }
}

/// A surface came at `now`. Whether it came too often of late.
pub fn flapped(events: &mut Vec<Nanos>, now: Nanos) -> (tripped: bool)
    ensures
        tripped == trips(old(events)@, now),
        final(events)@ == remembered(old(events)@, now),
{
    let ghost was = events@;
    let mut kept: Vec<Nanos> = Vec::new();
    let mut i: usize = 0;
    while i < events.len()
        invariant
            i <= events.len(),
            events@ == was,
            kept@ == recent(was.take(i as int), now),
            kept.len() <= i,
        decreases events.len() - i,
    {
        proof {
            assert(was.take(i + 1).drop_last() =~= was.take(i as int));
            assert(was.take(i + 1).last() == was[i as int]);
        }
        let t: Nanos = events[i];
        if since(t, now) <= FLAP_WINDOW {
            kept.push(t);
        }
        i = i + 1;
    }
    proof {
        assert(was.take(i as int) =~= was);
    }
    kept.push(now);
    let tripped: bool = kept.len() >= FLAP_LIMIT;
    if tripped {
        kept = Vec::new();
    }
    *events = kept;
    tripped
}

// ---------------------------------------------------------------------------
// Coming and going
// ---------------------------------------------------------------------------

/// A surface of the shell's own.
#[derive(Debug)]
pub struct LayerEntry {
    pub surface: u64,
    /// It has shown nothing yet, or shows nothing any more.
    pub unmapped: bool,
    /// How long it has been sliding in.
    pub slide: Option<Nanos>,
    /// When it came of late.
    pub maps: Vec<Nanos>,
}

/// What a [`LayerEntry`] holds.
pub struct EntryView {
    pub surface: u64,
    pub unmapped: bool,
    pub slide: Option<Nanos>,
    pub maps: Seq<Nanos>,
}

impl View for LayerEntry {
    type V = EntryView;

    open spec fn view(&self) -> EntryView {
        EntryView {
            surface: self.surface,
            unmapped: self.unmapped,
            slide: self.slide,
            maps: self.maps@,
        }
    }
}

pub open spec fn entry_views(entries: Seq<LayerEntry>) -> Seq<EntryView> {
    entries.map_values(|e: LayerEntry| e@)
}

/// Whether both are numbers, and the same one.
pub open spec fn equals(a: Coord, b: Coord) -> bool {
    at_most(a, b) && at_most(b, a)
}

/// Whether both are numbers, and the first is the greater one.
pub open spec fn exceeds(a: Coord, b: Coord) -> bool {
    at_most(b, a) && !at_most(a, b)
}

/// A part of the screen, in its pixels.
#[derive(Clone, Copy, Debug, PartialEq, Eq, Structural)]
pub struct Area {
    pub x: Coord,
    pub y: Coord,
    pub w: Coord,
    pub h: Coord,
}

impl Area {
    pub open spec fn same(self, other: Area) -> bool {
        equals(self.x, other.x) && equals(self.y, other.y) && equals(self.w, other.w) && equals(
            self.h,
            other.h,
        )
    }

    /// Whether all of it is made of numbers.
    pub open spec fn is_number(self) -> bool {
        rank(self.x) is Some && rank(self.y) is Some && rank(self.w) is Some && rank(self.h) is Some
    }

    fn is_same(&self, other: &Area) -> (r: bool)
        ensures
            r == self.same(*other),
    {
        is_equal(self.x, other.x) && is_equal(self.y, other.y) && is_equal(self.w, other.w)
            && is_equal(self.h, other.h)
    }
}

fn is_equal(a: Coord, b: Coord) -> (r: bool)
    ensures
        r == equals(a, b),
{
    is_at_most(a, b) && is_at_most(b, a)
}

/// The surfaces of the shell's own.
#[derive(Debug)]
pub struct LayerShell {
    pub entries: Vec<LayerEntry>,
    /// The area that the apps were given last.
    pub last_usable: Area,
    /// How tall the screen is: a surface that stands on its bottom edge is drawn
    /// clear of the home bar.
    pub output_h: Coord,
    pub regrow: RegrowGuard,
}

/// What a commit of a surface means.
#[derive(Clone, Copy, Debug, PartialEq, Eq, Structural)]
pub enum Commit {
    /// The surface is none of these.
    Foreign,
    /// It came, and starts to slide in.
    Mapped,
    /// It redrew itself.
    Redrawn,
    /// It went.
    Unmapped,
    /// It has yet to be told its size.
    Configure,
    /// It was told, and has yet to show something.
    Waiting,
}

/// The place of a surface among the entries; their number when it has none.
pub open spec fn place_of(entries: Seq<EntryView>, surface: u64) -> int
    decreases entries.len(),
{
    if entries.len() == 0 || entries[0].surface == surface {
        0
    } else {
        1 + place_of(entries.skip(1), surface)
    }
}

/// What a commit means for a surface that is known.
pub open spec fn commit_of(e: EntryView, has_buffer: bool, configured: bool) -> Commit {
    if has_buffer {
        if e.unmapped {
            Commit::Mapped
        } else {
            Commit::Redrawn
        }
    } else if !e.unmapped {
        Commit::Unmapped
    } else if !configured {
        Commit::Configure
    } else {
        Commit::Waiting
    }
}

/// A surface after a commit.
pub open spec fn committed(e: EntryView, has_buffer: bool, now: Nanos) -> EntryView {
    if has_buffer && e.unmapped {
        EntryView {
            unmapped: false,
            slide: Some(0),
            maps: remembered(e.maps, now),
            ..e
        }
    } else if !has_buffer && !e.unmapped {
        EntryView { unmapped: true, slide: None, ..e }
    } else {
        e
    }
}

/// A surface after `dt` more of its slide.
pub open spec fn slid(e: EntryView, dt: Nanos) -> EntryView {
    EntryView {
        slide: match e.slide {
            Some(p) => if p + dt < SLIDE {
                Some((p + dt) as Nanos)
            } else {
                None
            },
            None => None,
        },
        ..e
    }
}

pub open spec fn all_slid(entries: Seq<EntryView>, dt: Nanos) -> Seq<EntryView> {
    entries.map_values(|e: EntryView| slid(e, dt))
}

/// Whether some surface still slides in.
pub open spec fn any_slides(entries: Seq<EntryView>) -> bool {
    exists|i: int| 0 <= i < entries.len() && (#[trigger] entries[i]).slide is Some
}

proof fn lemma_place(entries: Seq<EntryView>, surface: u64)
    ensures
        0 <= place_of(entries, surface) <= entries.len(),
        place_of(entries, surface) < entries.len() ==> entries[place_of(
            entries,
            surface,
        )].surface == surface,
    decreases entries.len(),
{
    if entries.len() > 0 && entries[0].surface != surface {
        lemma_place(entries.skip(1), surface);
    }
}

impl LayerShell {
    /// A slide that goes on has not ended.
    pub open spec fn wf(self) -> bool {
        &&& self.regrow.wf()
        &&& forall|i: int|
            0 <= i < self.entries@.len() ==> ((#[trigger] self.entries@[i]).slide matches Some(p)
                ==> p < SLIDE)
    }

    /// Whether the apps are given the area `now`, were it all that is left for
    /// them: if it is another one than they have, and no taller or allowed to be.
    pub open spec fn hands_out(self, now: Area) -> bool {
        !now.same(self.last_usable) && (!exceeds(now.h, self.last_usable.h) || self.regrow.grows())
    }

    /// The guard after the area `now` was found to be left for the apps.
    pub open spec fn regrow_after(self, now: Area) -> RegrowGuard {
        if now.same(self.last_usable) {
            self.regrow
        } else if self.hands_out(now) {
            self.regrow.asked_if(exceeds(now.h, self.last_usable.h)).settled()
        } else {
            self.regrow.asked()
        }
    }

    /// No surface is there yet, on a screen of `output_w` by `output_h`: the apps
    /// have all of it.
    pub fn new(output_w: Coord, output_h: Coord) -> (r: Self)
        ensures
            r.entries@.len() == 0,
            r.last_usable == (Area { x: 0, y: 0, w: output_w, h: output_h }),
            r.output_h == output_h,
            r.regrow == (RegrowGuard { now: 0, pending: None, flap_until: 0 }),
            r.wf(),
    {
        LayerShell {
            entries: Vec::new(),
            last_usable: Area { x: 0, y: 0, w: output_w, h: output_h },
            output_h,
            regrow: RegrowGuard { now: 0, pending: None, flap_until: 0 },
        }
    }

    fn find(&self, surface: u64) -> (r: usize)
        ensures
            r == place_of(entry_views(self.entries@), surface),
            r <= self.entries@.len(),
    {
        let ghost all = entry_views(self.entries@);
        let mut i: usize = 0;
        proof {
            assert(all.skip(0) =~= all);
        }
        while i < self.entries.len() && self.entries[i].surface != surface
            invariant
                i <= self.entries.len(),
                all == entry_views(self.entries@),
                place_of(all, surface) == i + place_of(all.skip(i as int), surface),
            decreases self.entries.len() - i,
        {
            proof {
                assert(all.skip(i as int)[0] == self.entries@[i as int]@);
                assert(all.skip(i as int).skip(1) =~= all.skip(i + 1));
            }
            i = i + 1;
        }
        proof {
            if i < self.entries.len() {
                assert(all.skip(i as int)[0] == self.entries@[i as int]@);
            }
        }
        i
    }

    /// A surface was created. It shows nothing yet.
    pub fn new_surface(&mut self, surface: u64)
        requires
            old(self).wf(),
        ensures
            final(self).wf(),
            final(self).regrow == old(self).regrow,
            final(self).last_usable == old(self).last_usable,
            final(self).output_h == old(self).output_h,
            entry_views(final(self).entries@) == entry_views(old(self).entries@).push(
                (EntryView { surface, unmapped: true, slide: None, maps: Seq::empty() }),
            ),
    {
        let ghost was = self.entries@;
        self.entries.push(LayerEntry { surface, unmapped: true, slide: None, maps: Vec::new() });
        proof {
            assert(entry_views(self.entries@) =~= entry_views(was).push(
                (EntryView { surface, unmapped: true, slide: None, maps: Seq::empty() }),
            ));
            assert forall|i: int| 0 <= i < self.entries@.len() implies ((
            #[trigger] self.entries@[i]).slide matches Some(p) ==> p < SLIDE) by {
                if i < was.len() {
                    assert(self.entries@[i] == was[i]);
                }
            }
        }
    }

    /// A surface is gone, and its history with it. Whether it was known.
    pub fn destroyed(&mut self, surface: u64) -> (known: bool)
        requires
            old(self).wf(),
        ensures
            final(self).wf(),
            final(self).regrow == old(self).regrow,
            final(self).last_usable == old(self).last_usable,
            final(self).output_h == old(self).output_h,
            known == (place_of(entry_views(old(self).entries@), surface) < old(self).entries@.len()),
            entry_views(final(self).entries@) == (if known {
                entry_views(old(self).entries@).remove(
                    place_of(entry_views(old(self).entries@), surface),
                )
            } else {
                entry_views(old(self).entries@)
            }),
    {
        let at: usize = self.find(surface);
        let ghost was = self.entries@;
        if at >= self.entries.len() {
            return false;
        }
        self.entries.remove(at);
        proof {
            assert(self.entries@ =~= was.remove(at as int));
            assert(entry_views(self.entries@) =~= entry_views(was).remove(at as int));
            assert forall|i: int| 0 <= i < self.entries@.len() implies ((
            #[trigger] self.entries@[i]).slide matches Some(p) ==> p < SLIDE) by {
                if i < at {
                    assert(self.entries@[i] == was[i]);
                } else {
                    assert(self.entries@[i] == was[i + 1]);
                }
            }
        }
        true
    }

    /// A surface committed. `has_buffer` is whether it shows something, and
    /// `configured` whether it was told its size.
    pub fn handle_commit(&mut self, surface: u64, has_buffer: bool, configured: bool) -> (r: Commit)
        requires
            old(self).wf(),
        ensures
            final(self).wf(),
            final(self).last_usable == old(self).last_usable,
            final(self).output_h == old(self).output_h,
            ({
                let entries = entry_views(old(self).entries@);
                let at = place_of(entries, surface);
                let now = old(self).regrow.now;
                if at >= entries.len() {
                    &&& r == Commit::Foreign
                    &&& entry_views(final(self).entries@) == entries
                    &&& final(self).regrow == old(self).regrow
                } else {
                    &&& r == commit_of(entries[at], has_buffer, configured)
                    &&& entry_views(final(self).entries@) == entries.update(
                        at,
                        committed(entries[at], has_buffer, now),
                    )
                    &&& final(self).regrow == (if r == Commit::Mapped && trips(
                        entries[at].maps,
                        now,
                    ) {
                        old(self).regrow.latched()
                    } else {
                        old(self).regrow
                    })
                }
            }),
    {
        let at: usize = self.find(surface);
        let ghost was = self.entries@;
        let ghost views = entry_views(was);
        if at >= self.entries.len() {
            return Commit::Foreign;
        }
        proof {
            assert(views[at as int] == was[at as int]@);
        }
        let unmapped: bool = self.entries[at].unmapped;
        if has_buffer {
            if !unmapped {
                proof {
                    assert(views.update(at as int, views[at as int]) =~= views);
                }
                return Commit::Redrawn;
            }
            let now: Nanos = self.regrow.now;
            let mut e: LayerEntry = self.entries.remove(at);
            e.unmapped = false;
            e.slide = Some(0);
            let cycling: bool = flapped(&mut e.maps, now);
            self.entries.insert(at, e);
            if cycling {
                self.regrow.latch();
            }
            proof {
                self.lemma_replaced(was, at as int, e);
            }
            return Commit::Mapped;
        }
        if !unmapped {
            let mut e: LayerEntry = self.entries.remove(at);
            e.unmapped = true;
            e.slide = None;
            self.entries.insert(at, e);
            proof {
                self.lemma_replaced(was, at as int, e);
            }
            return Commit::Unmapped;
        }
        proof {
            assert(views.update(at as int, views[at as int]) =~= views);
        }
        if !configured {
            Commit::Configure
        } else {
            Commit::Waiting
        }
    }

    proof fn lemma_replaced(self, was: Seq<LayerEntry>, at: int, e: LayerEntry)
        requires
            0 <= at < was.len(),
            self.entries@ == was.remove(at).insert(at, e),
            e.slide matches Some(p) ==> p < SLIDE,
            forall|i: int|
                0 <= i < was.len() ==> ((#[trigger] was[i]).slide matches Some(p) ==> p < SLIDE),
        ensures
            entry_views(self.entries@) == entry_views(was).update(at, e@),
            forall|i: int|
                0 <= i < self.entries@.len() ==> ((#[trigger] self.entries@[i]).slide matches Some(p)
                    ==> p < SLIDE),
    {
        assert(self.entries@ =~= was.update(at, e));
        assert(entry_views(self.entries@) =~= entry_views(was).update(at, e@));
    }

    /// Let every slide go on by `dt`. Whether one is still going on.
    pub fn tick_slides(&mut self, dt: Nanos) -> (moving: bool)
        requires
            old(self).wf(),
            old(self).regrow.now + dt + FLAP_HOLD <= Nanos::MAX,
        ensures
            final(self).wf(),
            final(self).regrow == old(self).regrow.ticked(dt),
            final(self).last_usable == old(self).last_usable,
            final(self).output_h == old(self).output_h,
            entry_views(final(self).entries@) == all_slid(entry_views(old(self).entries@), dt),
            moving == any_slides(entry_views(final(self).entries@)),
    {
        self.regrow.tick(dt);
        let ghost was = self.entries@;
        let ghost views = entry_views(was);
        let ghost after = all_slid(views, dt);
        let mut moving: bool = false;
        let mut i: usize = 0;
        while i < self.entries.len()
            invariant
                i <= self.entries.len(),
                self.last_usable == old(self).last_usable,
                self.output_h == old(self).output_h,
                self.regrow == old(self).regrow.ticked(dt),
                self.regrow.wf(),
                self.regrow.now + FLAP_HOLD <= Nanos::MAX,
                dt <= self.regrow.now,
                was.len() == self.entries@.len(),
                views == entry_views(was),
                after == all_slid(views, dt),
                forall|k: int|
                    0 <= k < was.len() ==> ((#[trigger] was[k]).slide matches Some(p) ==> p < SLIDE),
                forall|k: int| i <= k < was.len() ==> self.entries@[k] == was[k],
                forall|k: int| 0 <= k < i ==> (#[trigger] self.entries@[k])@ == after[k],
                forall|k: int|
                    0 <= k < i ==> ((#[trigger] self.entries@[k]).slide matches Some(p) ==> p < SLIDE),
                moving == exists|k: int| 0 <= k < i && (#[trigger] after[k]).slide is Some,
            decreases self.entries.len() - i,
        {
            let ghost before = self.entries@;
            let slide: Option<Nanos> = match self.entries[i].slide {
                Some(p) => {
                    if dt < SLIDE && p + dt < SLIDE {
                        Some(p + dt)
                    } else {
                        None
                    }
                },
                None => None,
            };
            let mut e: LayerEntry = self.entries.remove(i);
            e.slide = slide;
            self.entries.insert(i, e);
            proof {
                assert(self.entries@ =~= before.update(i as int, e));
                assert(after[i as int] == slid(was[i as int]@, dt));
                assert(e@ == after[i as int]);
            }
            if slide.is_some() {
                moving = true;
            }
            i = i + 1;
        }
        proof {
            assert(entry_views(self.entries@) =~= after);
        }
        moving
    }

    /// The area `now` is left for the apps. It is returned if they are to be
    /// resized to it: less is handed out at once, more when it may be.
    pub fn usable_changed(&mut self, now: Area) -> (r: Option<Area>)
        requires
            old(self).wf(),
        ensures
            final(self).wf(),
            r == (if old(self).hands_out(now) {
                Some(now)
            } else {
                None
            }),
            final(self).last_usable == (if old(self).hands_out(now) {
                now
            } else {
                old(self).last_usable
            }),
            final(self).regrow == old(self).regrow_after(now),
            final(self).entries@ == old(self).entries@,
            final(self).output_h == old(self).output_h,
    {
        let changed: bool = !now.is_same(&self.last_usable);
        let taller: bool = is_at_most(self.last_usable.h, now.h) && !is_at_most(
            now.h,
            self.last_usable.h,
        );
        if !self.regrow.usable_changed(changed, taller) {
            return None;
        }
        self.last_usable = now;
        Some(now)
    }

    /// Whether a growth of the apps is held back, so that frames must go on being
    /// drawn until it happens.
    pub fn regrow_pending(&self) -> (r: bool)
        ensures
            r == self.regrow.holds(),
    {
        self.regrow.holding()
    }

    /// Whether a surface still slides in.
    pub fn sliding(&self) -> (r: bool)
        ensures
            r == any_slides(entry_views(self.entries@)),
    {
        let mut i: usize = 0;
        while i < self.entries.len()
            invariant
                i <= self.entries.len(),
                forall|k: int| 0 <= k < i ==> (#[trigger] self.entries@[k]).slide is None,
            decreases self.entries.len() - i,
        {
            if self.entries[i].slide.is_some() {
                proof {
                    assert(entry_views(self.entries@)[i as int].slide is Some);
                }
                return true;
            }
            i = i + 1;
        }
        proof {
            let views = entry_views(self.entries@);
            assert forall|k: int| 0 <= k < views.len() implies (#[trigger] views[k]).slide is None by {
                assert(self.entries@[k].slide is None);
            }
        }
        false
    }

    /// Whether a surface is one of these and shows something.
    pub open spec fn shows(self, surface: u64) -> bool {
        let entries = entry_views(self.entries@);
        let at = place_of(entries, surface);
        at < entries.len() && !entries[at].unmapped
    }

    /// Whether a surface belongs to one of these that shows something. `root` is
    /// the one that it belongs to: itself, or the one that it is a part or a popup
    /// of; `None` for the surface of an app.
    pub fn is_mapped_layer(&self, root: Option<u64>) -> (r: bool)
        ensures
            r == (root is Some && self.shows(root->0)),
    {
        let surface: u64 = match root {
            Some(surface) => surface,
            None => {
                return false;
            },
        };
        let at: usize = self.find(surface);
        if at >= self.entries.len() {
            return false;
        }
        proof {
            assert(entry_views(self.entries@)[at as int] == self.entries@[at as int]@);
        }
        !self.entries[at].unmapped
    }
}

/// The apps are not resized to an area that they have, and never have to wait for
/// one that is no taller.
pub proof fn law_only_growth_waits(layers: LayerShell, now: Area)
    requires
        now.is_number(),
    ensures
        layers.last_usable == now ==> !layers.hands_out(now) && layers.regrow_after(now)
            == layers.regrow,
        !now.same(layers.last_usable) && !exceeds(now.h, layers.last_usable.h) ==> layers.hands_out(
            now,
        ) && layers.regrow_after(now).pending is None,
{
}

/// A surface that only redraws itself does not start to slide again, and one
/// that went starts anew when it comes back.
pub proof fn law_slide_starts_on_arrival_only(e: EntryView, now: Nanos, later: Nanos)
    ensures
        !e.unmapped ==> committed(e, true, now) == e,
        ({
            let gone = committed(EntryView { unmapped: false, ..e }, false, now);
            &&& gone.unmapped && gone.slide is None
            &&& committed(gone, true, later).slide == Some(0 as Nanos)
        }),
{
}

// ---------------------------------------------------------------------------
// Above and below the apps
// ---------------------------------------------------------------------------

/// Where a surface stands relative to the apps.
#[derive(Clone, Copy, Debug, PartialEq, Eq, Structural)]
pub enum Layer {
    Background,
    Bottom,
    Top,
    Overlay,
}

/// The places of the surfaces of one layer, in order.
pub open spec fn on_layer(layers: Seq<Layer>, wanted: Layer) -> Seq<int>
    decreases layers.len(),
{
    if layers.len() == 0 {
        Seq::empty()
    } else {
        let rest = on_layer(layers.drop_last(), wanted);
        if layers.last() == wanted {
            rest.push(layers.len() - 1)
        } else {
            rest
        }
    }
}

fn list_layer(out: &mut Vec<usize>, layers: &Vec<Layer>, wanted: Layer)
    ensures
        crate::sorting::places(final(out)@) == crate::sorting::places(old(out)@) + on_layer(
            layers@,
            wanted,
        ),
{
    let ghost before = crate::sorting::places(out@);
    let mut i: usize = 0;
    proof {
        assert(layers@.take(0) =~= Seq::<Layer>::empty());
        assert(before + on_layer(layers@.take(0), wanted) =~= before);
    }
    while i < layers.len()
        invariant
            i <= layers.len(),
            crate::sorting::places(out@) == before + on_layer(layers@.take(i as int), wanted),
        decreases layers.len() - i,
    {
        proof {
            assert(layers@.take(i + 1).drop_last() =~= layers@.take(i as int));
            assert(layers@.take(i + 1).last() == layers@[i as int]);
        }
        let ghost so_far = crate::sorting::places(out@);
        if layers[i] == wanted {
            out.push(i);
            proof {
                assert(crate::sorting::places(out@) =~= so_far.push(i as int));
                assert(crate::sorting::places(out@) =~= before + on_layer(
                    layers@.take(i + 1),
                    wanted,
                ));
            }
        }
        i = i + 1;
    }
    proof {
        assert(layers@.take(i as int) =~= layers@);
    }
}

/// Which surfaces are drawn below the apps and which above, each from the bottom
/// to the top. `layers` is where each of them stands, in the order in which they
/// were created.
pub fn render_lists(layers: &Vec<Layer>) -> (r: (Vec<usize>, Vec<usize>))
    ensures
        crate::sorting::places(r.0@) == on_layer(layers@, Layer::Background) + on_layer(
            layers@,
            Layer::Bottom,
        ),
        crate::sorting::places(r.1@) == on_layer(layers@, Layer::Top) + on_layer(
            layers@,
            Layer::Overlay,
        ),
{
    let mut below: Vec<usize> = Vec::new();
    let mut above: Vec<usize> = Vec::new();
    proof {
        assert(crate::sorting::places(below@) =~= Seq::<int>::empty());
        assert(crate::sorting::places(above@) =~= Seq::<int>::empty());
    }
    list_layer(&mut below, layers, Layer::Background);
    list_layer(&mut below, layers, Layer::Bottom);
    list_layer(&mut above, layers, Layer::Top);
    list_layer(&mut above, layers, Layer::Overlay);
    proof {
        assert(crate::sorting::places(below@) =~= on_layer(layers@, Layer::Background) + on_layer(
            layers@,
            Layer::Bottom,
        ));
        assert(crate::sorting::places(above@) =~= on_layer(layers@, Layer::Top) + on_layer(
            layers@,
            Layer::Overlay,
        ));
    }
    (below, above)
}

/// Whether nothing above the apps lies under the finger.
pub open spec fn misses_all(layers: Seq<Layer>, hit: Seq<bool>) -> bool {
    forall|k: int|
        0 <= k < layers.len() && #[trigger] hit[k] ==> layers[k] == Layer::Background || layers[k]
            == Layer::Bottom
}

/// The surface that a touch reaches: the topmost one above the apps that lies
/// under the finger. `hit` says of each whether it does.
pub fn hit_test(layers: &Vec<Layer>, hit: &Vec<bool>) -> (r: Option<usize>)
    requires
        layers@.len() == hit@.len(),
    ensures
        match r {
            Some(i) => {
                &&& i < layers@.len()
                &&& hit@[i as int]
                &&& layers@[i as int] == Layer::Overlay || layers@[i as int] == Layer::Top
                &&& forall|k: int|
                    0 <= k < layers@.len() && #[trigger] hit@[k] && is_over(
                        layers@,
                        k,
                        i as int,
                    ) ==> k == i
            },
            None => misses_all(layers@, hit@),
        },
{
    match last_hit(layers, hit, Layer::Overlay) {
        Some(i) => {
            return Some(i);
        },
        None => {},
    }
    last_hit(layers, hit, Layer::Top)
}

/// Whether the surface `k` is drawn over the surface `i`, or is it.
pub open spec fn is_over(layers: Seq<Layer>, k: int, i: int) -> bool {
    match layers[k] {
        Layer::Overlay => layers[i] != Layer::Overlay || k >= i,
        Layer::Top => layers[i] != Layer::Overlay && (layers[i] != Layer::Top || k >= i),
        _ => false,
    }
}

fn last_hit(layers: &Vec<Layer>, hit: &Vec<bool>, wanted: Layer) -> (r: Option<usize>)
    requires
        layers@.len() == hit@.len(),
    ensures
        match r {
            Some(i) => i < layers@.len() && hit@[i as int] && layers@[i as int] == wanted
                && forall|k: int|
                i < k < layers@.len() && #[trigger] hit@[k] ==> layers@[k] != wanted,
            None => forall|k: int|
                0 <= k < layers@.len() && #[trigger] hit@[k] ==> layers@[k] != wanted,
        },
{
    let mut n: usize = layers.len();
    while n > 0
        invariant
            n <= layers.len(),
            layers@.len() == hit@.len(),
            forall|k: int| n <= k < layers@.len() && #[trigger] hit@[k] ==> layers@[k] != wanted,
        decreases n,
    {
        if hit[n - 1] && layers[n - 1] == wanted {
            return Some(n - 1);
        }
        n = n - 1;
    }
    None
}

/// A growth is allowed a quarter of a second after it was first asked for, and
/// not for ten seconds after a surface was seen to come and go.
pub proof fn law_growth_waits_a_quarter_of_a_second(guard: &mut RegrowGuard, r: bool)
    requires
        call_ensures(RegrowGuard::allow_grow, (guard,), r),
        old(guard).wf(),
    ensures
        r <==> old(guard).now >= old(guard).flap_until && old(guard).pending is Some && old(guard).now
            >= old(guard).pending->0,
        old(guard).now >= old(guard).flap_until && old(guard).pending is None ==> final(guard).pending
            is Some && final(guard).pending->0 - old(guard).now == 250_000_000,
        old(guard).pending is Some || old(guard).now < old(guard).flap_until ==> *final(guard) == *old(guard),
        final(guard).now == old(guard).now && final(guard).flap_until == old(guard).flap_until,
{
}

/// A latch holds the apps small for ten seconds.
pub proof fn law_latch_lasts_ten_seconds(guard: &mut RegrowGuard, held: bool)
    requires
        call_ensures(RegrowGuard::latch, (guard,), ()),
        call_ensures(RegrowGuard::holding, (final(guard),), held),
        old(guard).wf(),
    ensures
        final(guard).flap_until - old(guard).now == 10_000_000_000,
        final(guard).pending == old(guard).pending,
        held,
{
}

/// A growth is held back exactly while one waits or the apps are held small.
pub proof fn law_growth_is_held_back(guard: RegrowGuard, r: bool)
    requires
        call_ensures(RegrowGuard::holding, (&guard,), r),
    ensures
        r <==> guard.pending is Some || guard.now < guard.flap_until,
{
}

/// What shrinks is handed out at once, what grows when it may, and what did not
/// change not at all. What is handed out waits no longer.
pub proof fn law_shrinking_is_handed_out_at_once(
    guard: &mut RegrowGuard,
    changed: bool,
    taller: bool,
    apply: bool,
)
    requires
        call_ensures(RegrowGuard::usable_changed, (guard, changed, taller), apply),
        old(guard).wf(),
    ensures
        !changed ==> !apply && *final(guard) == *old(guard),
        changed && !taller ==> apply,
        changed && taller ==> (apply <==> old(guard).now >= old(guard).flap_until && old(guard).pending
            is Some && old(guard).now >= old(guard).pending->0),
        apply ==> final(guard).pending is None,
        changed && !apply && old(guard).now >= old(guard).flap_until ==> final(guard).pending is Some,
{
}

proof fn lemma_recent(events: Seq<Nanos>, now: Nanos)
    ensures
        recent(events, now) == events.filter(|t: Nanos| now - t <= 3_000_000_000),
    decreases events.len(),
{
    reveal(Seq::filter);
    if events.len() > 0 {
        lemma_recent(events.drop_last(), now);
    } else {
        assert(recent(events, now) =~= events.filter(|t: Nanos| now - t <= 3_000_000_000));
    }
}

/// A surface comes too often if this is the fourth time within three seconds; the
/// times are then forgotten, and remembered otherwise as far as they are recent.
pub proof fn law_fourth_time_in_three_seconds_trips(events: &mut Vec<Nanos>, now: Nanos, tripped: bool)
    requires
        call_ensures(flapped, (events, now), tripped),
    ensures
        tripped <==> old(events)@.filter(|t: Nanos| now - t <= 3_000_000_000).len() >= 3,
        tripped ==> final(events)@.len() == 0,
        !tripped ==> final(events)@ == old(events)@.filter(
            |t: Nanos| now - t <= 3_000_000_000,
        ).push(now),
{
    lemma_recent(old(events)@, now);
}

/// The first entry of a surface is its place.
proof fn lemma_first_place(entries: Seq<EntryView>, surface: u64, k: int)
    requires
        0 <= k < entries.len(),
        entries[k].surface == surface,
        forall|j: int| 0 <= j < k ==> (#[trigger] entries[j]).surface != surface,
    ensures
        place_of(entries, surface) == k,
    decreases k,
{
    if k > 0 {
        assert(entries[0].surface != surface);
        assert(entries.skip(1)[k - 1] == entries[k]);
        assert forall|j: int| 0 <= j < k - 1 implies (#[trigger] entries.skip(1)[j]).surface != surface by {
            assert(entries.skip(1)[j] == entries[j + 1]);
        }
        lemma_first_place(entries.skip(1), surface, k - 1);
    }
}

proof fn lemma_no_place(entries: Seq<EntryView>, surface: u64)
    requires
        forall|j: int| 0 <= j < entries.len() ==> (#[trigger] entries[j]).surface != surface,
    ensures
        place_of(entries, surface) == entries.len(),
    decreases entries.len(),
{
    if entries.len() > 0 {
        assert(entries[0].surface != surface);
        assert forall|j: int| 0 <= j < entries.skip(1).len() implies (#[trigger] entries.skip(
            1,
        )[j]).surface != surface by {
            assert(entries.skip(1)[j] == entries[j + 1]);
        }
        lemma_no_place(entries.skip(1), surface);
    }
}

/// A surface comes with the first thing that it shows, and then starts to slide
/// in; it goes when it shows nothing any more; and before that it is told its
/// size once. No other surface is touched.
pub proof fn law_surface_comes_with_its_content(
    layers: &mut LayerShell,
    surface: u64,
    has_buffer: bool,
    configured: bool,
    r: Commit,
    k: int,
    j: int,
)
    requires
        call_ensures(LayerShell::handle_commit, (layers, surface, has_buffer, configured), r),
        old(layers).wf(),
        0 <= k < old(layers).entries@.len(),
        old(layers).entries@[k].surface == surface,
        forall|i: int| 0 <= i < k ==> (#[trigger] old(layers).entries@[i]).surface != surface,
        0 <= j < old(layers).entries@.len(),
        j != k,
    ensures
        ({
            let e = old(layers).entries@[k];
            let f = final(layers).entries@[k];
            &&& r == Commit::Mapped <==> has_buffer && e.unmapped
            &&& r == Commit::Redrawn <==> has_buffer && !e.unmapped
            &&& r == Commit::Unmapped <==> !has_buffer && !e.unmapped
            &&& r == Commit::Configure <==> !has_buffer && e.unmapped && !configured
            &&& r == Commit::Waiting <==> !has_buffer && e.unmapped && configured
            &&& f.unmapped <==> !has_buffer
            &&& f.surface == surface
            &&& r == Commit::Mapped ==> f.slide == Some(0 as Nanos)
            &&& r == Commit::Unmapped ==> f.slide is None
            &&& r != Commit::Mapped && r != Commit::Unmapped ==> f@ == e@
            &&& final(layers).entries@[j]@ == old(layers).entries@[j]@
        }),
{
    let was = entry_views(old(layers).entries@);
    let now = entry_views(final(layers).entries@);
    assert(was[k] == old(layers).entries@[k]@);
    assert forall|i: int| 0 <= i < k implies (#[trigger] was[i]).surface != surface by {
        assert(was[i] == old(layers).entries@[i]@);
        assert(old(layers).entries@[i].surface != surface);
    }
    lemma_first_place(was, surface, k);
    assert(now.len() == final(layers).entries@.len());
    assert(now[k] == final(layers).entries@[k]@);
    assert(now[j] == final(layers).entries@[j]@);
    assert(was[j] == old(layers).entries@[j]@);
}

/// A commit of a surface that is none of these changes nothing.
pub proof fn law_foreign_surface_is_left_alone(
    layers: &mut LayerShell,
    surface: u64,
    has_buffer: bool,
    configured: bool,
    r: Commit,
)
    requires
        call_ensures(LayerShell::handle_commit, (layers, surface, has_buffer, configured), r),
        forall|i: int|
            0 <= i < old(layers).entries@.len() ==> (#[trigger] old(layers).entries@[i]).surface
                != surface,
    ensures
        r == Commit::Foreign,
        final(layers).regrow == old(layers).regrow,
        entry_views(final(layers).entries@) == entry_views(old(layers).entries@),
{
    let was = entry_views(old(layers).entries@);
    assert forall|i: int| 0 <= i < was.len() implies (#[trigger] was[i]).surface != surface by {
        assert(old(layers).entries@[i].surface != surface);
    }
    lemma_no_place(was, surface);
}

/// A slide goes on by the time that passed, and is over after eighteen hundredths
/// of a second.
pub proof fn law_slide_ends_after_its_time(layers: &mut LayerShell, dt: Nanos, moving: bool, k: int, p: Nanos)
    requires
        call_ensures(LayerShell::tick_slides, (layers, dt), moving),
        0 <= k < old(layers).entries@.len(),
        old(layers).entries@[k].slide == Some(p),
        old(layers).regrow.now + dt + FLAP_HOLD <= Nanos::MAX,
    ensures
        final(layers).entries@.len() == old(layers).entries@.len(),
        final(layers).entries@[k].surface == old(layers).entries@[k].surface,
        final(layers).entries@[k].unmapped == old(layers).entries@[k].unmapped,
        p + dt < 180_000_000 ==> final(layers).entries@[k].slide is Some && final(layers).entries@[k].slide->0 == p + dt && moving,
        p + dt >= 180_000_000 ==> final(layers).entries@[k].slide is None,
        final(layers).regrow.now == old(layers).regrow.now + dt,
{
    let was = entry_views(old(layers).entries@);
    let now = entry_views(final(layers).entries@);
    assert(now.len() == final(layers).entries@.len());
    assert(was[k] == old(layers).entries@[k]@);
    assert(now[k] == final(layers).entries@[k]@);
    assert(now[k] == slid(was[k], dt));
}

/// Something slides exactly while one of the surfaces does.
pub proof fn law_sliding_means_a_surface_slides(layers: LayerShell, r: bool)
    requires
        call_ensures(LayerShell::sliding, (&layers,), r),
    ensures
        r <==> exists|k: int|
            0 <= k < layers.entries@.len() && (#[trigger] layers.entries@[k]).slide is Some,
{
    let v = entry_views(layers.entries@);
    if r {
        let k = choose|k: int| 0 <= k < v.len() && (#[trigger] v[k]).slide is Some;
        assert(layers.entries@[k].slide is Some);
    }
    if exists|k: int| 0 <= k < layers.entries@.len() && (#[trigger] layers.entries@[k]).slide is Some {
        let k = choose|k: int|
            0 <= k < layers.entries@.len() && (#[trigger] layers.entries@[k]).slide is Some;
        assert(v[k].slide is Some);
    }
}

/// A new surface shows nothing and does not slide, and one that is gone is no
/// longer listed: what was made and unmade leaves no trace.
pub proof fn law_surface_leaves_no_trace(a: &mut LayerShell, b: &mut LayerShell, surface: u64, known: bool)
    requires
        call_ensures(LayerShell::new_surface, (a, surface), ()),
        *final(a) == *old(b),
        call_ensures(LayerShell::destroyed, (b, surface), known),
        forall|i: int|
            0 <= i < old(a).entries@.len() ==> (#[trigger] old(a).entries@[i]).surface != surface,
    ensures
        known,
        entry_views(final(a).entries@).last().unmapped && entry_views(final(a).entries@).last().slide is None
            && entry_views(final(a).entries@).last().surface == surface,
        entry_views(final(b).entries@) == entry_views(old(a).entries@),
{
    let was = entry_views(old(a).entries@);
    let mid = entry_views(old(b).entries@);
    let n = was.len() as int;
    assert(mid[n].surface == surface);
    assert forall|i: int| 0 <= i < n implies (#[trigger] mid[i]).surface != surface by {
        assert(mid[i] == was[i]);
        assert(old(a).entries@[i].surface != surface);
    }
    lemma_first_place(mid, surface, n);
    assert(mid.len() == old(b).entries@.len());
    assert(mid.remove(n) =~= was);
}

/// A surface counts as shown exactly if it is one of these and shows something;
/// that of an app never does.
pub proof fn law_shown_layer_is_mapped(layers: LayerShell, root: Option<u64>, r: bool, k: int)
    requires
        call_ensures(LayerShell::is_mapped_layer, (&layers, root), r),
    ensures
        root is None ==> !r,
        root is Some && 0 <= k < layers.entries@.len() && layers.entries@[k].surface == root->0 && (forall|
            j: int,
        |
            0 <= j < k ==> (#[trigger] layers.entries@[j]).surface != root->0) ==> (r
            <==> !layers.entries@[k].unmapped),
{
    if root is Some && 0 <= k < layers.entries@.len() && layers.entries@[k].surface == root->0 && (forall|
        j: int,
    |
        0 <= j < k ==> (#[trigger] layers.entries@[j]).surface != root->0) {
        let v = entry_views(layers.entries@);
        assert(v[k] == layers.entries@[k]@);
        assert forall|j: int| 0 <= j < k implies (#[trigger] v[j]).surface != root->0 by {
            assert(layers.entries@[j].surface != root->0);
        }
        lemma_first_place(v, root->0, k);
    }
}

/// The apps get another area that is no taller at once and a taller one when they
/// may grow, and it is then the one that they have. Areas are compared as
/// numbers.
pub proof fn law_apps_get_the_area_that_is_left(layers: &mut LayerShell, now: Area, r: Option<Area>)
    requires
        call_ensures(LayerShell::usable_changed, (layers, now), r),
        old(layers).wf(),
        now.x <= 0x7f80_0000 && now.y <= 0x7f80_0000 && now.w <= 0x7f80_0000 && now.h <= 0x7f80_0000,
        old(layers).last_usable.x <= 0x7f80_0000 && old(layers).last_usable.y <= 0x7f80_0000 && old(layers).last_usable.w <= 0x7f80_0000 && old(layers).last_usable.h <= 0x7f80_0000,
    ensures
        r is Some ==> r == Some(now) && final(layers).last_usable == now,
        r is None ==> final(layers).last_usable == old(layers).last_usable,
        now == old(layers).last_usable ==> r is None,
        now != old(layers).last_usable && now.h <= old(layers).last_usable.h ==> r is Some,
        now.h > old(layers).last_usable.h ==> (r is Some <==> old(layers).regrow.grows()),
        final(layers).entries@ == old(layers).entries@,
{
}

proof fn lemma_on_layer(layers: Seq<Layer>, wanted: Layer, i: int)
    ensures
        on_layer(layers, wanted).contains(i) <==> 0 <= i < layers.len() && layers[i] == wanted,
        forall|a: int, b: int|
            0 <= a < b < on_layer(layers, wanted).len() ==> on_layer(layers, wanted)[a] < on_layer(
                layers,
                wanted,
            )[b],
        forall|a: int|
            0 <= a < on_layer(layers, wanted).len() ==> 0 <= #[trigger] on_layer(layers, wanted)[a]
                < layers.len() && layers[on_layer(layers, wanted)[a]] == wanted,
    decreases layers.len(),
{
    if layers.len() > 0 {
        let less = layers.drop_last();
        let rest = on_layer(less, wanted);
        let now = on_layer(layers, wanted);
        lemma_on_layer(less, wanted, i);
        assert forall|a: int| 0 <= a < now.len() implies 0 <= #[trigger] now[a] < layers.len()
            && layers[now[a]] == wanted by {
            if a < rest.len() {
                assert(now[a] == rest[a]);
                assert(less[rest[a]] == layers[rest[a]]);
            }
        }
        assert forall|a: int, b: int| 0 <= a < b < now.len() implies now[a] < now[b] by {
            assert(now[a] == rest[a]);
            assert(0 <= rest[a] < less.len());
            if b < rest.len() {
                assert(now[b] == rest[b]);
            }
        }
        if 0 <= i < layers.len() && layers[i] == wanted {
            if i < less.len() {
                assert(less[i] == layers[i]);
                let k = choose|k: int| 0 <= k < rest.len() && rest[k] == i;
                assert(now[k] == i);
            } else {
                assert(now[rest.len() as int] == i);
            }
        }
        if now.contains(i) {
            let k = choose|k: int| 0 <= k < now.len() && now[k] == i;
            assert(layers[now[k]] == wanted);
        }
    }
}

/// The background and the bottom are drawn below the apps, the top and the
/// overlay above them.
pub proof fn law_layers_lie_below_or_above(layers: Vec<Layer>, r: (Vec<usize>, Vec<usize>), i: int)
    requires
        call_ensures(render_lists, (&layers,), r),
        0 <= i < layers@.len(),
    ensures
        crate::sorting::places(r.0@).contains(i) <==> layers@[i] == Layer::Background || layers@[i]
            == Layer::Bottom,
        crate::sorting::places(r.1@).contains(i) <==> layers@[i] == Layer::Top || layers@[i]
            == Layer::Overlay,
{
    let ls = layers@;
    lemma_on_layer(ls, Layer::Background, i);
    lemma_on_layer(ls, Layer::Bottom, i);
    lemma_on_layer(ls, Layer::Top, i);
    lemma_on_layer(ls, Layer::Overlay, i);
    lemma_either(on_layer(ls, Layer::Background), on_layer(ls, Layer::Bottom), i);
    lemma_either(on_layer(ls, Layer::Top), on_layer(ls, Layer::Overlay), i);
}

proof fn lemma_either(a: Seq<int>, b: Seq<int>, x: int)
    ensures
        (a + b).contains(x) <==> a.contains(x) || b.contains(x),
{
    if a.contains(x) {
        let k = choose|k: int| 0 <= k < a.len() && a[k] == x;
        assert((a + b)[k] == x);
    }
    if b.contains(x) {
        let k = choose|k: int| 0 <= k < b.len() && b[k] == x;
        assert((a + b)[a.len() + k] == x);
    }
    if (a + b).contains(x) {
        let k = choose|k: int| 0 <= k < (a + b).len() && (a + b)[k] == x;
        if k < a.len() {
            assert(a[k] == x);
        } else {
            assert(b[k - a.len()] == x);
        }
    }
}

/// In both lists the lower layer comes first, and of one layer the surface that
/// was made first.
pub proof fn law_lists_go_from_bottom_to_top(layers: Vec<Layer>, r: (Vec<usize>, Vec<usize>), a: int, b: int)
    requires
        call_ensures(render_lists, (&layers,), r),
        0 <= a < b,
    ensures
        b < r.0@.len() ==> !(layers@[r.0@[a] as int] == Layer::Bottom && layers@[r.0@[b] as int]
            == Layer::Background) && (layers@[r.0@[a] as int] == layers@[r.0@[b] as int] ==> r.0@[a]
            < r.0@[b]),
        b < r.1@.len() ==> !(layers@[r.1@[a] as int] == Layer::Overlay && layers@[r.1@[b] as int]
            == Layer::Top) && (layers@[r.1@[a] as int] == layers@[r.1@[b] as int] ==> r.1@[a] < r.1@[b]),
{
    let ls = layers@;
    lemma_on_layer(ls, Layer::Background, 0);
    lemma_on_layer(ls, Layer::Bottom, 0);
    lemma_on_layer(ls, Layer::Top, 0);
    lemma_on_layer(ls, Layer::Overlay, 0);
    let low = on_layer(ls, Layer::Background);
    let mid = on_layer(ls, Layer::Bottom);
    let top = on_layer(ls, Layer::Top);
    let over = on_layer(ls, Layer::Overlay);
    let x = crate::sorting::places(r.0@);
    let y = crate::sorting::places(r.1@);
    assert(x == low + mid && x.len() == r.0@.len());
    assert(y == top + over && y.len() == r.1@.len());
    if b < r.0@.len() {
        assert(x[a] == r.0@[a] && x[b] == r.0@[b]);
        if b < low.len() {
            assert(x[a] == low[a] && x[b] == low[b]);
        } else {
            assert(x[b] == mid[b - low.len()]);
            if a < low.len() {
                assert(x[a] == low[a]);
            } else {
                assert(x[a] == mid[a - low.len()]);
            }
        }
    }
    if b < r.1@.len() {
        assert(y[a] == r.1@[a] && y[b] == r.1@[b]);
        if b < top.len() {
            assert(y[a] == top[a] && y[b] == top[b]);
        } else {
            assert(y[b] == over[b - top.len()]);
            if a < top.len() {
                assert(y[a] == top[a]);
            } else {
                assert(y[a] == over[a - top.len()]);
            }
        }
    }
}

/// A touch reaches the overlay before the top, of one layer the surface that was
/// made last, and nothing below the apps.
pub proof fn law_touch_reaches_the_topmost(layers: Vec<Layer>, hit: Vec<bool>, r: Option<usize>, k: int)
    requires
        call_ensures(hit_test, (&layers, &hit), r),
        layers@.len() == hit@.len(),
        0 <= k < layers@.len(),
        hit@[k],
    ensures
        layers@[k] == Layer::Overlay ==> r is Some && layers@[r->0 as int] == Layer::Overlay && r->0 >= k,
        layers@[k] == Layer::Top ==> r is Some && (layers@[r->0 as int] == Layer::Overlay || (
        layers@[r->0 as int] == Layer::Top && r->0 >= k)),
        r is Some ==> hit@[r->0 as int] && (layers@[r->0 as int] == Layer::Overlay || layers@[r->0 as int]
            == Layer::Top),
{
    assert(hit@[k]);
    match r {
        Some(i) => {
            if is_over(layers@, k, i as int) {
                assert(k == i);
            }
        },
        None => {},
    }
}

/// The clock of the guard goes on by the time that passed, and nothing else changes.
pub proof fn law_guard_keeps_time(guard: &mut RegrowGuard, dt: Nanos)
    requires
        call_ensures(RegrowGuard::tick, (guard, dt), ()),
        old(guard).now + dt + FLAP_HOLD <= Nanos::MAX,
    ensures
        final(guard).now == old(guard).now + dt,
        final(guard).pending == old(guard).pending,
        final(guard).flap_until == old(guard).flap_until,
{
}

/// Once a growth was made nothing waits, though the apps may still be held small.
pub proof fn law_made_growth_waits_no_longer(guard: &mut RegrowGuard, held: bool)
    requires
        call_ensures(RegrowGuard::resolved, (guard,), ()),
        call_ensures(RegrowGuard::holding, (final(guard),), held),
    ensures
        final(guard).pending is None,
        final(guard).now == old(guard).now && final(guard).flap_until == old(guard).flap_until,
        held <==> old(guard).now < old(guard).flap_until,
{
}

/// A growth of the apps waits for a quarter of a second from when there was first
/// room for it; what the apps get, and what takes their room again, ends the wait.
pub proof fn law_room_for_the_apps_is_waited_for(
    layers: &mut LayerShell,
    now: Area,
    r: Option<Area>,
    pending: bool,
)
    requires
        call_ensures(LayerShell::usable_changed, (layers, now), r),
        call_ensures(LayerShell::regrow_pending, (final(layers),), pending),
        old(layers).wf(),
    ensures
        r is Some ==> final(layers).regrow.pending is None,
        r is None && !now.same(old(layers).last_usable) && old(layers).regrow.pending is None
            && old(layers).regrow.now >= old(layers).regrow.flap_until
            ==> final(layers).regrow.pending is Some && final(layers).regrow.pending->0
            - old(layers).regrow.now == 250_000_000,
        now.same(old(layers).last_usable) ==> final(layers).regrow == old(layers).regrow,
        final(layers).regrow.now == old(layers).regrow.now,
        final(layers).regrow.flap_until == old(layers).regrow.flap_until,
        pending <==> final(layers).regrow.pending is Some || final(layers).regrow.now
            < final(layers).regrow.flap_until,
        final(layers).output_h == old(layers).output_h,
{
}

/// Without surfaces the apps have the whole screen, and nothing is held back.
pub proof fn law_apps_have_the_screen_at_first(w: Coord, h: Coord, layers: LayerShell, pending: bool)
    requires
        call_ensures(LayerShell::new, (w, h), layers),
        call_ensures(LayerShell::regrow_pending, (&layers,), pending),
    ensures
        layers.entries@.len() == 0,
        layers.last_usable.x == 0 && layers.last_usable.y == 0,
        layers.last_usable.w == w && layers.last_usable.h == h,
        layers.output_h == h,
        !pending,
{
}

} // verus!
