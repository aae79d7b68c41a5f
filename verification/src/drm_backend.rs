//! The backend that drives a panel and the displays that mirror it.
//!
//! It is paced by page flips: a frame is drawn, its flip is queued, and the next
//! frame waits for the panel to have shown it. This module decides when that
//! happens and what is done to the device; it holds what those decisions need of
//! the device, and hands the work out as steps.
use vstd::prelude::*;

use crate::blank::{Blank, Idle};
use crate::gamma_control::GammaUpdate;
use crate::idle_notify::{all_waking, all_woken, told, Event, IdleNotify};
use crate::mirror::{
    law_driven_displays_are_connected, law_first_display_gets_its_first_pipe, pipes, scan, scanned,
    Candidate, Connector, Mirror,
};
use crate::session_lock::LockView;
use crate::text::same;
use crate::time::{elapsed, since, Nanos};

verus! {

// ---------------------------------------------------------------------------
// Opening the device
// ---------------------------------------------------------------------------

/// How often opening the device is tried. At login the previous session may hold
/// it for a while yet.
pub const MAX_ATTEMPTS: u32 = 20;

/// How long to wait between two tries.
pub const BACKOFF: Nanos = 150_000_000;

/// What follows a try to open the device.
#[derive(Clone, Copy, Debug, PartialEq, Eq, Structural)]
pub enum OpenNext {
    Opened,
    /// Wait, and make the try of this number.
    Retry(u32),
    GiveUp,
}

/// What follows the try of this number.
pub open spec fn tried(attempt: u32, ok: bool) -> OpenNext {
    if ok {
        OpenNext::Opened
    } else if attempt < MAX_ATTEMPTS {
        OpenNext::Retry((attempt + 1) as u32)
    } else {
        OpenNext::GiveUp
    }
}

/// What follows the try of this number.
pub fn after_open(attempt: u32, ok: bool) -> (r: OpenNext)
    ensures
        r == tried(attempt, ok),
{
    if ok {
        OpenNext::Opened
    } else if attempt < MAX_ATTEMPTS {
        OpenNext::Retry(attempt + 1)
    } else {
        OpenNext::GiveUp
    }
}

/// What the first tries come to, where each ended as listed; `None` while another
/// is due.
pub open spec fn opening(results: Seq<bool>, attempt: u32) -> Option<bool>
    decreases results.len(),
{
    if results.len() == 0 {
        None
    } else {
        match tried(attempt, results[0]) {
            OpenNext::Opened => Some(true),
            OpenNext::GiveUp => Some(false),
            OpenNext::Retry(next) => opening(results.skip(1), next),
        }
    }
}

/// Opening ends after at most so many tries as are left.
pub proof fn law_opening_ends(results: Seq<bool>, attempt: u32)
    requires
        1 <= attempt <= MAX_ATTEMPTS,
        results.len() + attempt > MAX_ATTEMPTS,
    ensures
        opening(results, attempt) is Some,
        opening(results, attempt) == Some(true) <==> exists|i: int|
            0 <= i <= MAX_ATTEMPTS - attempt && results[i],
    decreases results.len(),
{
    if results[0] {
        assert(opening(results, attempt) == Some(true));
    } else if attempt < MAX_ATTEMPTS {
        let rest = results.skip(1);
        let next = (attempt + 1) as u32;
        law_opening_ends(rest, next);
        if opening(rest, next) == Some(true) {
            let i = choose|i: int| 0 <= i <= MAX_ATTEMPTS - next && rest[i];
            assert(results[i + 1]);
        }
        if exists|i: int| 0 <= i <= MAX_ATTEMPTS - attempt && results[i] {
            let i = choose|i: int| 0 <= i <= MAX_ATTEMPTS - attempt && results[i];
            assert(i != 0);
            assert(rest[i - 1]);
        }
    }
}

/// The display that the shell is shown on: the first connected one.
pub fn find_output(conns: &Vec<Connector>) -> (r: Option<Candidate>)
    ensures
        r == (if scanned(conns@, Seq::empty(), Seq::empty()).len() > 0 {
            Some(scanned(conns@, Seq::empty(), Seq::empty())[0])
        } else {
            None
        }),
{
    let none: Vec<u32> = Vec::new();
    let found: Vec<Candidate> = scan(conns, &none, &none);
    proof {
        assert(none@ =~= Seq::<u32>::empty());
    }
    if found.len() > 0 {
        Some(found[0])
    } else {
        None
    }
}

/// A property of a connector, and its name where it could be read.
#[derive(Debug)]
pub struct Property {
    pub handle: u32,
    pub name: Option<String>,
}

pub open spec fn is_dpms(p: Property) -> bool {
    p.name is Some && p.name->0@ == "DPMS"@
}

/// The property that powers a display on and off, if the driver has one.
pub fn find_dpms_prop(props: &Vec<Property>) -> (r: Option<u32>)
    ensures
        match r {
            Some(h) => exists|i: int|
                0 <= i < props@.len() && is_dpms(#[trigger] props@[i]) && props@[i].handle == h
                    && forall|k: int| 0 <= k < i ==> !is_dpms(#[trigger] props@[k]),
            None => forall|k: int| 0 <= k < props@.len() ==> !is_dpms(#[trigger] props@[k]),
        },
{
    let mut i: usize = 0;
    while i < props.len()
        invariant
            i <= props.len(),
            forall|k: int| 0 <= k < i ==> !is_dpms(#[trigger] props@[k]),
        decreases props.len() - i,
    {
        match &props[i].name {
            Some(n) => {
                if same(n.as_str(), "DPMS") {
                    proof {
                        assert(is_dpms(props@[i as int]));
                    }
                    return Some(props[i].handle);
                }
            },
            None => {},
        }
        i = i + 1;
    }
    None
}

/// The value of that property for a display that is on, or off.
pub fn dpms_value(on: bool) -> (r: u64)
    ensures
        r == (if on {
            0int
        } else {
            3
        }),
{
    if on {
        0
    } else {
        3
    }
}

/// A pixel format and one of the layouts that it can have in memory.
#[derive(Clone, Copy, Debug, PartialEq, Eq, Structural)]
pub struct Format {
    pub code: u32,
    pub modifier: u64,
}

/// A pixel format and all its layouts.
#[derive(Debug)]
pub struct FormatGroup {
    pub code: u32,
    pub modifiers: Vec<u64>,
}

/// The layouts of a format, in order.
pub open spec fn modifiers_of(formats: Seq<Format>, code: u32) -> Seq<u64>
    decreases formats.len(),
{
    if formats.len() == 0 {
        Seq::empty()
    } else {
        let rest = modifiers_of(formats.drop_last(), code);
        if formats.last().code == code {
            rest.push(formats.last().modifier)
        } else {
            rest
        }
    }
}

/// Whether `groups` are the formats gathered by their code, in whatever order: each
/// code once, with all its layouts.
pub open spec fn groups_formats(formats: Seq<Format>, groups: Seq<FormatGroup>) -> bool {
    &&& forall|i: int, j: int|
        0 <= i < j < groups.len() ==> (#[trigger] groups[i]).code != (#[trigger] groups[j]).code
    &&& forall|i: int|
        0 <= i < groups.len() ==> (#[trigger] groups[i]).modifiers@ == modifiers_of(
            formats,
            groups[i].code,
        ) && groups[i].modifiers@.len() > 0
    &&& forall|k: int|
        0 <= k < formats.len() ==> has_group(groups, (#[trigger] formats[k]).code)
}

pub open spec fn has_group(groups: Seq<FormatGroup>, code: u32) -> bool {
    exists|i: int| 0 <= i < groups.len() && (#[trigger] groups[i]).code == code
}

proof fn lemma_absent_code(formats: Seq<Format>, code: u32)
    requires
        forall|k: int| 0 <= k < formats.len() ==> (#[trigger] formats[k]).code != code,
    ensures
        modifiers_of(formats, code) =~= Seq::<u64>::empty(),
    decreases formats.len(),
{
    if formats.len() > 0 {
        assert(formats[formats.len() - 1].code != code);
        assert forall|k: int| 0 <= k < formats.drop_last().len() implies (
        #[trigger] formats.drop_last()[k]).code != code by {
            assert(formats[k].code != code);
        }
        lemma_absent_code(formats.drop_last(), code);
    }
}

fn add_format(groups: &mut Vec<FormatGroup>, f: Format, Ghost(seen): Ghost<Seq<Format>>)
    requires
        groups_formats(seen, old(groups)@),
    ensures
        groups_formats(seen.push(f), final(groups)@),
{
    let ghost was = groups@;
    let ghost all = seen.push(f);
    proof {
        assert(all.drop_last() =~= seen);
        assert(all.last() == f);
        assert forall|k: int| 0 <= k < all.len() && k < seen.len() implies #[trigger] all[k]
            == seen[k] by {}
    }
    let mut i: usize = 0;
    while i < groups.len()
        invariant
            i <= groups.len(),
            groups@ == was,
            groups_formats(seen, was),
            all == seen.push(f),
            all.drop_last() == seen,
            all.last() == f,
            forall|k: int| 0 <= k < i ==> (#[trigger] was[k]).code != f.code,
        decreases groups.len() - i,
    {
        if groups[i].code == f.code {
            groups[i].modifiers.push(f.modifier);
            proof {
                let g = groups@;
                assert(g[i as int].code == f.code);
                assert(g[i as int].modifiers@ == was[i as int].modifiers@.push(f.modifier));
                assert forall|j: int| 0 <= j < g.len() && j != i implies #[trigger] g[j] == was[j] by {}
                assert forall|a: int, b: int| 0 <= a < b < g.len() implies (#[trigger] g[a]).code
                    != (#[trigger] g[b]).code by {
                    assert(was[a].code != was[b].code);
                }
                assert forall|j: int| 0 <= j < g.len() implies (#[trigger] g[j]).modifiers@
                    == modifiers_of(all, g[j].code) && g[j].modifiers@.len() > 0 by {
                    assert(was[j].modifiers@ == modifiers_of(seen, was[j].code));
                    if j != i {
                        assert(was[j].code != f.code) by {
                            if j < i {
                                assert(was[j].code != was[i as int].code);
                            } else {
                                assert(was[i as int].code != was[j].code);
                            }
                        }
                    }
                }
                assert forall|k: int| 0 <= k < all.len() implies has_group(
                    g,
                    (#[trigger] all[k]).code,
                ) by {
                    if k < seen.len() {
                        assert(has_group(was, seen[k].code));
                        let j = choose|j: int|
                            0 <= j < was.len() && (#[trigger] was[j]).code == seen[k].code;
                        assert(g[j].code == seen[k].code);
                    } else {
                        assert(g[i as int].code == f.code);
                    }
                }
            }
            return;
        }
        i = i + 1;
    }
    let mut modifiers: Vec<u64> = Vec::new();
    modifiers.push(f.modifier);
    groups.push(FormatGroup { code: f.code, modifiers });
    proof {
        let g = groups@;
        let n = was.len() as int;
        assert(g[n].code == f.code);
        assert forall|j: int| 0 <= j < n implies #[trigger] g[j] == was[j] by {}
        assert forall|k: int| 0 <= k < seen.len() implies (#[trigger] seen[k]).code != f.code by {
            assert(has_group(was, seen[k].code));
            let j = choose|j: int| 0 <= j < was.len() && (#[trigger] was[j]).code == seen[k].code;
            assert(was[j].code != f.code);
        }
        lemma_absent_code(seen, f.code);
        assert(modifiers_of(all, f.code) =~= seq![f.modifier]);
        assert(g[n].modifiers@ =~= seq![f.modifier]);
        assert forall|j: int| 0 <= j < g.len() implies (#[trigger] g[j]).modifiers@
            == modifiers_of(all, g[j].code) && g[j].modifiers@.len() > 0 by {
            if j < n {
                assert(was[j].modifiers@ == modifiers_of(seen, was[j].code));
                assert(was[j].code != f.code);
            }
        }
        assert forall|k: int| 0 <= k < all.len() implies has_group(g, (#[trigger] all[k]).code) by {
            if k < seen.len() {
                assert(has_group(was, seen[k].code));
                let j = choose|j: int|
                    0 <= j < was.len() && (#[trigger] was[j]).code == seen[k].code;
                assert(g[j].code == seen[k].code);
            } else {
                assert(g[n].code == f.code);
            }
        }
    }
}

/// The formats that can be rendered to, by their code. Which code comes first is
/// of no account to whoever reads them.
pub fn group_formats(formats: &Vec<Format>) -> (out: Vec<FormatGroup>)
    ensures
        groups_formats(formats@, out@),
{
    let mut out: Vec<FormatGroup> = Vec::new();
    let mut i: usize = 0;
    while i < formats.len()
        invariant
            i <= formats.len(),
            groups_formats(formats@.take(i as int), out@),
        decreases formats.len() - i,
    {
        add_format(&mut out, formats[i], Ghost(formats@.take(i as int)));
        proof {
            assert(formats@.take(i as int).push(formats@[i as int]) =~= formats@.take(i + 1));
        }
        i = i + 1;
    }
    proof {
        assert(formats@.take(i as int) =~= formats@);
    }
    out
}

// ---------------------------------------------------------------------------
// The device
// ---------------------------------------------------------------------------

/// What the decisions need of the device.
#[derive(Debug)]
pub struct Drm {
    /// The pipe that drives the panel.
    pub crtc: u32,
    /// This session owns the device.
    pub active: bool,
    /// A flip was queued that the panel has not shown yet.
    pub pending_flip: bool,
    /// The displays that show what the panel shows.
    pub mirrors: Vec<Mirror>,
}

/// A device as contracts speak of it.
pub struct DrmView {
    pub crtc: u32,
    pub active: bool,
    pub pending_flip: bool,
    pub mirrors: Seq<Mirror>,
}

impl View for Drm {
    type V = DrmView;

    open spec fn view(&self) -> DrmView {
        DrmView {
            crtc: self.crtc,
            active: self.active,
            pending_flip: self.pending_flip,
            mirrors: self.mirrors@,
        }
    }
}

/// Something that is done to the device.
#[derive(Clone, Copy, Debug, PartialEq, Eq, Structural)]
pub enum DisplayStep {
    /// Release the frame that the panel no longer shows.
    FrameShown,
    /// The same for a mirror.
    MirrorShown(usize),
    PanelPower(bool),
    MirrorPower(bool),
    /// Forget what the buffers of the panel held.
    ResetPanel,
    ResetMirrors,
    /// Draw a frame, if one may be drawn.
    Render,
    RestoreGamma,
    /// Let the machine go to sleep.
    Acknowledge,
}

/// The mirrors, none of which waits for a flip.
pub open spec fn settled(mirrors: Seq<Mirror>) -> Seq<Mirror> {
    mirrors.map_values(|m: Mirror| Mirror { pending_flip: false, ..m })
}

pub open spec fn all_wait(mirrors: Seq<Mirror>) -> bool {
    forall|i: int| 0 <= i < mirrors.len() ==> (#[trigger] mirrors[i]).pending_flip
}

/// The mirrors after the pipe `crtc` has shown a frame.
pub open spec fn mirrors_shown(mirrors: Seq<Mirror>, crtc: u32) -> Seq<Mirror> {
    if pipes(mirrors).contains(crtc) {
        let i = pipes(mirrors).index_of_first(crtc)->0;
        mirrors.update(i, Mirror { pending_flip: false, ..mirrors[i] })
    } else {
        mirrors
    }
}

pub open spec fn render_if(b: bool) -> Seq<DisplayStep> {
    if b {
        seq![DisplayStep::Render]
    } else {
        Seq::empty()
    }
}

impl DrmView {
    /// Whether a frame may be drawn: this session owns the device, the panel has
    /// shown the last frame, and there is something to show it on. A dark panel
    /// leaves the mirrors, of which one has to be waiting for a frame.
    pub open spec fn may_draw(self, blanked: bool) -> bool {
        &&& self.active && !self.pending_flip
        &&& blanked ==> !all_wait(self.mirrors)
    }

    /// What a pipe that has shown a frame leads to. A mirror is driven by the
    /// panel, and carries the next frame only while the panel is dark.
    pub open spec fn shown(self, crtc: u32, blanked: bool, animating: bool) -> (DrmView, Seq<
        DisplayStep,
    >) {
        if crtc == self.crtc {
            (
                DrmView { pending_flip: false, ..self },
                seq![DisplayStep::FrameShown] + render_if(animating),
            )
        } else {
            (
                DrmView { mirrors: mirrors_shown(self.mirrors, crtc), ..self },
                (if pipes(self.mirrors).contains(crtc) {
                    seq![
                        DisplayStep::MirrorShown(
                            pipes(self.mirrors).index_of_first(crtc)->0 as usize,
                        ),
                    ]
                } else {
                    Seq::empty()
                }) + render_if(blanked && animating),
            )
        }
    }

    /// What a change of the panel leads to.
    pub open spec fn blanked(self, change: Option<bool>) -> (DrmView, Seq<DisplayStep>) {
        match change {
            None => (self, Seq::empty()),
            Some(true) => if self.mirrors.len() > 0 {
                (
                    DrmView { pending_flip: false, ..self },
                    seq![DisplayStep::PanelPower(false), DisplayStep::Render],
                )
            } else {
                (
                    DrmView { pending_flip: false, ..self },
                    seq![DisplayStep::PanelPower(false), DisplayStep::MirrorPower(false)],
                )
            },
            Some(false) => (
                DrmView { pending_flip: false, mirrors: settled(self.mirrors), ..self },
                seq![
                    DisplayStep::PanelPower(true),
                    DisplayStep::MirrorPower(true),
                    DisplayStep::ResetPanel,
                    DisplayStep::ResetMirrors,
                    DisplayStep::Render,
                ],
            ),
        }
    }
}

impl DrmView {
    /// What the machine being about to sleep leads to.
    pub open spec fn slept(self, blank: Blank) -> (DrmView, Seq<DisplayStep>) {
        let (after, steps) = self.blanked(
            if blank.blanked && !blank.dirty {
                None
            } else {
                Some(true)
            },
        );
        (
            DrmView { mirrors: settled(after.mirrors), ..after },
            steps + seq![DisplayStep::MirrorPower(false), DisplayStep::Acknowledge],
        )
    }
}

impl Drm {
    /// Whether another display shows what the panel shows, and goes on doing so
    /// when the panel is dark.
    pub fn mirroring(&self) -> (r: bool)
        ensures
            r == (self@.mirrors.len() > 0),
    {
        self.mirrors.len() > 0
    }

    fn settle_mirrors(&mut self)
        ensures
            final(self)@ == (DrmView { mirrors: settled(old(self)@.mirrors), ..old(self)@ }),
    {
        let ghost was = self.mirrors@;
        let mut next: Vec<Mirror> = Vec::new();
        let mut i: usize = 0;
        while i < self.mirrors.len()
            invariant
                i <= self.mirrors.len(),
                self.mirrors@ == was,
                *self == *old(self),
                next@ =~= settled(was).take(i as int),
            decreases self.mirrors.len() - i,
        {
            let m: Mirror = self.mirrors[i];
            next.push(Mirror { connector: m.connector, crtc: m.crtc, pending_flip: false });
            i = i + 1;
        }
        proof {
            assert(settled(was).take(i as int) =~= settled(was));
        }
        self.mirrors = next;
    }

    /// Whether a frame may be drawn.
    pub fn may_render(&self, blanked: bool) -> (r: bool)
        ensures
            r == self@.may_draw(blanked),
    {
        if !self.active || self.pending_flip {
            return false;
        }
        if !blanked {
            return true;
        }
        let mut i: usize = 0;
        while i < self.mirrors.len()
            invariant
                i <= self.mirrors.len(),
                self.active && !self.pending_flip && blanked,
                forall|k: int| 0 <= k < i ==> (#[trigger] self.mirrors@[k]).pending_flip,
            decreases self.mirrors.len() - i,
        {
            if !self.mirrors[i].pending_flip {
                proof {
                    assert(!self@.mirrors[i as int].pending_flip);
                }
                return true;
            }
            i = i + 1;
        }
        false
    }

    /// A pipe has shown a frame. The next one is drawn only if something still
    /// moves: on a screen at rest nothing is drawn at all.
    pub fn on_vblank(&mut self, crtc: u32, blanked: bool, animating: bool) -> (out: Vec<DisplayStep>)
        ensures
            (final(self)@, out@) == old(self)@.shown(crtc, blanked, animating),
    {
        let mut out: Vec<DisplayStep> = Vec::new();
        if crtc == self.crtc {
            self.pending_flip = false;
            out.push(DisplayStep::FrameShown);
            if animating {
                out.push(DisplayStep::Render);
            }
            proof {
                assert(out@ =~= seq![DisplayStep::FrameShown] + render_if(animating));
            }
            return out;
        }
        let ghost was = self.mirrors@;
        let mut i: usize = 0;
        let mut found: bool = false;
        while i < self.mirrors.len() && !found
            invariant
                i <= self.mirrors.len(),
                *self == *old(self),
                self.mirrors@ == was,
                found ==> i < was.len() && was[i as int].crtc == crtc,
                forall|k: int| 0 <= k < i ==> (#[trigger] was[k]).crtc != crtc,
            decreases self.mirrors.len() - i + if found {
                0int
            } else {
                1
            },
        {
            if self.mirrors[i].crtc == crtc {
                found = true;
            } else {
                i = i + 1;
            }
        }
        if found {
            let m: Mirror = self.mirrors[i];
            proof {
                assert(pipes(was)[i as int] == crtc);
                pipes(was).index_of_first_ensures(crtc);
                let j = pipes(was).index_of_first(crtc)->0;
                assert(was[j].crtc == crtc);
                assert(pipes(was)[j] == crtc);
                if j < i {
                    assert(was[j].crtc != crtc);
                }
                assert(j == i);
            }
            self.mirrors.set(
                i,
                Mirror { connector: m.connector, crtc: m.crtc, pending_flip: false },
            );
            out.push(DisplayStep::MirrorShown(i));
        } else {
            proof {
                if pipes(was).contains(crtc) {
                    let k = choose|k: int| 0 <= k < pipes(was).len() && pipes(was)[k] == crtc;
                    assert(was[k].crtc == crtc);
                }
            }
        }
        let ghost before = out@;
        if blanked && animating {
            out.push(DisplayStep::Render);
        }
        proof {
            assert(out@ =~= before + render_if(blanked && animating));
            assert(before =~= (if pipes(was).contains(crtc) {
                seq![DisplayStep::MirrorShown(pipes(was).index_of_first(crtc)->0 as usize)]
            } else {
                Seq::empty()
            }));
            assert(self.mirrors@ =~= mirrors_shown(was, crtc));
        }
        out
    }

    /// Another session took the device.
    pub fn pause(&mut self)
        ensures
            final(self)@ == (DrmView { active: false, ..old(self)@ }),
    {
        self.active = false;
    }

    /// This session has the device back. Whatever was under way is lost.
    pub fn activate(&mut self) -> (out: Vec<DisplayStep>)
        ensures
            final(self)@ == (DrmView {
                active: true,
                pending_flip: false,
                mirrors: settled(old(self)@.mirrors),
                ..old(self)@
            }),
            out@ == seq![DisplayStep::ResetPanel, DisplayStep::ResetMirrors, DisplayStep::Render],
    {
        self.active = true;
        self.pending_flip = false;
        self.settle_mirrors();
        let mut out: Vec<DisplayStep> = Vec::new();
        out.push(DisplayStep::ResetPanel);
        out.push(DisplayStep::ResetMirrors);
        out.push(DisplayStep::Render);
        out
    }

    /// Act on a change of the panel. It goes dark alone when there are mirrors:
    /// they keep their power and their frames, and pace them from then on.
    pub fn apply_blanking(&mut self, change: Option<bool>) -> (out: Vec<DisplayStep>)
        ensures
            (final(self)@, out@) == old(self)@.blanked(change),
    {
        let mut out: Vec<DisplayStep> = Vec::new();
        match change {
            None => {},
            Some(dark) => {
                self.pending_flip = false;
                out.push(DisplayStep::PanelPower(!dark));
                if dark {
                    if self.mirrors.len() > 0 {
                        out.push(DisplayStep::Render);
                    } else {
                        out.push(DisplayStep::MirrorPower(false));
                    }
                } else {
                    self.settle_mirrors();
                    out.push(DisplayStep::MirrorPower(true));
                    out.push(DisplayStep::ResetPanel);
                    out.push(DisplayStep::ResetMirrors);
                    out.push(DisplayStep::Render);
                }
            },
        }
        proof {
            assert(out@ =~= old(self)@.blanked(change).1);
            assert(self.mirrors@ =~= old(self)@.blanked(change).0.mirrors);
        }
        out
    }

    /// The machine is about to sleep, and waits to be let. Everything goes dark,
    /// the mirrors with it, before it is let.
    pub fn about_to_sleep(&mut self, blank: &mut Blank) -> (out: Vec<DisplayStep>)
        ensures
            final(blank).blanked && !final(blank).dirty,
            (final(self)@, out@) == old(self)@.slept(*old(blank)),
    {
        if !blank.is_blanked() {
            blank.toggle();
        }
        let change: Option<bool> = blank.take_change();
        let mut out: Vec<DisplayStep> = self.apply_blanking(change);
        let ghost first = out@;
        self.settle_mirrors();
        out.push(DisplayStep::MirrorPower(false));
        out.push(DisplayStep::Acknowledge);
        proof {
            assert(out@ =~= first + seq![DisplayStep::MirrorPower(false), DisplayStep::Acknowledge]);
        }
        out
    }

    /// Which mirrors get the frame that was just drawn: those that are not still
    /// busy with another.
    pub fn mirrors_due(&self) -> (out: Vec<usize>)
        ensures
            out@ == due(self@.mirrors),
    {
        let mut out: Vec<usize> = Vec::new();
        let mut i: usize = 0;
        proof {
            assert(self.mirrors@.take(0) =~= Seq::<Mirror>::empty());
        }
        while i < self.mirrors.len()
            invariant
                i <= self.mirrors.len(),
                out@ == due(self.mirrors@.take(i as int)),
            decreases self.mirrors.len() - i,
        {
            proof {
                assert(self.mirrors@.take(i + 1).drop_last() =~= self.mirrors@.take(i as int));
                assert(self.mirrors@.take(i + 1).last() == self.mirrors@[i as int]);
            }
            if !self.mirrors[i].pending_flip {
                out.push(i);
            }
            i = i + 1;
        }
        proof {
            assert(self.mirrors@.take(i as int) =~= self.mirrors@);
        }
        out
    }

    /// A flip was queued for a mirror, or could not be.
    pub fn mirror_queued(&mut self, i: usize, ok: bool)
        requires
            i < old(self)@.mirrors.len(),
        ensures
            final(self)@ == (if ok {
                DrmView {
                    mirrors: old(self)@.mirrors.update(
                        i as int,
                        Mirror { pending_flip: true, ..old(self)@.mirrors[i as int] },
                    ),
                    ..old(self)@
                }
            } else {
                old(self)@
            }),
    {
        if ok {
            let m: Mirror = self.mirrors[i];
            self.mirrors.set(
                i,
                Mirror { connector: m.connector, crtc: m.crtc, pending_flip: true },
            );
        }
    }
}

/// The positions of the mirrors that do not wait for a flip, in order.
pub open spec fn due(mirrors: Seq<Mirror>) -> Seq<usize>
    decreases mirrors.len(),
{
    if mirrors.len() == 0 {
        Seq::empty()
    } else {
        let rest = due(mirrors.drop_last());
        if mirrors.last().pending_flip {
            rest
        } else {
            rest.push((mirrors.len() - 1) as usize)
        }
    }
}

/// Whether the mirrors are flipped: once any of them was drawn to.
pub fn flips_mirrors(drawn: &Vec<bool>) -> (r: bool)
    ensures
        r == drawn@.contains(true),
{
    let mut i: usize = 0;
    while i < drawn.len()
        invariant
            i <= drawn.len(),
            forall|k: int| 0 <= k < i ==> !drawn@[k],
        decreases drawn.len() - i,
    {
        if drawn[i] {
            proof {
                assert(drawn@[i as int] == true);
            }
            return true;
        }
        i = i + 1;
    }
    false
}

/// Whether a device change concerns this device. Where its own number is not
/// known, each does.
pub fn concerns(ours: Option<u64>, changed: u64) -> (r: bool)
    ensures
        r == (ours is None || ours->0 == changed),
{
    match ours {
        Some(id) => id == changed,
        None => true,
    }
}

/// The mirrors were looked over again after a display came or went. Whether there
/// are any, and whether to draw a frame: a new display would stay black until
/// something else moves.
pub fn refresh_outputs(before: usize, after: usize) -> (r: (bool, bool))
    ensures
        r.0 == (after > 0),
        r.1 == (before != after),
{
    (after > 0, before != after)
}

/// Hand the device over in order: nothing dark, and the panel's colors as they
/// were.
pub fn shutdown(has_original_gamma: bool) -> (out: Vec<DisplayStep>)
    ensures
        out@ == seq![DisplayStep::PanelPower(true), DisplayStep::MirrorPower(true)] + (
        if has_original_gamma {
            seq![DisplayStep::RestoreGamma]
        } else {
            Seq::empty()
        }),
{
    let mut out: Vec<DisplayStep> = Vec::new();
    out.push(DisplayStep::PanelPower(true));
    out.push(DisplayStep::MirrorPower(true));
    if has_original_gamma {
        out.push(DisplayStep::RestoreGamma);
    }
    out
}

/// One frame at a time: none is drawn while the panel has yet to show the last
/// one, and the panel having shown it is what frees the next.
pub proof fn law_one_flip_at_a_time(d: DrmView, blanked: bool, animating: bool)
    requires
        d.active,
        d.pending_flip,
    ensures
        !d.may_draw(blanked),
        d.shown(d.crtc, false, animating).0.may_draw(false),
        forall|crtc: u32| crtc != d.crtc ==> !(#[trigger] d.shown(crtc, blanked, animating)).0.may_draw(blanked),
{
}

/// A panel that lights up again is painted, whatever was under way when it went
/// dark.
pub proof fn law_waking_paints(d: DrmView)
    requires
        d.active,
    ensures
        d.blanked(Some(false)).0.may_draw(false),
        d.blanked(Some(false)).1.last() == DisplayStep::Render,
        d.blanked(Some(false)).1.first() == DisplayStep::PanelPower(true),
{
}

/// A dark panel takes nothing from a mirror: its power is not touched, and a
/// frame is drawn for it as soon as it can take one. Without a mirror nothing is
/// drawn.
pub proof fn law_mirrors_outlive_the_panel(d: DrmView)
    requires
        d.active,
    ensures
        ({
            let (after, steps) = d.blanked(Some(true));
            &&& after.mirrors == d.mirrors
            &&& d.mirrors.len() > 0 ==> !steps.contains(DisplayStep::MirrorPower(false))
                && steps.contains(DisplayStep::Render)
            &&& after.may_draw(true) <==> exists|i: int|
                0 <= i < d.mirrors.len() && !(#[trigger] d.mirrors[i]).pending_flip
        }),
{
    let (after, steps) = d.blanked(Some(true));
    if d.mirrors.len() > 0 {
        assert(steps[1] == DisplayStep::Render);
    }
}

/// The machine sleeps behind dark displays: a panel that was lit goes dark first,
/// the mirrors go dark after their last frame, and the machine is let last of
/// all. No frame is under way then.
pub proof fn law_machine_sleeps_behind_dark_displays(d: DrmView, blank: Blank)
    requires
        !blank.blanked,
    ensures
        ({
            let (after, steps) = d.slept(blank);
            let n = steps.len() as int;
            &&& steps.first() == DisplayStep::PanelPower(false)
            &&& steps[n - 2] == DisplayStep::MirrorPower(false)
            &&& steps.last() == DisplayStep::Acknowledge
            &&& !after.pending_flip
            &&& forall|i: int|
                0 <= i < after.mirrors.len() ==> !(#[trigger] after.mirrors[i]).pending_flip
        }),
{
}

// ---------------------------------------------------------------------------
// A frame
// ---------------------------------------------------------------------------

/// The longest time that a frame is taken to last, a thirtieth of a second: after
/// a stall what moves goes on from where it was, and is not flung.
pub const LONGEST_STEP: Nanos = 33_333_333;

/// By how much a frame at `now` advances what moves.
pub open spec fn step_of(last: Nanos, now: Nanos) -> Nanos {
    if elapsed(last, now) <= LONGEST_STEP {
        elapsed(last, now)
    } else {
        LONGEST_STEP
    }
}

/// By how much a frame at `now` advances what moves, after one at `last`.
pub fn frame_step(last: Nanos, now: Nanos) -> (r: Nanos)
    ensures
        r == step_of(last, now),
{
    let dt: Nanos = since(last, now);
    if dt <= LONGEST_STEP {
        dt
    } else {
        LONGEST_STEP
    }
}

/// A frame is drawn now: the request for it is taken, so that whatever asks for
/// one from here on gets its own. By how much it advances what moves.
pub fn take_frame(needs_render: &mut bool, last_frame: &mut Nanos, now: Nanos) -> (r: Nanos)
    ensures
        !*final(needs_render),
        *final(last_frame) == now,
        r == step_of(*old(last_frame), now),
{
    *needs_render = false;
    let dt: Nanos = frame_step(*last_frame, now);
    *last_frame = now;
    dt
}

/// However long the shell stalled, the next frame is a short one, and none is
/// longer than the time that passed.
pub proof fn law_stall_flings_nothing(last: Nanos, now: Nanos)
    ensures
        step_of(last, now) <= LONGEST_STEP,
        step_of(last, now) <= elapsed(last, now),
        elapsed(last, now) > 0 ==> step_of(last, now) > 0,
{
}

/// What a frame consists of, in order.
#[derive(Clone, Copy, Debug, PartialEq, Eq, Structural)]
pub enum FrameWork {
    /// Get the buffer to draw into.
    NextBuffer,
    Bind,
    Draw,
    /// Wait until the frame is drawn, so that no half of one is ever shown.
    Finish,
    /// Queue the flip of the panel.
    Queue,
    /// Show the frame on the mirrors. The panel's flip is under way by then, so no
    /// mirror can hold it up.
    PresentMirrors,
    Record,
    /// Serve whoever wants a copy of the frame.
    Capture,
    End,
}

/// What follows a part of a frame that ended well, or did not. The flip of a dark
/// panel is left out: it would fail, and never be shown.
pub open spec fn work_after(at: FrameWork, ok: bool, blanked: bool) -> FrameWork {
    match at {
        FrameWork::NextBuffer => if ok {
            FrameWork::Bind
        } else {
            FrameWork::End
        },
        FrameWork::Bind => if ok {
            FrameWork::Draw
        } else {
            FrameWork::End
        },
        FrameWork::Draw => if ok {
            FrameWork::Finish
        } else {
            FrameWork::End
        },
        FrameWork::Finish => if blanked {
            FrameWork::PresentMirrors
        } else {
            FrameWork::Queue
        },
        FrameWork::Queue => FrameWork::PresentMirrors,
        FrameWork::PresentMirrors => FrameWork::Record,
        FrameWork::Record => FrameWork::Capture,
        FrameWork::Capture => FrameWork::End,
        FrameWork::End => FrameWork::End,
    }
}

impl Drm {
    /// Draw a frame, if one may be drawn: by how much it advances what moves. A
    /// frame that may not be drawn stays asked for.
    pub fn begin_render(
        &self,
        needs_render: &mut bool,
        last_frame: &mut Nanos,
        blanked: bool,
        now: Nanos,
    ) -> (r: Option<Nanos>)
        ensures
            if self@.may_draw(blanked) {
                &&& r == Some(step_of(*old(last_frame), now))
                &&& !*final(needs_render)
                &&& *final(last_frame) == now
            } else {
                &&& r is None
                &&& *final(needs_render) == *old(needs_render)
                &&& *final(last_frame) == *old(last_frame)
            },
    {
        if !self.may_render(blanked) {
            return None;
        }
        Some(take_frame(needs_render, last_frame, now))
    }

    /// A part of a frame ended well, or did not: what follows it. A flip that was
    /// queued is pending from then on.
    pub fn render(&mut self, at: FrameWork, ok: bool, blanked: bool) -> (r: FrameWork)
        ensures
            r == work_after(at, ok, blanked),
            final(self)@ == (if at == FrameWork::Queue && ok {
                DrmView { pending_flip: true, ..old(self)@ }
            } else {
                old(self)@
            }),
    {
        match at {
            FrameWork::NextBuffer => {
                if ok {
                    FrameWork::Bind
                } else {
                    FrameWork::End
                }
            },
            FrameWork::Bind => {
                if ok {
                    FrameWork::Draw
                } else {
                    FrameWork::End
                }
            },
            FrameWork::Draw => {
                if ok {
                    FrameWork::Finish
                } else {
                    FrameWork::End
                }
            },
            FrameWork::Finish => {
                if blanked {
                    FrameWork::PresentMirrors
                } else {
                    FrameWork::Queue
                }
            },
            FrameWork::Queue => {
                if ok {
                    self.pending_flip = true;
                }
                FrameWork::PresentMirrors
            },
            FrameWork::PresentMirrors => FrameWork::Record,
            FrameWork::Record => FrameWork::Capture,
            FrameWork::Capture => FrameWork::End,
            FrameWork::End => FrameWork::End,
        }
    }
}

/// How many parts of a frame are left at most.
pub open spec fn work_left(at: FrameWork) -> int {
    match at {
        FrameWork::NextBuffer => 8,
        FrameWork::Bind => 7,
        FrameWork::Draw => 6,
        FrameWork::Finish => 5,
        FrameWork::Queue => 4,
        FrameWork::PresentMirrors => 3,
        FrameWork::Record => 2,
        FrameWork::Capture => 1,
        FrameWork::End => 0,
    }
}

/// Every frame ends, a dark panel is never flipped, and only a frame that was
/// drawn whole is.
pub proof fn law_only_whole_frames_are_shown(at: FrameWork, ok: bool, blanked: bool)
    requires
        at != FrameWork::End,
    ensures
        0 <= work_left(work_after(at, ok, blanked)) < work_left(at),
        work_after(at, ok, blanked) == FrameWork::Queue ==> at == FrameWork::Finish && !blanked,
        work_after(at, ok, blanked) == FrameWork::Finish ==> at == FrameWork::Draw && ok,
{
}

/// What a frame consists of, as far as it matters to what has changed.
#[derive(Clone, Copy, Debug, PartialEq, Eq, Structural)]
pub struct FrameFacts {
    pub lock_view: LockView,
    pub window_covers: bool,
    pub has_app: bool,
    pub cards: usize,
    pub show_home: bool,
    pub osd: bool,
    pub bar_fading: bool,
    pub touch_marks: usize,
    pub layers_below: usize,
    pub layers_above: usize,
}

/// Whether nothing but the app can have changed since the last frame. The shell's
/// own drawing is not kept track of, so whatever of it is shown rules that out.
pub fn report_partial(f: &FrameFacts) -> (r: bool)
    ensures
        r == {
            &&& f.lock_view == LockView::Unlocked
            &&& f.window_covers && f.has_app
            &&& f.cards == 0 && !f.show_home
            &&& !f.osd && !f.bar_fading && f.touch_marks == 0
            &&& f.layers_below == 0 && f.layers_above == 0
        },
{
    let unlocked: bool = match f.lock_view {
        LockView::Unlocked => true,
        _ => false,
    };
    unlocked && f.window_covers && f.has_app && f.cards == 0 && !f.show_home && !f.osd
        && !f.bar_fading && f.touch_marks == 0 && f.layers_below == 0 && f.layers_above == 0
}

// ---------------------------------------------------------------------------
// Copies of a frame
// ---------------------------------------------------------------------------

/// What whoever asked for a copy of a frame is told.
#[derive(Clone, Copy, Debug, PartialEq, Eq, Structural)]
pub enum CaptureEnd {
    Success,
    /// It failed, for no reason of the client's.
    Unknown,
    /// The buffer is none that a frame could be copied to.
    BufferConstraints,
}

/// How drawing a frame aside and reading it back into shared memory ended;
/// `None` if there was nothing to draw it to.
pub fn capture_region_shm(offscreen: bool, bound: bool, drawn: bool, copied: bool) -> (r: Option<bool>)
    ensures
        r == (if !offscreen {
            None
        } else {
            Some(bound && drawn && copied)
        }),
{
    if !offscreen {
        None
    } else if !bound || !drawn {
        Some(false)
    } else {
        Some(copied)
    }
}

/// What a client is told of a copy: into a buffer that the GPU can draw to, or
/// into shared memory, with the outcome `shm`.
pub fn capture_end(dmabuf: bool, bound: bool, drawn: bool, shm: Option<bool>) -> (r: CaptureEnd)
    ensures
        r == CaptureEnd::Success <==> (if dmabuf {
            bound && drawn
        } else {
            shm == Some(true)
        }),
        r == CaptureEnd::BufferConstraints <==> !dmabuf && shm is None,
{
    if dmabuf {
        if bound && drawn {
            CaptureEnd::Success
        } else {
            CaptureEnd::Unknown
        }
    } else {
        match shm {
            Some(true) => CaptureEnd::Success,
            Some(false) => CaptureEnd::Unknown,
            None => CaptureEnd::BufferConstraints,
        }
    }
}

// ---------------------------------------------------------------------------
// The loop
// ---------------------------------------------------------------------------

/// How long a turn of the loop waits while something moves. The loop is what
/// starts a frame when no flip is under way.
pub const ACTIVE_TIMEOUT: Nanos = 2_000_000;

/// How long it waits while nothing does.
pub const IDLE_TIMEOUT: Nanos = 50_000_000;

/// How long a turn of the loop waits for something to happen.
pub fn wait_for(animating: bool) -> (r: Nanos)
    ensures
        r == (if animating {
            ACTIVE_TIMEOUT
        } else {
            IDLE_TIMEOUT
        }),
{
    if animating {
        ACTIVE_TIMEOUT
    } else {
        IDLE_TIMEOUT
    }
}

/// Something that a turn of the loop does.
#[derive(Clone, Copy, Debug, PartialEq, Eq, Structural)]
pub enum TurnStep {
    /// Take what arrived at the control socket.
    DrainControl,
    /// Fire the long presses whose time has come. A frame could not: none is drawn
    /// while nothing moves.
    PollKeys,
    PollLaunching,
    DrainSensor,
    SyncKeyboardFocus,
    PollIdle,
    ApplyBlanking,
    ApplyGamma,
    /// Ask the scheduler for speed, or stop asking. Before the frame, or the
    /// first frame of a touch would miss it.
    Speed(bool),
    Render,
    /// Send the clients what is theirs.
    Flush,
}

/// What a turn does once its events are handled.
pub fn housekeeping(control: bool) -> (out: Vec<TurnStep>)
    ensures
        out@ == (if control {
            seq![TurnStep::DrainControl]
        } else {
            Seq::empty()
        }) + seq![
            TurnStep::PollKeys,
            TurnStep::PollLaunching,
            TurnStep::DrainSensor,
            TurnStep::SyncKeyboardFocus,
            TurnStep::PollIdle,
            TurnStep::ApplyBlanking,
            TurnStep::ApplyGamma,
        ],
{
    let mut out: Vec<TurnStep> = Vec::new();
    if control {
        out.push(TurnStep::DrainControl);
    }
    out.push(TurnStep::PollKeys);
    out.push(TurnStep::PollLaunching);
    out.push(TurnStep::DrainSensor);
    out.push(TurnStep::SyncKeyboardFocus);
    out.push(TurnStep::PollIdle);
    out.push(TurnStep::ApplyBlanking);
    out.push(TurnStep::ApplyGamma);
    out
}

/// What a turn ends with. The clients come last, and always: a frame tells them
/// to go on, and they would wait for it until the next turn otherwise.
pub fn finish_turn(drawing: bool) -> (out: Vec<TurnStep>)
    ensures
        out@ == seq![TurnStep::Speed(drawing)] + (if drawing {
            seq![TurnStep::Render]
        } else {
            Seq::empty()
        }) + seq![TurnStep::Flush],
{
    let mut out: Vec<TurnStep> = Vec::new();
    out.push(TurnStep::Speed(drawing));
    if drawing {
        out.push(TurnStep::Render);
    }
    out.push(TurnStep::Flush);
    out
}

/// The countdown and the panel after a turn of the loop.
pub open spec fn idled(idle: Idle, blank: Blank, inhibited: bool, now: Nanos) -> (Idle, Blank) {
    if inhibited {
        (idle.after_input(now), blank)
    } else if idle.is_due(now) && !blank.blanked {
        (idle, Blank { blanked: true, dirty: true })
    } else {
        (idle, blank)
    }
}

/// Turn the panel off once nothing happened for long enough. While something
/// visible holds that off the countdown is kept fresh, or the panel would go dark
/// the moment it lets go.
pub fn poll_idle(idle: &mut Idle, blank: &mut Blank, inhibited: bool, now: Nanos)
    ensures
        (*final(idle), *final(blank)) == idled(*old(idle), *old(blank), inhibited, now),
{
    if inhibited {
        idle.activity(now);
    } else if idle.should_blank(now) && !blank.is_blanked() {
        blank.toggle();
    }
}

/// A film that holds the panel on gives it a whole timeout more when it ends.
pub proof fn law_inhibitor_leaves_a_whole_timeout(
    idle: Idle,
    blank: Blank,
    held: Nanos,
    now: Nanos,
)
    requires
        idle.timeout is Some,
        held <= now,
        now - held < idle.timeout->0,
    ensures
        ({
            let (i, b) = idled(idle, blank, true, held);
            b == blank && idled(i, b, false, now).1 == blank
        }),
{
}

/// Input of any kind: a frame is due, the countdown starts again, and clients
/// that were told of idleness are told of its end.
pub fn note_input(
    needs_render: &mut bool,
    idle: &mut Idle,
    notify: &mut IdleNotify,
    now: Nanos,
) -> (out: Vec<Event>)
    ensures
        *final(needs_render),
        *final(idle) == old(idle).after_input(now),
        final(notify).last_activity == now,
        final(notify).notifications@ == all_woken(old(notify).notifications@),
        out@ == told(all_waking(old(notify).notifications@)),
{
    *needs_render = true;
    idle.activity(now);
    notify.activity(now)
}

/// What is written to the table of the panel.
#[derive(Debug)]
pub enum GammaWrite {
    Nothing,
    Program(Vec<u16>, Vec<u16>, Vec<u16>),
    /// What the table held when the shell started.
    Original,
}

/// What a change of the table leads to. A table that could not be read at the
/// start is left as it is.
pub fn apply_gamma(update: Option<GammaUpdate>, has_original: bool) -> (r: GammaWrite)
    ensures
        r == (match update {
            Some(GammaUpdate::Program(red, green, blue)) => GammaWrite::Program(red, green, blue),
            Some(GammaUpdate::Reset) => if has_original {
                GammaWrite::Original
            } else {
                GammaWrite::Nothing
            },
            None => GammaWrite::Nothing,
        }),
{
    match update {
        Some(GammaUpdate::Program(red, green, blue)) => GammaWrite::Program(red, green, blue),
        Some(GammaUpdate::Reset) => {
            if has_original {
                GammaWrite::Original
            } else {
                GammaWrite::Nothing
            }
        },
        None => GammaWrite::Nothing,
    }
}

/// Opening is tried twenty times, one try after the other, and given up after
/// the last; a device that opened is not tried again.
pub proof fn law_device_is_tried_twenty_times(attempt: u32, ok: bool, r: OpenNext)
    requires
        call_ensures(after_open, (attempt, ok), r),
    ensures
        r == OpenNext::Opened <==> ok,
        r == OpenNext::GiveUp <==> !ok && attempt >= 20,
        r is Retry ==> r->0 == attempt + 1,
{
}

/// The first property that is called by the name counts.
pub proof fn law_power_property_is_found_by_name(props: Vec<Property>, r: Option<u32>, k: int)
    requires
        call_ensures(find_dpms_prop, (&props,), r),
        0 <= k < props@.len(),
        props@[k].name is Some,
        props@[k].name->0@ == "DPMS"@,
        forall|j: int|
            0 <= j < k ==> (#[trigger] props@[j]).name is None || props@[j].name->0@ != "DPMS"@,
    ensures
        r == Some(props@[k].handle),
{
    assert(is_dpms(props@[k]));
    if r is Some {
        let i = choose|i: int|
            0 <= i < props@.len() && is_dpms(#[trigger] props@[i]) && props@[i].handle == r->0 && forall|
                j: int,
            |
                0 <= j < i ==> !is_dpms(#[trigger] props@[j]);
        if i < k {
            assert(props@[i].name is None || props@[i].name->0@ != "DPMS"@);
        } else if k < i {
            assert(!is_dpms(props@[k]));
        }
    }
}

/// Nought powers a display on, three powers it off.
pub proof fn law_power_values_differ(on: bool, r: u64)
    requires
        call_ensures(dpms_value, (on,), r),
    ensures
        on ==> r == 0,
        !on ==> r == 3,
{
}

/// A layout is gathered under its format.
proof fn lemma_modifier_is_gathered(formats: Seq<Format>, k: int)
    requires
        0 <= k < formats.len(),
    ensures
        modifiers_of(formats, formats[k].code).contains(formats[k].modifier),
    decreases formats.len(),
{
    let code = formats[k].code;
    let rest = modifiers_of(formats.drop_last(), code);
    let now = modifiers_of(formats, code);
    if k < formats.len() - 1 {
        assert(formats.drop_last()[k] == formats[k]);
        lemma_modifier_is_gathered(formats.drop_last(), k);
        let j = choose|j: int| 0 <= j < rest.len() && rest[j] == formats[k].modifier;
        assert(now[j] == formats[k].modifier);
    } else {
        assert(now[rest.len() as int] == formats[k].modifier);
    }
}

/// What is gathered under a format is one of its layouts.
proof fn lemma_gathered_is_a_modifier(formats: Seq<Format>, code: u32, m: u64)
    requires
        modifiers_of(formats, code).contains(m),
    ensures
        exists|k: int| 0 <= k < formats.len() && #[trigger] formats[k] == (Format { code, modifier: m }),
    decreases formats.len(),
{
    if formats.len() > 0 {
        let less = formats.drop_last();
        let rest = modifiers_of(less, code);
        let now = modifiers_of(formats, code);
        let j = choose|j: int| 0 <= j < now.len() && now[j] == m;
        if j < rest.len() {
            assert(rest[j] == m);
            lemma_gathered_is_a_modifier(less, code, m);
            let k = choose|k: int|
                0 <= k < less.len() && #[trigger] less[k] == (Format { code, modifier: m });
            assert(formats[k] == less[k]);
        } else {
            assert(formats[formats.len() - 1] == (Format { code, modifier: m }));
        }
    }
}

/// Every format is in the group of its code, and a group holds nothing else.
pub proof fn law_formats_are_gathered_by_code(formats: Vec<Format>, out: Vec<FormatGroup>, k: int, i: int, m: u64)
    requires
        call_ensures(group_formats, (&formats,), out),
        0 <= k < formats@.len(),
        0 <= i < out@.len(),
    ensures
        out@[i].code == formats@[k].code ==> out@[i].modifiers@.contains(formats@[k].modifier),
        out@[i].modifiers@.contains(m) ==> exists|j: int|
            0 <= j < formats@.len() && #[trigger] formats@[j] == (Format {
                code: out@[i].code,
                modifier: m,
            }),
        exists|j: int| 0 <= j < out@.len() && (#[trigger] out@[j]).code == formats@[k].code,
{
    assert(out@[i].modifiers@ == modifiers_of(formats@, out@[i].code));
    lemma_modifier_is_gathered(formats@, k);
    if out@[i].modifiers@.contains(m) {
        lemma_gathered_is_a_modifier(formats@, out@[i].code, m);
    }
    assert(has_group(out@, formats@[k].code));
}

/// A frame may be drawn while this session owns the device and no flip of the
/// panel is under way; behind a dark panel only while a mirror can take it.
pub proof fn law_frame_needs_somewhere_to_go(d: Drm, blanked: bool, r: bool)
    requires
        call_ensures(Drm::may_render, (&d, blanked), r),
    ensures
        r ==> d.active && !d.pending_flip,
        d.active && !d.pending_flip && !blanked ==> r,
        d.active && !d.pending_flip && blanked ==> (r <==> exists|i: int|
            0 <= i < d.mirrors@.len() && !(#[trigger] d.mirrors@[i]).pending_flip),
{
}

/// The panel having shown a frame frees it for the next, which is drawn if
/// something still moves; a mirror having shown one frees that mirror, and only
/// behind a dark panel does it lead to the next.
pub proof fn law_shown_frame_leads_to_the_next(
    d: &mut Drm,
    crtc: u32,
    blanked: bool,
    animating: bool,
    out: Vec<DisplayStep>,
)
    requires
        call_ensures(Drm::on_vblank, (d, crtc, blanked, animating), out),
    ensures
        out@.contains(DisplayStep::FrameShown) <==> crtc == old(d).crtc,
        out@.contains(DisplayStep::Render) <==> animating && (crtc == old(d).crtc || blanked),
        crtc == old(d).crtc ==> !final(d).pending_flip && final(d).mirrors@ == old(d).mirrors@,
        crtc != old(d).crtc ==> final(d).pending_flip == old(d).pending_flip,
        final(d).active == old(d).active,
        final(d).crtc == old(d).crtc,
{
    let s = out@;
    let v = old(d)@;
    assert((final(d)@, s) == v.shown(crtc, blanked, animating));
    if s.len() > 0 {
        assert(s[0] == s[0]);
    }
    if crtc == v.crtc {
        assert(s[0] == DisplayStep::FrameShown);
        if animating {
            assert(s[1] == DisplayStep::Render);
        }
    } else if blanked && animating {
        assert(s[s.len() - 1] == DisplayStep::Render);
    }
}

/// The mirror whose pipe has shown a frame can take the next one, and no other
/// mirror is touched.
pub proof fn law_mirror_is_freed_by_its_pipe(
    d: &mut Drm,
    crtc: u32,
    blanked: bool,
    animating: bool,
    out: Vec<DisplayStep>,
    i: int,
    j: int,
)
    requires
        call_ensures(Drm::on_vblank, (d, crtc, blanked, animating), out),
        crtc != old(d).crtc,
        0 <= i < old(d).mirrors@.len(),
        old(d).mirrors@[i].crtc == crtc,
        forall|k: int| 0 <= k < i ==> (#[trigger] old(d).mirrors@[k]).crtc != crtc,
        0 <= j < old(d).mirrors@.len(),
        j != i,
        old(d).mirrors@.len() <= usize::MAX,
    ensures
        !final(d).mirrors@[i].pending_flip,
        final(d).mirrors@[j] == old(d).mirrors@[j],
        out@[0] == DisplayStep::MirrorShown(i as usize),
{
    let ms = old(d)@.mirrors;
    let ps = pipes(ms);
    assert(ps[i] == crtc);
    ps.index_of_first_ensures(crtc);
    let f = ps.index_of_first(crtc)->0;
    assert(ms[f].crtc == crtc);
    if f < i {
        assert(old(d).mirrors@[f].crtc != crtc);
    }
    assert((final(d)@, out@) == old(d)@.shown(crtc, blanked, animating));
}

/// The session that gets the device back paints everything anew and waits for no
/// flip; one that lost it draws nothing.
pub proof fn law_session_switch_starts_anew(
    a: &mut Drm,
    b: &mut Drm,
    out: Vec<DisplayStep>,
    blanked: bool,
    paused: bool,
    lit: bool,
    i: int,
)
    requires
        call_ensures(Drm::pause, (a,), ()),
        call_ensures(Drm::may_render, (final(a), blanked), paused),
        *final(a) == *old(b),
        call_ensures(Drm::activate, (b,), out),
        call_ensures(Drm::may_render, (final(b), false), lit),
        0 <= i < old(a).mirrors@.len(),
    ensures
        !paused,
        lit,
        out@.contains(DisplayStep::ResetPanel) && out@.contains(DisplayStep::ResetMirrors),
        out@.last() == DisplayStep::Render,
        !final(b).mirrors@[i].pending_flip,
        final(b).mirrors@[i].crtc == old(a).mirrors@[i].crtc,
        final(b).mirrors@[i].connector == old(a).mirrors@[i].connector,
{
    assert(out@[0] == DisplayStep::ResetPanel);
    assert(out@[1] == DisplayStep::ResetMirrors);
    assert(final(b)@.mirrors[i] == settled(old(b)@.mirrors)[i]);
}

/// A change of the panel is done to the panel: dark is off and lit is on. The
/// mirrors go off with it only where there are none to go on, and come on again
/// with it; a panel that lights up is painted last of all. Without a change
/// nothing is done.
pub proof fn law_panel_power_follows_the_change(d: &mut Drm, change: Option<bool>, out: Vec<DisplayStep>)
    requires
        call_ensures(Drm::apply_blanking, (d, change), out),
    ensures
        change is None ==> out@.len() == 0 && final(d)@ == old(d)@,
        out@.contains(DisplayStep::PanelPower(false)) <==> change == Some(true),
        out@.contains(DisplayStep::PanelPower(true)) <==> change == Some(false),
        out@.contains(DisplayStep::MirrorPower(false)) <==> change == Some(true) && old(d).mirrors@.len() == 0,
        out@.contains(DisplayStep::MirrorPower(true)) <==> change == Some(false),
        out@.contains(DisplayStep::ResetPanel) <==> change == Some(false),
        out@.contains(DisplayStep::ResetMirrors) <==> change == Some(false),
        out@.contains(DisplayStep::Render) <==> change == Some(false) || (change == Some(true) && old(d).mirrors@.len() > 0),
        change is Some ==> !final(d).pending_flip,
{
    let s = out@;
    let (v, steps) = old(d)@.blanked(change);
    assert((final(d)@, s) == (v, steps));
    if change is Some {
        assert(s[0] == DisplayStep::PanelPower(!change->0));
        assert(s[1] == s[1]);
        if change == Some(false) {
            assert(s[1] == DisplayStep::MirrorPower(true));
            assert(s[2] == DisplayStep::ResetPanel);
            assert(s[3] == DisplayStep::ResetMirrors);
            assert(s[4] == DisplayStep::Render);
        }
    }
}

/// Before it sleeps the machine is let last, behind mirrors that are off and,
/// unless it was off already, a panel that was switched off.
pub proof fn law_machine_is_let_last(d: &mut Drm, blank: &mut Blank, out: Vec<DisplayStep>)
    requires
        call_ensures(Drm::about_to_sleep, (d, blank), out),
    ensures
        final(blank).blanked,
        !final(blank).dirty,
        out@.last() == DisplayStep::Acknowledge,
        out@.contains(DisplayStep::MirrorPower(false)),
        !old(blank).blanked ==> out@.first() == DisplayStep::PanelPower(false),
        old(blank).blanked && !old(blank).dirty ==> !out@.contains(DisplayStep::PanelPower(false)),
        !out@.contains(DisplayStep::PanelPower(true)),
{
    let s = out@;
    let (v, steps) = old(d)@.slept(*old(blank));
    assert((final(d)@, s) == (v, steps));
    assert(s[s.len() - 2] == DisplayStep::MirrorPower(false));
}

/// A mirror gets a frame exactly if it is not busy with another.
pub proof fn law_idle_mirrors_get_the_frame(d: Drm, out: Vec<usize>, i: usize)
    requires
        call_ensures(Drm::mirrors_due, (&d,), out),
        d.mirrors@.len() <= usize::MAX,
    ensures
        out@.contains(i) <==> i < d.mirrors@.len() && !d.mirrors@[i as int].pending_flip,
{
    lemma_due(d.mirrors@, i);
}

proof fn lemma_due(mirrors: Seq<Mirror>, i: usize)
    requires
        mirrors.len() <= usize::MAX,
    ensures
        due(mirrors).contains(i) <==> i < mirrors.len() && !mirrors[i as int].pending_flip,
    decreases mirrors.len(),
{
    if mirrors.len() > 0 {
        let less = mirrors.drop_last();
        let rest = due(less);
        let now = due(mirrors);
        lemma_due(less, i);
        if now.contains(i) {
            let k = choose|k: int| 0 <= k < now.len() && now[k] == i;
            if k < rest.len() {
                assert(rest[k] == i);
                assert(less[i as int] == mirrors[i as int]);
            }
        }
        if i < mirrors.len() && !mirrors[i as int].pending_flip {
            if i < less.len() {
                assert(less[i as int] == mirrors[i as int]);
                let k = choose|k: int| 0 <= k < rest.len() && rest[k] == i;
                assert(now[k] == i);
            } else {
                assert(now[rest.len() as int] == i);
            }
        }
    }
}

/// A mirror waits exactly once its flip was queued, and no other does for it.
pub proof fn law_queued_mirror_waits(d: &mut Drm, i: usize, ok: bool, j: int)
    requires
        call_ensures(Drm::mirror_queued, (d, i, ok), ()),
        i < old(d).mirrors@.len(),
        0 <= j < old(d).mirrors@.len(),
        j != i,
    ensures
        ok ==> final(d).mirrors@[i as int].pending_flip,
        !ok ==> final(d)@ == old(d)@,
        final(d).mirrors@[j] == old(d).mirrors@[j],
        final(d).mirrors@[i as int].crtc == old(d).mirrors@[i as int].crtc,
{
    assert(final(d)@.mirrors[j] == old(d)@.mirrors[j]);
}

/// One mirror that was drawn to is enough to flip them.
pub proof fn law_one_drawn_mirror_is_enough(drawn: Vec<bool>, r: bool)
    requires
        call_ensures(flips_mirrors, (&drawn,), r),
    ensures
        r <==> exists|i: int| 0 <= i < drawn@.len() && #[trigger] drawn@[i],
{
    if r {
        let i = choose|i: int| 0 <= i < drawn@.len() && drawn@[i] == true;
        assert(drawn@[i]);
    } else {
        assert forall|i: int| 0 <= i < drawn@.len() implies !#[trigger] drawn@[i] by {
            if drawn@[i] {
                assert(drawn@[i] == true);
                assert(drawn@.contains(true));
            }
        }
    }
}

/// A change of another device is none of this one's, as far as that is known.
pub proof fn law_only_own_changes_concern(ours: Option<u64>, changed: u64, r: bool)
    requires
        call_ensures(concerns, (ours, changed), r),
    ensures
        ours == Some(changed) ==> r,
        ours is None ==> r,
        r ==> ours is None || ours == Some(changed),
{
}

/// A frame is drawn for a display that came or went.
pub proof fn law_new_display_gets_a_frame(before: usize, after: usize, r: (bool, bool))
    requires
        call_ensures(refresh_outputs, (before, after), r),
    ensures
        r.0 <==> after != 0,
        r.1 <==> before != after,
{
}

/// The device is handed over lit, with the colors that it had.
pub proof fn law_device_is_handed_over_lit(has_original_gamma: bool, out: Vec<DisplayStep>)
    requires
        call_ensures(shutdown, (has_original_gamma,), out),
    ensures
        out@.contains(DisplayStep::PanelPower(true)),
        out@.contains(DisplayStep::MirrorPower(true)),
        out@.contains(DisplayStep::RestoreGamma) <==> has_original_gamma,
        !out@.contains(DisplayStep::PanelPower(false)) && !out@.contains(DisplayStep::MirrorPower(false)),
{
    assert(out@[0] == DisplayStep::PanelPower(true));
    assert(out@[1] == DisplayStep::MirrorPower(true));
    if has_original_gamma {
        assert(out@[2] == DisplayStep::RestoreGamma);
    }
}

/// A frame that may be drawn takes the request for it, and advances what moves by
/// the time that passed, though by no more than a thirtieth of a second. One that
/// may not stays asked for.
pub proof fn law_frame_advances_by_the_time_that_passed(
    d: Drm,
    needs_render: &mut bool,
    last_frame: &mut Nanos,
    blanked: bool,
    now: Nanos,
    may: bool,
    r: Option<Nanos>,
)
    requires
        call_ensures(Drm::may_render, (&d, blanked), may),
        call_ensures(Drm::begin_render, (&d, needs_render, last_frame, blanked, now), r),
        now >= *old(last_frame),
    ensures
        r is Some <==> may,
        may ==> !*final(needs_render) && *final(last_frame) == now,
        !may ==> *final(needs_render) == *old(needs_render) && *final(last_frame) == *old(last_frame),
        may && now - *old(last_frame) <= 33_333_333 ==> r->0 == now - *old(last_frame),
        may && now - *old(last_frame) > 33_333_333 ==> r->0 == 33_333_333,
{
}

/// A frame goes on from part to part; it ends early only where it has no buffer,
/// cannot be bound or was not drawn. A lit panel is flipped before the mirrors, a
/// dark one is not, and only a queued flip is waited for.
pub proof fn law_frame_goes_from_part_to_part(
    d: &mut Drm,
    at: FrameWork,
    ok: bool,
    blanked: bool,
    r: FrameWork,
)
    requires
        call_ensures(Drm::render, (d, at, ok, blanked), r),
    ensures
        r == FrameWork::Bind <==> at == FrameWork::NextBuffer && ok,
        r == FrameWork::Draw <==> at == FrameWork::Bind && ok,
        r == FrameWork::Finish <==> at == FrameWork::Draw && ok,
        r == FrameWork::Queue <==> at == FrameWork::Finish && !blanked,
        r == FrameWork::PresentMirrors <==> at == FrameWork::Queue || (at == FrameWork::Finish && blanked),
        r == FrameWork::Record <==> at == FrameWork::PresentMirrors,
        r == FrameWork::Capture <==> at == FrameWork::Record,
        final(d).pending_flip <==> old(d).pending_flip || (at == FrameWork::Queue && ok),
        final(d).mirrors@ == old(d).mirrors@,
{
}

/// Only where nothing but the app is shown can nothing but the app have changed.
pub proof fn law_only_a_bare_app_is_partial(f: FrameFacts, r: bool)
    requires
        call_ensures(report_partial, (&f,), r),
    ensures
        r ==> f.lock_view == LockView::Unlocked && f.window_covers && f.has_app,
        r ==> f.cards == 0 && !f.show_home && !f.osd && !f.bar_fading && f.touch_marks == 0,
        r ==> f.layers_below == 0 && f.layers_above == 0,
        !r ==> f.lock_view != LockView::Unlocked || !f.window_covers || !f.has_app || f.cards > 0
            || f.show_home || f.osd || f.bar_fading || f.touch_marks > 0 || f.layers_below > 0
            || f.layers_above > 0,
{
}

/// A copy has succeeded exactly if the frame was drawn where it was asked for; a
/// buffer that no frame could be copied to is said to be that.
pub proof fn law_copy_succeeds_if_it_was_drawn(
    dmabuf: bool,
    bound: bool,
    drawn: bool,
    offscreen: bool,
    copied: bool,
    shm: Option<bool>,
    r: CaptureEnd,
)
    requires
        call_ensures(capture_region_shm, (offscreen, bound, drawn, copied), shm),
        call_ensures(capture_end, (dmabuf, bound, drawn, shm), r),
    ensures
        dmabuf ==> (r == CaptureEnd::Success <==> bound && drawn),
        dmabuf ==> r != CaptureEnd::BufferConstraints,
        !dmabuf ==> (r == CaptureEnd::Success <==> offscreen && bound && drawn && copied),
        !dmabuf ==> (r == CaptureEnd::BufferConstraints <==> !offscreen),
{
}

/// A turn of the loop waits less long while something moves.
pub proof fn law_loop_waits_less_while_moving(moving: Nanos, resting: Nanos)
    requires
        call_ensures(wait_for, (true,), moving),
        call_ensures(wait_for, (false,), resting),
    ensures
        moving == 2_000_000,
        resting == 50_000_000,
{
}

/// Every turn polls what could be due, and takes what arrived at the control
/// socket first where there is one.
pub proof fn law_every_turn_polls(control: bool, out: Vec<TurnStep>)
    requires
        call_ensures(housekeeping, (control,), out),
    ensures
        out@.contains(TurnStep::DrainControl) <==> control,
        control ==> out@[0] == TurnStep::DrainControl,
        out@.contains(TurnStep::PollKeys) && out@.contains(TurnStep::PollLaunching) && out@.contains(
            TurnStep::DrainSensor,
        ) && out@.contains(TurnStep::SyncKeyboardFocus),
        out@.len() >= 3,
        out@[out@.len() - 3] == TurnStep::PollIdle,
        out@[out@.len() - 2] == TurnStep::ApplyBlanking,
        out@.last() == TurnStep::ApplyGamma,
{
    let n = out@.len() - 7;
    if control {
        assert(out@[0] == TurnStep::DrainControl);
    }
    assert(out@[n] == TurnStep::PollKeys);
    assert(out@[n + 1] == TurnStep::PollLaunching);
    assert(out@[n + 2] == TurnStep::DrainSensor);
    assert(out@[n + 3] == TurnStep::SyncKeyboardFocus);
}

/// A turn asks for speed before it draws, and sends the clients theirs last,
/// whether or not it drew.
pub proof fn law_turn_ends_with_the_clients(drawing: bool, out: Vec<TurnStep>)
    requires
        call_ensures(finish_turn, (drawing,), out),
    ensures
        out@.first() == TurnStep::Speed(drawing),
        out@.contains(TurnStep::Render) <==> drawing,
        out@.last() == TurnStep::Flush,
{
    if drawing {
        assert(out@[1] == TurnStep::Render);
    }
}

/// The panel goes dark once its time has passed without input, and not while
/// something visible holds it on: that counts as input.
pub proof fn law_panel_goes_dark_when_its_time_has_passed(
    idle: &mut Idle,
    blank: &mut Blank,
    inhibited: bool,
    now: Nanos,
    timeout: Nanos,
)
    requires
        call_ensures(poll_idle, (idle, blank, inhibited, now), ()),
        old(idle).timeout == Some(timeout),
        now >= old(idle).last_activity,
    ensures
        final(blank).blanked <==> old(blank).blanked || (!inhibited && now - old(idle).last_activity
            >= timeout),
        final(blank).blanked != old(blank).blanked ==> final(blank).dirty,
        final(blank).blanked == old(blank).blanked ==> *final(blank) == *old(blank),
        inhibited ==> final(idle).last_activity == now,
        !inhibited ==> *final(idle) == *old(idle),
        final(idle).timeout == old(idle).timeout,
{
}

/// Input makes a frame due and starts every countdown again.
pub proof fn law_input_starts_everything_again(
    needs_render: &mut bool,
    idle: &mut Idle,
    notify: &mut IdleNotify,
    now: Nanos,
    out: Vec<Event>,
)
    requires
        call_ensures(note_input, (needs_render, idle, notify, now), out),
    ensures
        *final(needs_render),
        final(idle).last_activity == now,
        final(idle).timeout == old(idle).timeout,
        final(notify).last_activity == now,
        final(notify).notifications@.len() == old(notify).notifications@.len(),
{
}

/// The table gets the ramps that were uploaded, each for its color; a table whose
/// owner is gone gets back what it held, if that is known.
pub proof fn law_table_gets_its_ramps(update: Option<GammaUpdate>, has_original: bool, r: GammaWrite)
    requires
        call_ensures(apply_gamma, (update, has_original), r),
    ensures
        match update {
            Some(GammaUpdate::Program(red, green, blue)) => r == GammaWrite::Program(red, green, blue),
            _ => !(r is Program),
        },
        r == GammaWrite::Original <==> update == Some(GammaUpdate::Reset) && has_original,
{
}

/// The shell is shown on the first display that is connected and has a mode, by
/// the first of its pipes.
pub proof fn law_shell_is_shown_on_the_first_display(conns: Vec<Connector>, r: Option<Candidate>, k: int)
    requires
        call_ensures(find_output, (&conns,), r),
        0 <= k < conns@.len(),
        conns@[k].connected,
        conns@[k].preferred@.len() > 0,
        conns@[k].crtcs@.len() > 0,
        forall|j: int|
            0 <= j < k ==> !(#[trigger] conns@[j]).connected || conns@[j].preferred@.len() == 0,
    ensures
        r is Some,
        r->0.connector == conns@[k].handle,
        r->0.crtc == conns@[k].crtcs@[0],
{
    let none = Seq::<u32>::empty();
    assert(!none.contains(conns@[k].handle));
    assert(!none.contains(conns@[k].crtcs@[0]));
    law_first_display_gets_its_first_pipe(conns@, none, none, k, 0);
}

/// A frame moves things by the time since the last one, but never by more than the
/// thirtieth of a second; the frame is then the last one, and none is due.
pub proof fn law_frame_moves_things_by_its_time(
    needs_render: &mut bool,
    last_frame: &mut Nanos,
    now: Nanos,
    r: Nanos,
    step: Nanos,
)
    requires
        call_ensures(take_frame, (needs_render, last_frame, now), r),
        call_ensures(frame_step, (*old(last_frame), now), step),
    ensures
        r == step,
        !*final(needs_render),
        *final(last_frame) == now,
        r <= 33_333_333,
        now <= *old(last_frame) ==> r == 0,
        0 <= now - *old(last_frame) <= 33_333_333 ==> *old(last_frame) + r == now,
        now - *old(last_frame) > 33_333_333 ==> r == 33_333_333,
{
}

/// Without a connected display there is none to show the shell on.
pub proof fn law_no_display_no_output(conns: Vec<Connector>, r: Option<Candidate>)
    requires
        call_ensures(find_output, (&conns,), r),
        forall|k: int|
            0 <= k < conns@.len() ==> (!(#[trigger] conns@[k]).connected || conns@[k].preferred@.len() == 0)
                && conns@[k].preferred@.len() <= usize::MAX,
    ensures
        r is None,
{
    let none = Seq::<u32>::empty();
    if r is Some {
        let all = scanned(conns@, none, none);
        if all.len() > 0 {
            law_driven_displays_are_connected(conns@, none, none, 0);
        }
    }
}

} // verus!
