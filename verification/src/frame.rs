//! One frame of the shell: what advances, what is still moving, and what the
//! frame is drawn from.
use vstd::prelude::*;

use crate::app_history::ToplevelId;
use crate::arrange::{hold_engages, lifted, maybe_engage_arrange_hold, ArrangeState};
use crate::bar_hint::BarHint;
use crate::debug_input::{Control, Coord};
use crate::input_common::Gestures;
use crate::input_dispatch::IconSource;
use crate::layer_shell::{
    all_slid, any_slides, entry_views, LayerShell, FLAP_HOLD,
};
use crate::osd::{Opacity, Osd};
use crate::popups::{clamp_origin, clamped};
use crate::rotation::{Fade, Rotation, Settle};
use crate::session_lock::{view_of, LockView, SessionLock};
use crate::text::{
    concat, concat3, copy, decimal, decimal_of, has_prefix, chars_of, is_listed, join, joined, same, starts_with,
    texts,
};
use crate::time::{elapsed, since, Nanos};
use crate::ui_state::{AppRef, Point};

verus! {

// ---------------------------------------------------------------------------
// What the icons show
// ---------------------------------------------------------------------------

/// Whether an app's id stands for an icon: not that of a window whose app is
/// unknown, nor that of the search.
pub open spec fn is_shown(id: Seq<char>, search: Seq<char>) -> bool {
    !starts_with(id, "unknown_"@) && id != search
}

/// The apps of the windows, in order. A slot may be empty.
pub open spec fn open_apps(toplevels: Seq<Option<String>>) -> Seq<Seq<char>>
    decreases toplevels.len(),
{
    if toplevels.len() == 0 {
        Seq::empty()
    } else {
        let rest = open_apps(toplevels.drop_last());
        match toplevels.last() {
            Some(id) => rest.push(id@),
            None => rest,
        }
    }
}

/// The apps of `running` that still have a window, in order.
pub open spec fn still_open(running: Seq<Seq<char>>, open: Seq<Seq<char>>) -> Seq<Seq<char>>
    decreases running.len(),
{
    if running.len() == 0 {
        Seq::empty()
    } else {
        let rest = still_open(running.drop_last(), open);
        if open.contains(running.last()) {
            rest.push(running.last())
        } else {
            rest
        }
    }
}

/// `running` with those of `open` that have an icon and are not in it yet.
pub open spec fn with_opened(running: Seq<Seq<char>>, open: Seq<Seq<char>>, search: Seq<char>) -> Seq<
    Seq<char>,
>
    decreases open.len(),
{
    if open.len() == 0 {
        running
    } else {
        let so_far = with_opened(running, open.drop_last(), search);
        if is_shown(open.last(), search) && !so_far.contains(open.last()) {
            so_far.push(open.last())
        } else {
            so_far
        }
    }
}

fn list_open(toplevels: &Vec<Option<String>>) -> (out: Vec<String>)
    ensures
        texts(out@) == open_apps(toplevels@),
{
    let mut out: Vec<String> = Vec::new();
    let mut i: usize = 0;
    proof {
        assert(toplevels@.take(0) =~= Seq::<Option<String>>::empty());
        assert(texts(out@) =~= open_apps(toplevels@.take(0)));
    }
    while i < toplevels.len()
        invariant
            i <= toplevels.len(),
            texts(out@) == open_apps(toplevels@.take(i as int)),
        decreases toplevels.len() - i,
    {
        proof {
            assert(toplevels@.take(i + 1).drop_last() =~= toplevels@.take(i as int));
            assert(toplevels@.take(i + 1).last() == toplevels@[i as int]);
        }
        let ghost before = texts(out@);
        match &toplevels[i] {
            Some(id) => {
                out.push(copy(id.as_str()));
                proof {
                    assert(texts(out@) =~= before.push(id@));
                }
            },
            None => {},
        }
        i = i + 1;
    }
    proof {
        assert(toplevels@.take(i as int) =~= toplevels@);
    }
    out
}

/// Bring the set of running apps, which get a dot, up to date with the windows.
pub fn sync_running_apps(running: &mut Vec<String>, toplevels: &Vec<Option<String>>, search: &str)
    ensures
        texts(final(running)@) == with_opened(
            still_open(texts(old(running)@), open_apps(toplevels@)),
            open_apps(toplevels@),
            search@,
        ),
{
    let open: Vec<String> = list_open(toplevels);
    let ghost was = texts(running@);
    let ghost opened = texts(open@);
    let mut out: Vec<String> = Vec::new();
    let mut i: usize = 0;
    proof {
        assert(was.take(0) =~= Seq::<Seq<char>>::empty());
        assert(texts(out@) =~= still_open(was.take(0), opened));
    }
    while i < running.len()
        invariant
            i <= running.len(),
            was == texts(running@),
            opened == texts(open@),
            texts(out@) == still_open(was.take(i as int), opened),
        decreases running.len() - i,
    {
        proof {
            assert(was.take(i + 1).drop_last() =~= was.take(i as int));
            assert(was.take(i + 1).last() == running@[i as int]@);
        }
        let ghost before = texts(out@);
        if is_listed(&open, running[i].as_str()) {
            out.push(copy(running[i].as_str()));
            proof {
                assert(texts(out@) =~= before.push(running@[i as int]@));
            }
        }
        i = i + 1;
    }
    proof {
        assert(was.take(i as int) =~= was);
        assert(opened.take(0) =~= Seq::<Seq<char>>::empty());
    }
    let ghost kept = texts(out@);
    let mut j: usize = 0;
    while j < open.len()
        invariant
            j <= open.len(),
            opened == texts(open@),
            texts(out@) == with_opened(kept, opened.take(j as int), search@),
        decreases open.len() - j,
    {
        proof {
            assert(opened.take(j + 1).drop_last() =~= opened.take(j as int));
            assert(opened.take(j + 1).last() == open@[j as int]@);
        }
        let ghost before = texts(out@);
        let id: &str = open[j].as_str();
        if !has_prefix(&chars_of(id), "unknown_") && !same(id, search) && !is_listed(&out, id) {
            out.push(copy(id));
            proof {
                assert(texts(out@) =~= before.push(open@[j as int]@));
            }
        }
        j = j + 1;
    }
    proof {
        assert(opened.take(j as int) =~= opened);
    }
    *running = out;
}

/// An app has a dot exactly when it has a window and either an icon or had one
/// already.
pub proof fn law_dot_means_a_window(
    running: Seq<Seq<char>>,
    open: Seq<Seq<char>>,
    search: Seq<char>,
    id: Seq<char>,
)
    ensures
        with_opened(still_open(running, open), open, search).contains(id) <==> open.contains(id) && (
        is_shown(id, search) || running.contains(id)),
{
    lemma_still_open(running, open, id);
    lemma_with_opened(still_open(running, open), open, search, id);
}

proof fn lemma_still_open(running: Seq<Seq<char>>, open: Seq<Seq<char>>, id: Seq<char>)
    ensures
        still_open(running, open).contains(id) <==> running.contains(id) && open.contains(id),
    decreases running.len(),
{
    if running.len() > 0 {
        let less = running.drop_last();
        lemma_still_open(less, open, id);
        let rest = still_open(less, open);
        let now = still_open(running, open);
        if now.contains(id) {
            let k = choose|k: int| 0 <= k < now.len() && now[k] == id;
            if k < rest.len() {
                assert(rest[k] == id);
                let j = choose|j: int| 0 <= j < less.len() && less[j] == id;
                assert(running[j] == id);
            } else {
                assert(running[running.len() - 1] == id);
            }
        }
        if running.contains(id) && open.contains(id) {
            let j = choose|j: int| 0 <= j < running.len() && running[j] == id;
            if j < less.len() {
                assert(less[j] == id);
                let k = choose|k: int| 0 <= k < rest.len() && rest[k] == id;
                assert(now[k] == id);
            } else {
                assert(now[rest.len() as int] == id);
            }
        }
    }
}

proof fn lemma_with_opened(
    running: Seq<Seq<char>>,
    open: Seq<Seq<char>>,
    search: Seq<char>,
    id: Seq<char>,
)
    ensures
        with_opened(running, open, search).contains(id) <==> running.contains(id) || (open.contains(
            id,
        ) && is_shown(id, search)),
    decreases open.len(),
{
    if open.len() > 0 {
        let less = open.drop_last();
        lemma_with_opened(running, less, search, id);
        let before = with_opened(running, less, search);
        let now = with_opened(running, open, search);
        if now.contains(id) {
            let k = choose|k: int| 0 <= k < now.len() && now[k] == id;
            if k < before.len() {
                assert(before[k] == id);
                if less.contains(id) {
                    let j = choose|j: int| 0 <= j < less.len() && less[j] == id;
                    assert(open[j] == id);
                }
            } else {
                assert(open[open.len() - 1] == id);
            }
        }
        if before.contains(id) {
            let k = choose|k: int| 0 <= k < before.len() && before[k] == id;
            assert(now[k] == id);
        }
        if open.contains(id) && is_shown(id, search) {
            let j = choose|j: int| 0 <= j < open.len() && open[j] == id;
            if j < less.len() {
                assert(less[j] == id);
            } else if !before.contains(id) {
                assert(now[before.len() as int] == id);
            }
        }
    }
}

/// An app that was started and has no window yet.
#[derive(Debug)]
pub struct Launching {
    pub app_id: String,
    pub started: Nanos,
}

/// The icon of such an app pulses, since.
#[derive(Debug)]
pub struct Pulse {
    pub app_id: String,
    pub elapsed: Nanos,
}

pub open spec fn pulses_of(launching: Seq<Launching>, now: Nanos) -> Seq<(Seq<char>, Nanos)> {
    launching.map_values(|l: Launching| (l.app_id@, elapsed(l.started, now)))
}

pub open spec fn pulse_views(pulses: Seq<Pulse>) -> Seq<(Seq<char>, Nanos)> {
    pulses.map_values(|p: Pulse| (p.app_id@, p.elapsed))
}

/// Bring the pulses up to date with the launches that still wait for a window.
pub fn sync_launch_pulses(pulses: &mut Vec<Pulse>, launching: &Vec<Launching>, now: Nanos)
    ensures
        pulse_views(final(pulses)@) == pulses_of(launching@, now),
{
    let mut out: Vec<Pulse> = Vec::new();
    let mut i: usize = 0;
    while i < launching.len()
        invariant
            i <= launching.len(),
            pulse_views(out@) =~= pulses_of(launching@, now).take(i as int),
        decreases launching.len() - i,
    {
        let ghost before = pulse_views(out@);
        out.push(
            Pulse {
                app_id: copy(launching[i].app_id.as_str()),
                elapsed: since(launching[i].started, now),
            },
        );
        proof {
            assert(pulse_views(out@) =~= before.push(pulses_of(launching@, now)[i as int]));
        }
        i = i + 1;
    }
    proof {
        assert(pulses_of(launching@, now).take(i as int) =~= pulses_of(launching@, now));
    }
    *pulses = out;
}

// ---------------------------------------------------------------------------
// Popups
// ---------------------------------------------------------------------------

/// A place and a size on the screen.
#[derive(Clone, Copy, Debug, PartialEq, Eq, Structural)]
pub struct Space {
    pub x: i32,
    pub y: i32,
    pub w: i32,
    pub h: i32,
}

/// The space that popups of an app are laid out in: what is left for the app,
/// or, for an app that is turned, the whole screen as the app sees it.
pub open spec fn popup_space(rotation: Rotation, output: (i32, i32), usable: Space) -> Space {
    if rotation.swaps() {
        Space { x: 0, y: 0, w: rotation.size_of(output).0, h: rotation.size_of(output).1 }
    } else {
        usable
    }
}

/// The space that popups of an app are laid out in.
pub fn app_popup_space(rotation: Rotation, output: (i32, i32), usable: Space) -> (r: Space)
    ensures
        r == popup_space(rotation, output, usable),
{
    if rotation.swaps_axes() {
        let (w, h): (i32, i32) = rotation.app_size(output);
        return Space { x: 0, y: 0, w, h };
    }
    usable
}

/// Whether a popup hangs on the app in front. `root` is the surface that its chain
/// of parents ends at, if that is there.
pub fn is_app_rooted(root: Option<u64>, focus: Option<u64>) -> (r: bool)
    ensures
        r == (root is Some && root == focus),
{
    match (root, focus) {
        (Some(r), Some(f)) => r == f,
        _ => false,
    }
}

/// One of the shell's own surfaces, and where it is drawn.
#[derive(Clone, Copy, Debug)]
pub struct LayerAt {
    pub surface: u64,
    pub origin: (i32, i32),
}

/// Where the first of `layers` that is `surface` is drawn.
pub open spec fn origin_of(layers: Seq<LayerAt>, surface: u64) -> Option<(i32, i32)>
    decreases layers.len(),
{
    if layers.len() == 0 {
        None
    } else if layers[0].surface == surface {
        Some(layers[0].origin)
    } else {
        origin_of(layers.skip(1), surface)
    }
}

/// Where the surface that a popup hangs on is drawn, if it is one of the shell's
/// own. `layers` are those in the order in which they are drawn.
pub fn layer_origin(layers: &Vec<LayerAt>, root: Option<u64>) -> (r: Option<(i32, i32)>)
    ensures
        r == (match root {
            Some(s) => origin_of(layers@, s),
            None => None,
        }),
{
    let surface: u64 = match root {
        Some(s) => s,
        None => {
            return None;
        },
    };
    let mut i: usize = 0;
    proof {
        assert(layers@.skip(0) =~= layers@);
    }
    while i < layers.len()
        invariant
            i <= layers.len(),
            root == Some(surface),
            origin_of(layers@, surface) == origin_of(layers@.skip(i as int), surface),
        decreases layers.len() - i,
    {
        proof {
            assert(layers@.skip(i as int)[0] == layers@[i as int]);
            assert(layers@.skip(i as int).skip(1) =~= layers@.skip(i + 1));
        }
        if layers[i].surface == surface {
            return Some(layers[i].origin);
        }
        i = i + 1;
    }
    None
}

/// The area that a popup may take, and where the surface that it hangs on is drawn.
/// A popup of the app gets the space of the app, which starts where the app does.
/// One of the shell's own gets the whole screen: its surface stands in a part that
/// apps do not reach. `layer` is where that surface is drawn, if it was found.
pub fn popup_target(
    app_rooted: bool,
    app_space: Space,
    output: (i32, i32),
    layer: Option<(i32, i32)>,
) -> (r: (Space, (i32, i32)))
    ensures
        r == (if app_rooted {
            (app_space, (app_space.x, app_space.y))
        } else {
            (
                Space { x: 0, y: 0, w: output.0, h: output.1 },
                match layer {
                    Some(origin) => origin,
                    None => (0i32, 0i32),
                },
            )
        }),
{
    if app_rooted {
        return (app_space, (app_space.x, app_space.y));
    }
    let origin: (i32, i32) = match layer {
        Some(origin) => origin,
        None => (0, 0),
    };
    (Space { x: 0, y: 0, w: output.0, h: output.1 }, origin)
}

/// The space that popups of an app are kept in: that of a turned app, and the
/// whole screen otherwise, so that a menu may hang over the edge of the app.
pub fn app_popup_bound(rotation: Rotation, output: (i32, i32)) -> (r: (i32, i32))
    ensures
        r == (if rotation.swaps() {
            rotation.size_of(output)
        } else {
            output
        }),
{
    if rotation.swaps_axes() {
        rotation.app_size(output)
    } else {
        output
    }
}

/// A popup, by its number, where it is asked to be and how large it is.
#[derive(Clone, Copy, Debug, PartialEq, Eq, Structural)]
pub struct PopupRect {
    pub surface: u64,
    pub x: i32,
    pub y: i32,
    pub w: i32,
    pub h: i32,
}

/// A popup, kept within a bound.
pub open spec fn kept_within(p: PopupRect, bound: (i32, i32)) -> PopupRect {
    PopupRect {
        x: clamped(p.x as int, p.w as int, bound.0 as int) as i32,
        y: clamped(p.y as int, p.h as int, bound.1 as int) as i32,
        ..p
    }
}

pub open spec fn all_within(ps: Seq<PopupRect>, bound: (i32, i32)) -> Seq<PopupRect> {
    ps.map_values(|p: PopupRect| kept_within(p, bound))
}

/// The popups of a surface, from the root to the leaf, each kept on the screen.
pub fn popup_chain(ps: &Vec<PopupRect>, bound: (i32, i32)) -> (out: Vec<PopupRect>)
    requires
        bound.0 >= 0,
        bound.1 >= 0,
        forall|i: int| 0 <= i < ps@.len() ==> (#[trigger] ps@[i]).w >= 0 && ps@[i].h >= 0,
    ensures
        out@ == all_within(ps@, bound),
{
    let mut out: Vec<PopupRect> = Vec::new();
    let mut i: usize = 0;
    while i < ps.len()
        invariant
            i <= ps.len(),
            bound.0 >= 0,
            bound.1 >= 0,
            forall|k: int| 0 <= k < ps@.len() ==> (#[trigger] ps@[k]).w >= 0 && ps@[k].h >= 0,
            out@ =~= all_within(ps@, bound).take(i as int),
        decreases ps.len() - i,
    {
        let p: PopupRect = ps[i];
        let at: (i32, i32) = clamp_origin((p.x, p.y), (p.w, p.h), bound);
        out.push(PopupRect { surface: p.surface, x: at.0, y: at.1, w: p.w, h: p.h });
        i = i + 1;
    }
    proof {
        assert(all_within(ps@, bound).take(i as int) =~= all_within(ps@, bound));
    }
    out
}

/// The popups that are on screen: those of the app, and those of the shell's own
/// surfaces, which are not drawn over an app that is turned and must take no
/// taps then.
pub fn active_popups(app: Vec<PopupRect>, layers: &Vec<PopupRect>, rotation: Rotation) -> (out: Vec<
    PopupRect,
>)
    ensures
        out@ == (if rotation.swaps() {
            app@
        } else {
            app@ + layers@
        }),
{
    let mut out: Vec<PopupRect> = app;
    if !rotation.swaps_axes() {
        let ghost before = out@;
        let mut i: usize = 0;
        while i < layers.len()
            invariant
                i <= layers.len(),
                out@ =~= before + layers@.take(i as int),
            decreases layers.len() - i,
        {
            out.push(layers[i]);
            i = i + 1;
        }
        proof {
            assert(layers@.take(i as int) =~= layers@);
        }
    }
    out
}

// ---------------------------------------------------------------------------
// A line on what is drawn
// ---------------------------------------------------------------------------

/// What is said of a popup.
#[derive(Clone, Copy, Debug)]
pub struct PopupInfo {
    pub x: i32,
    pub y: i32,
    pub w: i32,
    pub h: i32,
    /// The size of what it shows, if it shows something.
    pub buffer: Option<(u32, u32)>,
}

/// A whole number as it is written.
pub open spec fn integer_text(n: int) -> Seq<char> {
    if n < 0 {
        "-"@ + decimal((-n) as nat)
    } else {
        decimal(n as nat)
    }
}

fn integer_of(n: i32) -> (out: String)
    ensures
        out@ == integer_text(n as int),
{
    if n < 0 {
        concat("-", decimal_of((-(n as i64)) as u64).as_str())
    } else {
        decimal_of(n as u64)
    }
}

pub open spec fn buffer_text(b: Option<(u32, u32)>) -> Seq<char> {
    match b {
        Some((w, h)) => decimal(w as nat) + "x"@ + decimal(h as nat),
        None => "none"@,
    }
}

pub open spec fn popup_text(p: PopupInfo) -> Seq<char> {
    "popup at="@ + integer_text(p.x as int) + ","@ + integer_text(p.y as int) + " geo="@
        + integer_text(p.w as int) + "x"@ + integer_text(p.h as int) + " buf="@ + buffer_text(p.buffer)
}

fn popup_line(p: &PopupInfo) -> (out: String)
    ensures
        out@ == popup_text(*p),
{
    let mut out: String = concat("popup at=", integer_of(p.x).as_str());
    out.append(",");
    out.append(integer_of(p.y).as_str());
    out.append(" geo=");
    out.append(integer_of(p.w).as_str());
    out.append("x");
    out.append(integer_of(p.h).as_str());
    out.append(" buf=");
    match p.buffer {
        Some((w, h)) => {
            let size: String = concat3(
                decimal_of(w as u64).as_str(),
                "x",
                decimal_of(h as u64).as_str(),
            );
            out.append(size.as_str());
        },
        None => {
            out.append("none");
        },
    }
    out
}

/// The first part of the line: the screen, and how many surfaces there are.
pub open spec fn dump_head(
    output: (i32, i32),
    dpi: Seq<char>,
    area: Seq<char>,
    turned: bool,
    layers: nat,
    popups: nat,
) -> Seq<char> {
    "out="@ + integer_text(output.0 as int) + "x"@ + integer_text(output.1 as int) + " dpi="@ + dpi
        + " "@ + area + (if turned {
        " rotated=yes(layers-not-drawn)"@
    } else {
        ""@
    }) + " layers="@ + decimal(layers) + " layer-popups="@ + decimal(popups)
}

pub open spec fn popup_texts(popups: Seq<PopupInfo>) -> Seq<Seq<char>> {
    popups.map_values(|p: PopupInfo| popup_text(p))
}

/// One line on every surface of the shell's own and every popup of one, for
/// whoever wonders what is drawn. `dpi` and `area` come written, and so does each
/// of the surfaces.
pub fn layers_dump(
    output: (i32, i32),
    dpi: &str,
    area: &str,
    rotation: Rotation,
    layers: &Vec<String>,
    popups: &Vec<PopupInfo>,
) -> (out: String)
    ensures
        out@ == join(
            seq![
                dump_head(
                    output,
                    dpi@,
                    area@,
                    rotation.swaps(),
                    layers@.len(),
                    popups@.len(),
                ),
            ] + texts(layers@) + popup_texts(popups@),
            " | "@,
        ),
{
    let mut head: String = concat("out=", integer_of(output.0).as_str());
    head.append("x");
    head.append(integer_of(output.1).as_str());
    head.append(" dpi=");
    head.append(dpi);
    head.append(" ");
    head.append(area);
    let turned: bool = rotation.swaps_axes();
    if turned {
        head.append(" rotated=yes(layers-not-drawn)");
    } else {
        head.append("");
    }
    head.append(" layers=");
    head.append(decimal_of(layers.len() as u64).as_str());
    head.append(" layer-popups=");
    head.append(decimal_of(popups.len() as u64).as_str());
    let ghost first = head@;
    let mut parts: Vec<String> = Vec::new();
    parts.push(head);
    proof {
        assert(texts(parts@) =~= seq![first]);
    }
    let mut i: usize = 0;
    while i < layers.len()
        invariant
            i <= layers.len(),
            texts(parts@) =~= seq![first] + texts(layers@).take(i as int),
        decreases layers.len() - i,
    {
        let ghost before = texts(parts@);
        parts.push(copy(layers[i].as_str()));
        proof {
            assert(texts(parts@) =~= before.push(layers@[i as int]@));
        }
        i = i + 1;
    }
    let ghost with_layers = seq![first] + texts(layers@);
    proof {
        assert(texts(layers@).take(i as int) =~= texts(layers@));
    }
    let mut j: usize = 0;
    while j < popups.len()
        invariant
            j <= popups.len(),
            texts(parts@) =~= with_layers + popup_texts(popups@).take(j as int),
        decreases popups.len() - j,
    {
        let ghost before = texts(parts@);
        parts.push(popup_line(&popups[j]));
        proof {
            assert(texts(parts@) =~= before.push(popup_text(popups@[j as int])));
        }
        j = j + 1;
    }
    proof {
        assert(popup_texts(popups@).take(j as int) =~= popup_texts(popups@));
    }
    joined(&parts, " | ")
}

// ---------------------------------------------------------------------------
// What still moves
// ---------------------------------------------------------------------------

/// What moves that is measured elsewhere.
#[derive(Clone, Copy, Debug, PartialEq, Eq, Structural)]
pub struct OtherMotion {
    /// A frame was asked for.
    pub needs_render: bool,
    /// What the shell shows is on its way somewhere.
    pub ui: bool,
    /// An app was started and has no window yet.
    pub launching: bool,
    /// The home bar fades because something covers it, or covers it no longer.
    pub bar_covered_or_not: bool,
    /// The menu of an icon is opening.
    pub menu: bool,
    pub grid: bool,
    pub dock: bool,
}

/// Whether the home bar still changes.
pub open spec fn bar_fades(covered: bool, hint: BarHint, now: Nanos) -> bool {
    covered || hint.animates(now)
}

/// Whether the home bar still changes: because something covers it, or because
/// it shows or hides itself.
pub fn bar_fading(bar_covered_or_not: bool, hint: &BarHint, now: Nanos) -> (r: bool)
    ensures
        r == bar_fades(bar_covered_or_not, *hint, now),
{
    bar_covered_or_not || hint.is_animating(now)
}

/// Whether a finger is held still on something that a long press would change. A
/// still finger sends nothing, so only frames can see its time pass.
pub open spec fn holds_still(g: Gestures) -> bool {
    g.pointer_down && (g.icon_press is Some || g.bg_press is Some)
}

/// Whether a command of the control socket is under way.
pub open spec fn is_driven(c: Control) -> bool {
    c.active_gesture is Some || c.active_key is Some || c.active_touch is Some || c.pending_settle is Some
}

/// Whether anything on the screen still changes, so that frames must go on being
/// drawn.
pub open spec fn animates(
    m: OtherMotion,
    osd: Osd,
    hint: BarHint,
    layers: LayerShell,
    lock: SessionLock,
    g: Gestures,
    c: Control,
    settle: Settle,
    fade: Fade,
    now: Nanos,
) -> bool {
    ||| m.needs_render
    ||| m.ui
    ||| m.launching
    ||| osd.opacity_at(now) != Opacity::Gone
    ||| bar_fades(m.bar_covered_or_not, hint, now)
    ||| any_slides(entry_views(layers.entries@))
    ||| layers.regrow.holds()
    ||| lock.pending
    ||| holds_still(g)
    ||| m.menu
    ||| is_driven(c)
    ||| settle.pending is Some
    ||| fade.active()
    ||| m.grid
    ||| m.dock
}

/// Whether anything on the screen still changes. On a still screen it does not,
/// and the loop can rest.
pub fn is_animating(
    m: &OtherMotion,
    osd: &Osd,
    hint: &BarHint,
    layers: &LayerShell,
    lock: &SessionLock,
    g: &Gestures,
    c: &Control,
    settle: &Settle,
    fade: &Fade,
    now: Nanos,
) -> (r: bool)
    ensures
        r == animates(*m, *osd, *hint, *layers, *lock, *g, *c, *settle, *fade, now),
{
    m.needs_render || m.ui || m.launching || osd.is_active(now) || bar_fading(
        m.bar_covered_or_not,
        hint,
        now,
    ) || layers.sliding() || layers.regrow_pending() || lock.needs_frame() || (g.pointer_down && (
    g.icon_press.is_some() || g.bg_press.is_some())) || m.menu || c.active_gesture.is_some()
        || c.active_key.is_some() || c.active_touch.is_some() || c.pending_settle.is_some()
        || settle.is_pending() || fade.is_active() || m.grid || m.dock
}

/// A lock that the client has yet to be told of keeps frames coming, and so does
/// a finger that a long press waits for: neither would end otherwise.
pub proof fn law_waiting_keeps_frames_coming(
    m: OtherMotion,
    osd: Osd,
    hint: BarHint,
    layers: LayerShell,
    lock: SessionLock,
    g: Gestures,
    c: Control,
    settle: Settle,
    fade: Fade,
    now: Nanos,
)
    ensures
        lock.pending ==> animates(m, osd, hint, layers, lock, g, c, settle, fade, now),
        g.pointer_down && g.icon_press is Some ==> animates(
            m,
            osd,
            hint,
            layers,
            lock,
            g,
            c,
            settle,
            fade,
            now,
        ),
        settle.pending is Some ==> animates(m, osd, hint, layers, lock, g, c, settle, fade, now),
{
}

// ---------------------------------------------------------------------------
// Advancing by a frame
// ---------------------------------------------------------------------------

/// What the shell does in a frame.
#[derive(Clone, Copy, Debug, PartialEq, Eq, Structural)]
pub enum FrameStep {
    /// The lock client is told that the lock holds.
    ConfirmLock,
    /// A turn settles, and the fade that covers it goes on.
    TickRotation,
    /// A long press on an icon may open its menu.
    MaybeOpenIconMenu,
    /// The menu opens a little further.
    StepMenu,
    ReflowGrid,
    ReflowDock,
    /// An icon at an edge may flip the page.
    TickEdgeFlip,
    /// The area left for the apps is computed anew.
    RecomputeLayers,
    /// The springs of the icons go on.
    StepSprings,
    /// What is shown goes on.
    TickUi,
}

/// What of the icons has no springs yet.
#[derive(Clone, Copy, Debug, PartialEq, Eq, Structural)]
pub struct Unseeded {
    pub grid: bool,
    pub dock: bool,
}

pub open spec fn one_if(b: bool, s: FrameStep) -> Seq<FrameStep> {
    if b {
        seq![s]
    } else {
        Seq::empty()
    }
}

/// Arrange mode after a frame.
pub open spec fn arranged(g: Gestures, now: Nanos) -> Gestures {
    if hold_engages(g.arrange is Some, g.pointer_down, g.icon_press, now) {
        Gestures {
            arrange: Some(
                ArrangeState {
                    drag: Some(lifted(g.icon_press->0.app, g.icon_press->0.source)),
                    just_engaged: false,
                },
            ),
            pending_launch: None,
            page_drag: false,
            icon_press: None,
            ..g
        }
    } else {
        g
    }
}

/// Whether an icon is in the air.
pub open spec fn dragging(g: Gestures) -> bool {
    g.arrange is Some && g.arrange->0.drag is Some
}

/// The steps that a frame begins with.
pub open spec fn beginning(lock: SessionLock) -> Seq<FrameStep> {
    one_if(lock.confirms(), FrameStep::ConfirmLock) + seq![
        FrameStep::TickRotation,
        FrameStep::MaybeOpenIconMenu,
    ]
}

/// The steps that follow, up to the surfaces that slide in.
pub open spec fn first_half(g: Gestures, unseeded: Unseeded, slide_ended: bool) -> Seq<FrameStep> {
    let seeded = one_if(g.menu is Some, FrameStep::StepMenu) + one_if(
        unseeded.grid,
        FrameStep::ReflowGrid,
    ) + one_if(unseeded.dock, FrameStep::ReflowDock);
    let flowed = seeded + one_if(dragging(g), FrameStep::ReflowGrid) + one_if(
        dragging(g),
        FrameStep::ReflowDock,
    );
    flowed.push(FrameStep::TickEdgeFlip) + one_if(slide_ended, FrameStep::RecomputeLayers)
}

fn push_if(out: &mut Vec<FrameStep>, b: bool, s: FrameStep)
    ensures
        final(out)@ == old(out)@ + one_if(b, s),
{
    let ghost before = out@;
    if b {
        out.push(s);
    }
    proof {
        assert(out@ =~= before + one_if(b, s));
    }
}

/// A frame begins: the lock, a turn, and the long press, which lifts an icon or
/// may open its menu.
pub fn begin_frame(lock: &mut SessionLock, g: &mut Gestures, now: Nanos) -> (out: Vec<FrameStep>)
    requires
        old(lock).wf(),
    ensures
        *final(lock) == old(lock).ticked(),
        final(lock).wf(),
        *final(g) == arranged(*old(g), now),
        out@ == beginning(*old(lock)),
{
    let mut out: Vec<FrameStep> = Vec::new();
    let confirm: bool = lock.tick();
    push_if(&mut out, confirm, FrameStep::ConfirmLock);
    out.push(FrameStep::TickRotation);
    match maybe_engage_arrange_hold(g.arrange.is_some(), g.pointer_down, g.icon_press, now) {
        Some(arrange) => {
            g.arrange = Some(arrange);
            g.pending_launch = None;
            g.page_drag = false;
            g.icon_press = None;
        },
        None => {},
    }
    out.push(FrameStep::MaybeOpenIconMenu);
    proof {
        assert(out@ =~= beginning(*old(lock)));
    }
    out
}

/// What follows once the steps of [`begin_frame`] were taken: the menu, which may
/// have been opened by them, the icons, and the surfaces that slide in. The apps
/// keep their size while a keyboard slides over them, and get it changed on the
/// frame on which the slide ends.
pub fn advance_frame(
    g: &Gestures,
    layers: &mut LayerShell,
    unseeded: &Unseeded,
    dt: Nanos,
) -> (out: Vec<FrameStep>)
    requires
        old(layers).wf(),
        old(layers).regrow.now + dt + FLAP_HOLD <= Nanos::MAX,
    ensures
        final(layers).wf(),
        final(layers).regrow == old(layers).regrow.ticked(dt),
        final(layers).last_usable == old(layers).last_usable,
        final(layers).output_h == old(layers).output_h,
        entry_views(final(layers).entries@) == all_slid(entry_views(old(layers).entries@), dt),
        out@ == first_half(
            *g,
            *unseeded,
            any_slides(entry_views(old(layers).entries@)) && !any_slides(
                entry_views(final(layers).entries@),
            ),
        ),
{
    let mut out: Vec<FrameStep> = Vec::new();
    push_if(&mut out, g.menu.is_some(), FrameStep::StepMenu);
    proof {
        assert(out@ =~= one_if(g.menu is Some, FrameStep::StepMenu));
    }
    push_if(&mut out, unseeded.grid, FrameStep::ReflowGrid);
    push_if(&mut out, unseeded.dock, FrameStep::ReflowDock);
    let in_the_air: bool = match g.arrange {
        Some(a) => a.drag.is_some(),
        None => false,
    };
    push_if(&mut out, in_the_air, FrameStep::ReflowGrid);
    push_if(&mut out, in_the_air, FrameStep::ReflowDock);
    out.push(FrameStep::TickEdgeFlip);
    let was_sliding: bool = layers.sliding();
    let moving: bool = layers.tick_slides(dt);
    push_if(&mut out, was_sliding && !moving, FrameStep::RecomputeLayers);
    out
}

/// What follows once the area was computed anew, if it was: a growth that waits
/// is asked for again in every frame, and then the springs and the screen go on.
pub fn advance_springs(layers: &LayerShell) -> (out: Vec<FrameStep>)
    ensures
        out@ == one_if(layers.regrow.holds(), FrameStep::RecomputeLayers) + seq![
            FrameStep::StepSprings,
            FrameStep::TickUi,
        ],
{
    let mut out: Vec<FrameStep> = Vec::new();
    push_if(&mut out, layers.regrow_pending(), FrameStep::RecomputeLayers);
    out.push(FrameStep::StepSprings);
    out.push(FrameStep::TickUi);
    proof {
        assert(out@ =~= one_if(layers.regrow.holds(), FrameStep::RecomputeLayers) + seq![
            FrameStep::StepSprings,
            FrameStep::TickUi,
        ]);
    }
    out
}

/// What the tick of the screen led to.
#[derive(Clone, Copy, Debug, PartialEq, Eq, Structural)]
pub enum Effect {
    CloseToplevel(ToplevelId),
    EnterSwitcher,
    Nothing,
}

/// What is done about it.
#[derive(Clone, Copy, Debug, PartialEq, Eq, Structural)]
pub enum EffectStep {
    /// Close the window.
    Close(ToplevelId),
    /// Show the deck, in the order of the history.
    ShowDeck,
    Nothing,
}

/// What is done about what the tick of the screen led to.
pub fn after_tick(effect: Effect) -> (r: EffectStep)
    ensures
        r == (match effect {
            Effect::CloseToplevel(t) => EffectStep::Close(t),
            Effect::EnterSwitcher => EffectStep::ShowDeck,
            Effect::Nothing => EffectStep::Nothing,
        }),
{
    match effect {
        Effect::CloseToplevel(t) => EffectStep::Close(t),
        Effect::EnterSwitcher => EffectStep::ShowDeck,
        Effect::Nothing => EffectStep::Nothing,
    }
}

/// What follows the tick of the screen.
#[derive(Clone, Copy, Debug, PartialEq, Eq, Structural)]
pub enum TickStep {
    /// What the tick led to is done.
    Apply(EffectStep),
    /// A switch by keyboard may have waited for the deck to come up.
    PollKbdSwitch,
    /// On Home the number of pages is taken from the icons again, by
    /// [`crate::input_common::refresh_page_count`]: what settles to Home has lost
    /// it.
    RefreshPageCount,
    /// The scene is computed, and the cards of the deck with it.
    ComputeScene,
}

/// What follows the tick of the screen, in its order: the scene shows what the
/// tick led to, and what a switch that waited led to.
pub fn finish_frame(effect: Effect) -> (out: Vec<TickStep>)
    ensures
        out@ == (match effect {
            Effect::CloseToplevel(t) => seq![TickStep::Apply(EffectStep::Close(t))],
            Effect::EnterSwitcher => seq![TickStep::Apply(EffectStep::ShowDeck)],
            Effect::Nothing => Seq::empty(),
        }) + seq![TickStep::PollKbdSwitch, TickStep::RefreshPageCount, TickStep::ComputeScene],
{
    let mut out: Vec<TickStep> = Vec::new();
    match after_tick(effect) {
        EffectStep::Nothing => {},
        step => {
            out.push(TickStep::Apply(step));
        },
    }
    out.push(TickStep::PollKbdSwitch);
    out.push(TickStep::RefreshPageCount);
    out.push(TickStep::ComputeScene);
    out
}

/// What a frame is drawn from, besides the scene.
#[derive(Clone, Copy, Debug)]
pub struct FramePrep {
    /// The window of the scene, if it is still there.
    pub app_surface: Option<ToplevelId>,
    /// The volume display: its level, whether muted, and how much of it there is
    /// to see.
    pub osd: Option<(Coord, bool, Opacity)>,
    pub cursor: Option<Point>,
    pub lock_view: LockView,
    pub lock_surface: Option<u64>,
    /// The marks of touches are drawn, and a frame is due because some of them
    /// still fade.
    pub show_touches: bool,
    pub touches_fade: bool,
}

/// What the frame goes by that is not of the shell's own.
#[derive(Clone, Copy, Debug)]
pub struct FrameSituation {
    /// The window of the scene.
    pub window: Option<ToplevelId>,
    pub cursor_overlay: bool,
    pub cursor_visible: bool,
    pub pointer: Option<Point>,
    pub lock_surface_alive: bool,
    pub show_touches: bool,
    /// Marks of touches still fade.
    pub touches_active: bool,
}

/// A window, if it is still there.
pub open spec fn window_if_alive(t: Option<ToplevelId>, alive: Seq<bool>) -> Option<ToplevelId> {
    crate::input_common::if_alive(t, alive)
}

/// What a frame is drawn from.
pub fn prepare_frame(
    s: &FrameSituation,
    alive: &Vec<bool>,
    osd: &Osd,
    lock: &SessionLock,
    now: Nanos,
) -> (r: FramePrep)
    ensures
        r.app_surface == window_if_alive(s.window, alive@),
        r.osd == (if osd.opacity_at(now) != Opacity::Gone {
            Some((osd.level, osd.muted, osd.opacity_at(now)))
        } else {
            None
        }),
        r.cursor == (if s.cursor_overlay && s.cursor_visible {
            s.pointer
        } else {
            None
        }),
        r.lock_view == view_of(lock.locked, lock.surface is Some && s.lock_surface_alive),
        r.lock_surface == (if s.lock_surface_alive {
            lock.surface
        } else {
            None
        }),
        r.show_touches == s.show_touches,
        r.touches_fade == (s.show_touches && s.touches_active),
{
    let app_surface: Option<ToplevelId> = match s.window {
        Some(t) => {
            if t < alive.len() && alive[t] {
                Some(t)
            } else {
                None
            }
        },
        None => None,
    };
    let view: Option<(Coord, bool, Opacity)> = if osd.is_active(now) {
        Some((osd.level, osd.muted, osd.opacity(now)))
    } else {
        None
    };
    FramePrep {
        app_surface,
        osd: view,
        cursor: if s.cursor_overlay && s.cursor_visible {
            s.pointer
        } else {
            None
        },
        lock_view: lock.view(s.lock_surface_alive),
        lock_surface: lock.wl_surface(s.lock_surface_alive),
        show_touches: s.show_touches,
        touches_fade: s.show_touches && s.touches_active,
    }
}

// ---------------------------------------------------------------------------
// Drawing
// ---------------------------------------------------------------------------

/// How arrange mode is drawn.
#[derive(Clone, Copy, Debug, PartialEq, Eq, Structural)]
pub struct ArrangeView {
    /// The icon in the air.
    pub drag_app: Option<AppRef>,
    /// The dock lights up under an icon of the grid: dropped there, it is pinned.
    pub over_dock: bool,
}

/// What a frame is drawn with, as far as both backends agree.
#[derive(Clone, Copy, Debug)]
pub struct DrawCtx {
    pub arrange: Option<ArrangeView>,
    /// The icon that is drawn pressed.
    pub pressed_app: Option<AppRef>,
    /// When the frame is expected on the screen: one refresh from now. What was
    /// committed for that frame would be held back a frame otherwise.
    pub frame_target: Nanos,
}

/// How arrange mode is drawn. The dock lights up under an icon of the grid, which
/// would be pinned there. It does not under one that was lifted from the dock,
/// which would fall back into it, nor under one out of a folder, though that would
/// be pinned too.
pub open spec fn arrange_view(a: ArrangeState, in_dock_zone: bool) -> ArrangeView {
    ArrangeView {
        drag_app: match a.drag {
            Some(d) => Some(d.app),
            None => None,
        },
        over_dock: match a.drag {
            Some(d) => d.source == IconSource::Grid && in_dock_zone,
            None => false,
        },
    }
}

/// What a frame is drawn with. `in_dock_zone` is whether the icon in the air is
/// over the dock, and `refresh` how long the panel shows a frame.
pub fn draw_ctx(g: &Gestures, in_dock_zone: bool, now: Nanos, refresh: u64) -> (r: DrawCtx)
    requires
        now + refresh <= Nanos::MAX,
    ensures
        r.arrange == (match g.arrange {
            Some(a) => Some(arrange_view(a, in_dock_zone)),
            None => None,
        }),
        r.pressed_app == g.pending_launch,
        r.frame_target == now + refresh,
{
    let arrange: Option<ArrangeView> = match g.arrange {
        Some(a) => {
            match a.drag {
                Some(d) => {
                    let from_grid: bool = match d.source {
                        IconSource::Grid => true,
                        _ => false,
                    };
                    Some(ArrangeView { drag_app: Some(d.app), over_dock: from_grid && in_dock_zone })
                },
                None => Some(ArrangeView { drag_app: None, over_dock: false }),
            }
        },
        None => None,
    };
    DrawCtx { arrange, pressed_app: g.pending_launch, frame_target: now + refresh as Nanos }
}

/// The apps of the windows are those of the slots that hold one.
proof fn lemma_open_apps(toplevels: Seq<Option<String>>, id: Seq<char>)
    ensures
        open_apps(toplevels).contains(id) <==> exists|k: int|
            0 <= k < toplevels.len() && (#[trigger] toplevels[k]) is Some && toplevels[k]->0@ == id,
    decreases toplevels.len(),
{
    if toplevels.len() > 0 {
        let less = toplevels.drop_last();
        let rest = open_apps(less);
        let now = open_apps(toplevels);
        lemma_open_apps(less, id);
        if now.contains(id) {
            let k = choose|k: int| 0 <= k < now.len() && now[k] == id;
            if k < rest.len() {
                assert(rest[k] == id);
                let j = choose|j: int|
                    0 <= j < less.len() && (#[trigger] less[j]) is Some && less[j]->0@ == id;
                assert(toplevels[j] == less[j]);
            } else {
                assert(toplevels[toplevels.len() - 1]->0@ == id);
            }
        }
        if exists|k: int|
            0 <= k < toplevels.len() && (#[trigger] toplevels[k]) is Some && toplevels[k]->0@ == id {
            let j = choose|j: int|
                0 <= j < toplevels.len() && (#[trigger] toplevels[j]) is Some && toplevels[j]->0@ == id;
            if j < less.len() {
                assert(less[j] == toplevels[j]);
                let k = choose|k: int| 0 <= k < rest.len() && rest[k] == id;
                assert(now[k] == id);
            } else {
                assert(now[rest.len() as int] == id);
            }
        }
    }
}

/// After a sync an app runs exactly if one of the windows is its own, and it is
/// known and not the search, or ran before.
pub proof fn law_running_apps_have_windows(
    running: &mut Vec<String>,
    toplevels: Vec<Option<String>>,
    search: &str,
    id: Seq<char>,
)
    requires
        call_ensures(sync_running_apps, (running, &toplevels, search), ()),
    ensures
        texts(final(running)@).contains(id) <==> (exists|k: int|
            0 <= k < toplevels@.len() && (#[trigger] toplevels@[k]) is Some && toplevels@[k]->0@ == id)
            && ((!starts_with(id, "unknown_"@) && id != search@) || texts(old(running)@).contains(id)),
{
    lemma_open_apps(toplevels@, id);
    law_dot_means_a_window(texts(old(running)@), open_apps(toplevels@), search@, id);
}

/// The icon of each app that was started pulses, for as long as it has waited.
pub proof fn law_started_apps_pulse(
    pulses: &mut Vec<Pulse>,
    launching: Vec<Launching>,
    now: Nanos,
    k: int,
)
    requires
        call_ensures(sync_launch_pulses, (pulses, &launching, now), ()),
        0 <= k < launching@.len(),
        now >= launching@[k].started,
    ensures
        final(pulses)@.len() == launching@.len(),
        final(pulses)@[k].app_id@ == launching@[k].app_id@,
        final(pulses)@[k].elapsed == now - launching@[k].started,
{
    assert(pulse_views(final(pulses)@).len() == final(pulses)@.len());
    assert(pulse_views(final(pulses)@)[k] == pulses_of(launching@, now)[k]);
}

/// A popup of the app is laid out where the app is, and in the whole screen as
/// the app sees it where the app is turned. One of the shell's own surfaces gets
/// the whole screen, from where that surface stands.
pub proof fn law_popups_stay_with_their_surface(
    rotation: Rotation,
    output: (i32, i32),
    usable: Space,
    space: Space,
    app_rooted: bool,
    layer: Option<(i32, i32)>,
    r: (Space, (i32, i32)),
    bound: (i32, i32),
)
    requires
        call_ensures(app_popup_space, (rotation, output, usable), space),
        call_ensures(popup_target, (app_rooted, space, output, layer), r),
        call_ensures(app_popup_bound, (rotation, output), bound),
    ensures
        rotation == Rotation::Portrait ==> space == usable && bound == output,
        rotation != Rotation::Portrait ==> space == (Space { x: 0, y: 0, w: output.1, h: output.0 })
            && bound == (output.1, output.0),
        app_rooted ==> r.0 == space && r.1 == (space.x, space.y),
        !app_rooted ==> r.0 == (Space { x: 0, y: 0, w: output.0, h: output.1 }),
        !app_rooted && layer is Some ==> r.1 == layer->0,
        !app_rooted && layer is None ==> r.1 == (0i32, 0i32),
{
}

/// A popup is the app's exactly if its chain ends at the window in front.
pub proof fn law_popup_hangs_on_the_window_in_front(root: Option<u64>, focus: Option<u64>, r: bool)
    requires
        call_ensures(is_app_rooted, (root, focus), r),
    ensures
        r ==> root == focus && root is Some,
        root is Some && root == focus ==> r,
{
}

/// Of the surfaces with the number of the root the first that is drawn counts.
pub proof fn law_first_drawn_layer_counts(layers: Vec<LayerAt>, root: u64, r: Option<(i32, i32)>, k: int)
    requires
        call_ensures(layer_origin, (&layers, Some(root)), r),
        0 <= k < layers@.len(),
        layers@[k].surface == root,
        forall|j: int| 0 <= j < k ==> (#[trigger] layers@[j]).surface != root,
    ensures
        r == Some(layers@[k].origin),
{
    lemma_first_origin(layers@, root, k);
}

proof fn lemma_first_origin(layers: Seq<LayerAt>, root: u64, k: int)
    requires
        0 <= k < layers.len(),
        layers[k].surface == root,
        forall|j: int| 0 <= j < k ==> (#[trigger] layers[j]).surface != root,
    ensures
        origin_of(layers, root) == Some(layers[k].origin),
    decreases k,
{
    if k > 0 {
        assert(layers[0].surface != root);
        assert(layers.skip(1)[k - 1] == layers[k]);
        assert forall|j: int| 0 <= j < k - 1 implies (#[trigger] layers.skip(1)[j]).surface != root by {
            assert(layers.skip(1)[j] == layers[j + 1]);
        }
        lemma_first_origin(layers.skip(1), root, k - 1);
    }
}

/// Every popup of a chain that fits lies within the bound, keeps its size and its
/// place in the chain, and is not moved if it lay within it already.
pub proof fn law_popup_chain_stays_within(
    ps: Vec<PopupRect>,
    bound: (i32, i32),
    out: Vec<PopupRect>,
    k: int,
)
    requires
        call_ensures(popup_chain, (&ps, bound), out),
        0 <= k < ps@.len(),
        0 <= ps@[k].w <= bound.0,
        0 <= ps@[k].h <= bound.1,
    ensures
        out@.len() == ps@.len(),
        out@[k].surface == ps@[k].surface && out@[k].w == ps@[k].w && out@[k].h == ps@[k].h,
        0 <= out@[k].x && out@[k].x + out@[k].w <= bound.0,
        0 <= out@[k].y && out@[k].y + out@[k].h <= bound.1,
        0 <= ps@[k].x && ps@[k].x + ps@[k].w <= bound.0 ==> out@[k].x == ps@[k].x,
        0 <= ps@[k].y && ps@[k].y + ps@[k].h <= bound.1 ==> out@[k].y == ps@[k].y,
{
    assert(out@[k] == kept_within(ps@[k], bound));
}

/// The popups of the app are always on screen, those of the shell's own surfaces
/// only while the app is upright, and then behind the app's in the list.
pub proof fn law_turned_app_hides_the_shells_popups(
    app: Vec<PopupRect>,
    layers: Vec<PopupRect>,
    rotation: Rotation,
    out: Vec<PopupRect>,
    k: int,
)
    requires
        call_ensures(active_popups, (app, &layers, rotation), out),
    ensures
        0 <= k < app@.len() ==> out@[k] == app@[k],
        rotation == Rotation::Portrait && 0 <= k < layers@.len() ==> out@[app@.len() + k] == layers@[k],
        out@.len() == app@.len() + (if rotation == Rotation::Portrait {
            layers@.len()
        } else {
            0
        }),
{
}

/// Whatever still moves keeps frames coming.
pub proof fn law_motion_keeps_frames_coming(
    m: OtherMotion,
    osd: Osd,
    hint: BarHint,
    layers: LayerShell,
    lock: SessionLock,
    g: Gestures,
    c: Control,
    settle: Settle,
    fade: Fade,
    now: Nanos,
    r: bool,
)
    requires
        call_ensures(
            is_animating,
            (&m, &osd, &hint, &layers, &lock, &g, &c, &settle, &fade, now),
            r,
        ),
    ensures
        m.needs_render || m.ui || m.launching || m.menu || m.grid || m.dock || m.bar_covered_or_not ==> r,
        lock.pending || settle.pending is Some || fade.phase != crate::rotation::Phase::Idle ==> r,
        g.pointer_down && (g.icon_press is Some || g.bg_press is Some) ==> r,
        c.active_gesture is Some || c.active_key is Some || c.active_touch is Some || c.pending_settle
            is Some ==> r,
        hint.animates(now) ==> r,
        osd.opacity_at(now) != Opacity::Gone ==> r,
        layers.regrow.holds() ==> r,
        any_slides(entry_views(layers.entries@)) ==> r,
{
}

/// Where nothing moves the loop rests.
pub proof fn law_still_screen_rests(
    m: OtherMotion,
    osd: Osd,
    hint: BarHint,
    layers: LayerShell,
    lock: SessionLock,
    g: Gestures,
    c: Control,
    settle: Settle,
    fade: Fade,
    now: Nanos,
    r: bool,
)
    requires
        call_ensures(
            is_animating,
            (&m, &osd, &hint, &layers, &lock, &g, &c, &settle, &fade, now),
            r,
        ),
        !m.needs_render && !m.ui && !m.launching && !m.menu && !m.grid && !m.dock && !m.bar_covered_or_not,
        !lock.pending,
        settle.pending is None,
        fade.phase == crate::rotation::Phase::Idle,
        !g.pointer_down || (g.icon_press is None && g.bg_press is None),
        c.active_gesture is None && c.active_key is None && c.active_touch is None && c.pending_settle
            is None,
        !hint.animates(now),
        osd.opacity_at(now) == Opacity::Gone,
        !layers.regrow.holds(),
        !any_slides(entry_views(layers.entries@)),
    ensures
        !r,
{
}

/// A frame begins with the lock, whose client is told on its second frame, and
/// then the turn; a press on an icon that lasted half a second lifts the icon and
/// ends everything else that the finger might have meant.
pub proof fn law_frame_begins_with_the_lock(
    lock: &mut SessionLock,
    g: &mut Gestures,
    now: Nanos,
    out: Vec<FrameStep>,
)
    requires
        call_ensures(begin_frame, (lock, g, now), out),
        old(lock).wf(),
    ensures
        out@.contains(FrameStep::ConfirmLock) <==> old(lock).pending && old(lock).frames == 1,
        out@.contains(FrameStep::ConfirmLock) ==> out@[0] == FrameStep::ConfirmLock,
        out@.contains(FrameStep::TickRotation),
        out@.last() == FrameStep::MaybeOpenIconMenu,
        final(lock).locked == old(lock).locked,
        ({
            let held = old(g).arrange is None && old(g).pointer_down && old(g).icon_press is Some && now
                - old(g).icon_press->0.at >= 500_000_000;
            &&& held ==> final(g).arrange is Some && final(g).arrange->0.drag is Some && final(g).arrange->0.drag->0.app == old(g).icon_press->0.app && final(g).icon_press is None && final(g).pending_launch is None && !final(g).page_drag
            &&& !held ==> *final(g) == *old(g)
        }),
{
    let s = out@;
    assert(s == beginning(*old(lock)));
    if old(lock).confirms() {
        assert(s[0] == FrameStep::ConfirmLock);
        assert(s[1] == FrameStep::TickRotation);
    } else {
        assert(s[0] == FrameStep::TickRotation);
    }
}

/// What a frame moves on: the menu while there is one, the icons that have no
/// springs yet or part for one in the air, the edges, and the space of the apps
/// on the frame on which a slide ends.
pub proof fn law_frame_moves_on_what_moves(
    g: Gestures,
    layers: &mut LayerShell,
    unseeded: Unseeded,
    dt: Nanos,
    out: Vec<FrameStep>,
)
    requires
        call_ensures(advance_frame, (&g, layers, &unseeded, dt), out),
    ensures
        out@.contains(FrameStep::StepMenu) <==> g.menu is Some,
        out@.contains(FrameStep::ReflowGrid) <==> unseeded.grid || (g.arrange is Some
            && g.arrange->0.drag is Some),
        out@.contains(FrameStep::ReflowDock) <==> unseeded.dock || (g.arrange is Some
            && g.arrange->0.drag is Some),
        out@.contains(FrameStep::TickEdgeFlip),
        out@.contains(FrameStep::RecomputeLayers) <==> any_slides(entry_views(old(layers).entries@))
            && !any_slides(entry_views(final(layers).entries@)),
{
    let ended = any_slides(entry_views(old(layers).entries@)) && !any_slides(
        entry_views(final(layers).entries@),
    );
    let air = g.arrange is Some && g.arrange->0.drag is Some;
    let a = one_if(g.menu is Some, FrameStep::StepMenu);
    let b = one_if(unseeded.grid, FrameStep::ReflowGrid);
    let c = one_if(unseeded.dock, FrameStep::ReflowDock);
    let d = one_if(air, FrameStep::ReflowGrid);
    let e = one_if(air, FrameStep::ReflowDock);
    let f = seq![FrameStep::TickEdgeFlip];
    let h = one_if(ended, FrameStep::RecomputeLayers);
    assert(out@ =~= a + b + c + d + e + f + h);
    let n1 = a.len() as int;
    let n2 = n1 + b.len();
    let n3 = n2 + c.len();
    let n4 = n3 + d.len();
    let n5 = n4 + e.len();
    if g.menu is Some {
        assert(out@[0] == FrameStep::StepMenu);
    }
    if unseeded.grid {
        assert(out@[n1] == FrameStep::ReflowGrid);
    }
    if unseeded.dock {
        assert(out@[n2] == FrameStep::ReflowDock);
    }
    if air {
        assert(out@[n3] == FrameStep::ReflowGrid);
        assert(out@[n4] == FrameStep::ReflowDock);
    }
    assert(out@[n5] == FrameStep::TickEdgeFlip);
    if ended {
        assert(out@[n5 + 1] == FrameStep::RecomputeLayers);
    }
}

/// A growth that waits is asked for in every frame, before the springs and the
/// screen go on.
pub proof fn law_waiting_growth_is_asked_for(layers: LayerShell, out: Vec<FrameStep>)
    requires
        call_ensures(advance_springs, (&layers,), out),
    ensures
        out@.contains(FrameStep::RecomputeLayers) <==> layers.regrow.holds(),
        out@.contains(FrameStep::RecomputeLayers) ==> out@[0] == FrameStep::RecomputeLayers,
        out@.len() >= 2,
        out@[out@.len() - 2] == FrameStep::StepSprings,
        out@.last() == FrameStep::TickUi,
{
    if layers.regrow.holds() {
        assert(out@[0] == FrameStep::RecomputeLayers);
    }
}

/// What the tick led to is done first: a window that closed is closed, and the
/// deck that is entered is shown. The scene comes last, so it shows all of it.
pub proof fn law_scene_comes_last(effect: Effect, out: Vec<TickStep>, t: ToplevelId)
    requires
        call_ensures(finish_frame, (effect,), out),
    ensures
        out@.last() == TickStep::ComputeScene,
        out@.contains(TickStep::PollKbdSwitch),
        out@.contains(TickStep::RefreshPageCount),
        out@.contains(TickStep::Apply(EffectStep::Close(t))) <==> effect == Effect::CloseToplevel(t),
        out@.contains(TickStep::Apply(EffectStep::ShowDeck)) <==> effect == Effect::EnterSwitcher,
        effect != Effect::Nothing ==> out@[0] is Apply,
        !out@.contains(TickStep::Apply(EffectStep::Nothing)),
{
    let n = out@.len();
    assert(out@[n - 3] == TickStep::PollKbdSwitch);
    assert(out@[n - 2] == TickStep::RefreshPageCount);
    if effect != Effect::Nothing {
        assert(out@[0] is Apply);
    }
}

/// A frame shows the window of the scene only while it is there, the pointer only
/// where it is drawn by the shell and visible, and the lock as it is.
pub proof fn law_frame_shows_what_is_there(
    s: FrameSituation,
    alive: Vec<bool>,
    osd: Osd,
    lock: SessionLock,
    now: Nanos,
    r: FramePrep,
)
    requires
        call_ensures(prepare_frame, (&s, &alive, &osd, &lock, now), r),
    ensures
        r.app_surface is Some <==> s.window is Some && s.window->0 < alive@.len() && alive@[s.window->0 as int],
        r.app_surface is Some ==> r.app_surface == s.window,
        r.cursor is Some <==> s.cursor_overlay && s.cursor_visible && s.pointer is Some,
        r.cursor is Some ==> r.cursor == s.pointer,
        r.lock_view == LockView::Unlocked <==> !lock.locked,
        r.lock_view == LockView::Surface <==> lock.locked && lock.surface is Some && s.lock_surface_alive,
        r.lock_surface is Some <==> lock.surface is Some && s.lock_surface_alive,
        r.lock_surface is Some ==> r.lock_surface == lock.surface,
        r.show_touches == s.show_touches,
        r.touches_fade <==> s.show_touches && s.touches_active,
        r.osd is Some <==> osd.opacity_at(now) != Opacity::Gone,
        match r.osd {
            Some((level, muted, _)) => level == osd.level && muted == osd.muted,
            None => true,
        },
{
}

/// The dock lights up only under an icon of the grid; the icon in the air is the
/// one that was lifted, and the frame is meant for one refresh on.
pub proof fn law_dock_lights_up_for_the_grid(
    g: Gestures,
    in_dock_zone: bool,
    now: Nanos,
    refresh: u64,
    r: DrawCtx,
)
    requires
        call_ensures(draw_ctx, (&g, in_dock_zone, now, refresh), r),
    ensures
        r.arrange is Some <==> g.arrange is Some,
        r.arrange is Some ==> (r.arrange->0.drag_app is Some <==> g.arrange->0.drag is Some),
        r.arrange is Some && g.arrange->0.drag is Some ==> r.arrange->0.drag_app == Some(
            g.arrange->0.drag->0.app,
        ),
        r.arrange is Some ==> (r.arrange->0.over_dock <==> in_dock_zone && g.arrange->0.drag is Some
            && g.arrange->0.drag->0.source == IconSource::Grid),
        r.pressed_app == g.pending_launch,
        r.frame_target - now == refresh,
{
}

/// The line on what is drawn starts with the size of the screen, width first, and
/// says how a turned app hides the shell's own surfaces.
pub proof fn law_dump_starts_with_the_screen(
    output: (i32, i32),
    dpi: &str,
    area: &str,
    rotation: Rotation,
    layers: Vec<String>,
    popups: Vec<PopupInfo>,
    out: String,
)
    requires
        call_ensures(layers_dump, (output, dpi, area, rotation, &layers, &popups), out),
        output.0 >= 0 && output.1 >= 0,
        layers@.len() == 0,
        popups@.len() == 0,
    ensures
        rotation == Rotation::Portrait ==> out@ == "out="@ + decimal(output.0 as nat) + "x"@ + decimal(
            output.1 as nat,
        ) + " dpi="@ + dpi@ + " "@ + area@ + ""@ + " layers="@ + decimal(0) + " layer-popups="@ + decimal(0),
        rotation != Rotation::Portrait ==> out@ == "out="@ + decimal(output.0 as nat) + "x"@ + decimal(
            output.1 as nat,
        ) + " dpi="@ + dpi@ + " "@ + area@ + " rotated=yes(layers-not-drawn)"@ + " layers="@ + decimal(0)
            + " layer-popups="@ + decimal(0),
{
    let head = dump_head(output, dpi@, area@, rotation.swaps(), 0, 0);
    assert(seq![head] + texts(layers@) + popup_texts(popups@) =~= seq![head]);
}

/// A popup is written with its place, its size and the size of what it shows.
pub proof fn law_popup_is_written_in_full(p: PopupInfo)
    requires
        p.x >= 0 && p.y >= 0 && p.w >= 0 && p.h >= 0,
    ensures
        popup_text(p) == "popup at="@ + decimal(p.x as nat) + ","@ + decimal(p.y as nat) + " geo="@
            + decimal(p.w as nat) + "x"@ + decimal(p.h as nat) + " buf="@ + (match p.buffer {
            Some((w, h)) => decimal(w as nat) + "x"@ + decimal(h as nat),
            None => "none"@,
        }),
{
}

/// A number below nought is written with a minus sign.
pub proof fn law_negative_numbers_have_a_sign(n: nat)
    ensures
        n > 0 ==> integer_text(-n) == "-"@ + decimal(n),
        integer_text(n as int) == decimal(n),
{
}

/// What a frame ends is done once: a window that was swept away is closed, a deck
/// that was pulled up is shown.
pub proof fn law_frame_ends_what_it_moved(effect: Effect, r: EffectStep, t: ToplevelId)
    requires
        call_ensures(after_tick, (effect,), r),
    ensures
        r == EffectStep::Close(t) <==> effect == Effect::CloseToplevel(t),
        r is ShowDeck <==> effect is EnterSwitcher,
        r is Nothing <==> effect is Nothing,
{
}

/// The home bar still changes while something comes over it or leaves it, or while
/// its hint is shown.
pub proof fn law_bar_changes_while_it_is_covered(covered: bool, hint: &BarHint, now: Nanos, r: bool, hinted: bool)
    requires
        call_ensures(bar_fading, (covered, hint, now), r),
        call_ensures(BarHint::is_animating, (hint, now), hinted),
    ensures
        r <==> covered || hinted,
{
}

} // verus!
