//! What is drawn in a frame, and in which order.
//!
//! The passes run strictly from the back to the front: each takes for granted
//! that those before it have landed. A blur samples what is there, so one that
//! came too early would blur the wrong thing.
use vstd::prelude::*;

use crate::app_history::ToplevelId;
use crate::rotation::{Rotation, Transform};
use crate::session_lock::LockView;

verus! {

// ---------------------------------------------------------------------------
// The plan
// ---------------------------------------------------------------------------

/// What the frame goes by.
#[derive(Clone, Copy, Debug, PartialEq, Eq, Structural)]
pub struct RenderFacts {
    /// The window of the scene, if there is one, covers the screen; or there is
    /// none.
    pub window_covers: bool,
    /// The scene has a window.
    pub has_window: bool,
    pub rotation: Rotation,
    /// The surface of the app, by its number.
    pub app: Option<u64>,
    /// How many parts of it there are to draw.
    pub app_parts: usize,
    /// Something is blurred behind it.
    pub app_blur: bool,
    pub show_home: bool,
    pub lock_view: LockView,
    pub lock_surface: Option<u64>,
    /// The volume display is shown.
    pub osd: bool,
    /// Marks of touches are shown.
    pub touches: bool,
}

/// What the passes go by.
#[derive(Clone, Copy, Debug, PartialEq, Eq, Structural)]
pub struct ScenePlan {
    /// The app is drawn from where its area starts, and not from the corner of
    /// its own space.
    pub app_at_origin: bool,
    pub is_fullscreen: bool,
    pub rotated: bool,
    /// The app covers the screen, and has something to show. A window without
    /// content yet must still show Home behind it.
    pub app_fills_screen: bool,
    /// It lets what is behind it shine through, blurred.
    pub app_blurred: bool,
}

/// How many parts of the app there are to draw; none without an app.
pub open spec fn parts_of(f: RenderFacts) -> int {
    if f.app is Some {
        f.app_parts as int
    } else {
        0
    }
}

/// The plan of a frame.
pub open spec fn planned(f: RenderFacts) -> ScenePlan {
    let fills = f.window_covers && parts_of(f) > 0;
    ScenePlan {
        app_at_origin: f.window_covers && !f.rotation.swaps(),
        is_fullscreen: f.window_covers,
        rotated: f.rotation.swaps(),
        app_fills_screen: fills,
        app_blurred: fills && f.app is Some && f.app_blur,
    }
}

/// The plan of a frame.
pub fn plan_scene(f: &RenderFacts) -> (r: ScenePlan)
    ensures
        r == planned(*f),
{
    let rotated: bool = f.rotation.swaps_axes();
    let fills: bool = f.window_covers && f.app.is_some() && f.app_parts > 0;
    ScenePlan {
        app_at_origin: f.window_covers && !rotated,
        is_fullscreen: f.window_covers,
        rotated,
        app_fills_screen: fills,
        app_blurred: fills && f.app_blur,
    }
}

// ---------------------------------------------------------------------------
// What has changed
// ---------------------------------------------------------------------------

/// The app that the screen last showed, and which of its commits.
#[derive(Clone, Copy, Debug, PartialEq, Eq, Structural)]
pub struct Present {
    pub surface: u64,
    pub commit: u64,
}

/// What the display is told to have changed.
#[derive(Clone, Copy, Debug, PartialEq, Eq, Structural)]
pub enum Damage {
    Everything,
    /// What the app changed since that commit of it.
    Since(u64),
}

/// Whether nothing but a single part of the app can have changed. What is blurred
/// shows what lies below it, so it rules that out.
pub open spec fn only_the_app(f: RenderFacts, quiet: bool, overlay_blur: bool) -> bool {
    let p = planned(f);
    quiet && !p.app_blurred && !overlay_blur && p.app_fills_screen && f.app_parts == 1
}

/// What the display is told, and what is remembered for the next frame.
pub open spec fn damage_of(
    f: RenderFacts,
    last: Option<Present>,
    quiet: bool,
    overlay_blur: bool,
    commit: u64,
) -> (Damage, Option<Present>) {
    if !only_the_app(f, quiet, overlay_blur) {
        (Damage::Everything, last)
    } else {
        (
            match last {
                Some(p) => if p.surface == f.app->0 {
                    Damage::Since(p.commit)
                } else {
                    Damage::Everything
                },
                None => Damage::Everything,
            },
            Some(Present { surface: f.app->0, commit }),
        )
    }
}

/// What the display is told to have changed. `quiet` is whether nothing but the
/// app moves, `overlay_blur` whether a surface over it is blurred, and `commit`
/// which commit of the app is about to be shown.
pub fn flip_damage(
    f: &RenderFacts,
    last: &mut Option<Present>,
    quiet: bool,
    overlay_blur: bool,
    commit: u64,
) -> (r: Damage)
    ensures
        (r, *final(last)) == damage_of(*f, *old(last), quiet, overlay_blur, commit),
{
    let p: ScenePlan = plan_scene(f);
    if !(quiet && !p.app_blurred && !overlay_blur && p.app_fills_screen && f.app_parts == 1) {
        return Damage::Everything;
    }
    match f.app {
        Some(surface) => {
            let r: Damage = match *last {
                Some(p) => {
                    if p.surface == surface {
                        Damage::Since(p.commit)
                    } else {
                        Damage::Everything
                    }
                },
                None => Damage::Everything,
            };
            *last = Some(Present { surface, commit });
            r
        },
        None => Damage::Everything,
    }
}

/// The first frame of an app that came to the front is painted whole, and so is
/// every frame after the memory was dropped.
pub proof fn law_new_app_is_painted_whole(
    f: RenderFacts,
    last: Option<Present>,
    quiet: bool,
    overlay_blur: bool,
    commit: u64,
)
    requires
        last is None || f.app is None || last->0.surface != f.app->0,
    ensures
        damage_of(f, last, quiet, overlay_blur, commit).0 == Damage::Everything,
{
}

// ---------------------------------------------------------------------------
// The passes
// ---------------------------------------------------------------------------

/// Something that is drawn.
#[derive(Clone, Copy, Debug, PartialEq, Eq, Structural)]
pub enum Pass {
    /// Black over everything.
    ClearBlack,
    /// The surface of the lock client.
    LockSurface(u64),
    /// The background color over everything.
    Clear,
    /// The shell's own surfaces below the app.
    BelowLayers,
    /// The app over the whole screen.
    App,
    Home,
    /// The app over the whole screen, turned.
    RotatedApp,
    /// The app over the whole screen, with what is behind it blurred.
    BlurredApp,
    /// The app on its way to or from the whole screen.
    AppCard,
    /// A card of the deck.
    Card(ToplevelId),
    /// A surface over the app, with what is behind it blurred if it asks.
    Overlay(u64),
    Bar,
    Osd,
    Touches,
}

pub open spec fn pass_if(b: bool, p: Pass) -> Seq<Pass> {
    if b {
        seq![p]
    } else {
        Seq::empty()
    }
}

pub open spec fn overlay_passes(surfaces: Seq<u64>) -> Seq<Pass> {
    surfaces.map_values(|s: u64| Pass::Overlay(s))
}

/// The cards whose window is there, in order.
pub open spec fn card_passes(cards: Seq<ToplevelId>, alive: Seq<bool>) -> Seq<Pass>
    decreases cards.len(),
{
    if cards.len() == 0 {
        Seq::empty()
    } else {
        let rest = card_passes(cards.drop_last(), alive);
        if cards.last() < alive.len() && alive[cards.last() as int] {
            rest.push(Pass::Card(cards.last()))
        } else {
            rest
        }
    }
}

/// The surfaces over the app.
#[derive(Debug)]
pub struct Overlays {
    pub app_popups: Vec<u64>,
    pub layers_above: Vec<u64>,
    pub layer_popups: Vec<u64>,
}

/// What is drawn over the app, below the chrome: the app's own popups, and the
/// shell's surfaces with theirs, unless the app is turned.
pub open spec fn overlays_of(o: Overlays, rotated: bool) -> Seq<Pass> {
    if rotated {
        overlay_passes(o.app_popups@)
    } else {
        overlay_passes(o.app_popups@) + overlay_passes(o.layers_above@) + overlay_passes(
            o.layer_popups@,
        )
    }
}

/// What is drawn while the session is locked. Nothing of the session, not even
/// the home bar; the volume display and the marks of touches show none of it.
pub open spec fn locked_passes(f: RenderFacts) -> Seq<Pass> {
    let cleared = seq![Pass::ClearBlack] + match f.lock_surface {
        Some(s) => seq![Pass::LockSurface(s)],
        None => Seq::empty(),
    };
    cleared + pass_if(f.osd, Pass::Osd) + pass_if(f.touches, Pass::Touches)
}

/// What is drawn up to the app, and the app.
pub open spec fn app_passes(f: RenderFacts) -> Seq<Pass> {
    let p = planned(f);
    seq![Pass::Clear, Pass::BelowLayers] + pass_if(
        p.app_fills_screen && !p.app_blurred && !p.rotated,
        Pass::App,
    ) + pass_if(p.app_blurred || (f.show_home && !p.app_fills_screen), Pass::Home) + pass_if(
        p.app_fills_screen && p.rotated && !p.app_blurred,
        Pass::RotatedApp,
    ) + pass_if(p.app_blurred, Pass::BlurredApp) + pass_if(
        !p.is_fullscreen && parts_of(f) > 0 && f.has_window,
        Pass::AppCard,
    )
}

/// The shell's own chrome. The bar is always there: it is the only way out of an
/// app. The volume display is left out over an app that is turned.
pub open spec fn chrome_passes(f: RenderFacts) -> Seq<Pass> {
    seq![Pass::Bar] + pass_if(f.osd && !f.rotation.swaps(), Pass::Osd) + pass_if(
        f.touches,
        Pass::Touches,
    )
}

/// All that is drawn, from the back to the front.
pub open spec fn passes_of(f: RenderFacts, cards: Seq<ToplevelId>, alive: Seq<bool>, o: Overlays) -> Seq<
    Pass,
> {
    if f.lock_view != LockView::Unlocked {
        locked_passes(f)
    } else {
        app_passes(f) + card_passes(cards, alive) + overlays_of(o, f.rotation.swaps()) + chrome_passes(
            f,
        )
    }
}

fn push_if(out: &mut Vec<Pass>, b: bool, p: Pass)
    ensures
        final(out)@ == old(out)@ + pass_if(b, p),
{
    let ghost before = out@;
    if b {
        out.push(p);
    }
    proof {
        assert(out@ =~= before + pass_if(b, p));
    }
}

fn push_overlays(out: &mut Vec<Pass>, surfaces: &Vec<u64>)
    ensures
        final(out)@ == old(out)@ + overlay_passes(surfaces@),
{
    let ghost before = out@;
    let mut i: usize = 0;
    while i < surfaces.len()
        invariant
            i <= surfaces.len(),
            out@ =~= before + overlay_passes(surfaces@).take(i as int),
        decreases surfaces.len() - i,
    {
        out.push(Pass::Overlay(surfaces[i]));
        i = i + 1;
    }
    proof {
        assert(overlay_passes(surfaces@).take(i as int) =~= overlay_passes(surfaces@));
    }
}

fn push_cards(out: &mut Vec<Pass>, cards: &Vec<ToplevelId>, alive: &Vec<bool>)
    ensures
        final(out)@ == old(out)@ + card_passes(cards@, alive@),
{
    let ghost before = out@;
    let mut i: usize = 0;
    proof {
        assert(cards@.take(0) =~= Seq::<ToplevelId>::empty());
        assert(before + card_passes(cards@.take(0), alive@) =~= before);
    }
    while i < cards.len()
        invariant
            i <= cards.len(),
            out@ == before + card_passes(cards@.take(i as int), alive@),
        decreases cards.len() - i,
    {
        proof {
            assert(cards@.take(i + 1).drop_last() =~= cards@.take(i as int));
            assert(cards@.take(i + 1).last() == cards@[i as int]);
        }
        let t: ToplevelId = cards[i];
        if t < alive.len() && alive[t] {
            out.push(Pass::Card(t));
            proof {
                assert(out@ =~= before + card_passes(cards@.take(i + 1), alive@));
            }
        }
        i = i + 1;
    }
    proof {
        assert(cards@.take(i as int) =~= cards@);
    }
}

fn draw_locked(f: &RenderFacts) -> (out: Vec<Pass>)
    ensures
        out@ == locked_passes(*f),
{
    let mut out: Vec<Pass> = Vec::new();
    out.push(Pass::ClearBlack);
    match f.lock_surface {
        Some(s) => {
            out.push(Pass::LockSurface(s));
        },
        None => {},
    }
    proof {
        assert(out@ =~= seq![Pass::ClearBlack] + match f.lock_surface {
            Some(s) => seq![Pass::LockSurface(s)],
            None => Seq::empty(),
        });
    }
    push_if(&mut out, f.osd, Pass::Osd);
    push_if(&mut out, f.touches, Pass::Touches);
    out
}

fn draw_app(f: &RenderFacts) -> (out: Vec<Pass>)
    ensures
        out@ == app_passes(*f),
{
    let p: ScenePlan = plan_scene(f);
    let mut out: Vec<Pass> = Vec::new();
    out.push(Pass::Clear);
    out.push(Pass::BelowLayers);
    proof {
        assert(out@ =~= seq![Pass::Clear, Pass::BelowLayers]);
    }
    push_if(&mut out, p.app_fills_screen && !p.app_blurred && !p.rotated, Pass::App);
    push_if(&mut out, p.app_blurred || (f.show_home && !p.app_fills_screen), Pass::Home);
    push_if(&mut out, p.app_fills_screen && p.rotated && !p.app_blurred, Pass::RotatedApp);
    push_if(&mut out, p.app_blurred, Pass::BlurredApp);
    push_if(
        &mut out,
        !p.is_fullscreen && f.app.is_some() && f.app_parts > 0 && f.has_window,
        Pass::AppCard,
    );
    out
}

/// All that is drawn, from the back to the front. The lock comes before
/// everything else is even planned, so nothing of a client can be seen while the
/// session is locked.
pub fn draw_scene(f: &RenderFacts, cards: &Vec<ToplevelId>, alive: &Vec<bool>, o: &Overlays) -> (out: Vec<
    Pass,
>)
    ensures
        out@ == passes_of(*f, cards@, alive@, *o),
{
    let locked: bool = match f.lock_view {
        LockView::Unlocked => false,
        _ => true,
    };
    if locked {
        return draw_locked(f);
    }
    let mut out: Vec<Pass> = draw_app(f);
    push_cards(&mut out, cards, alive);
    let ghost carded = out@;
    let rotated: bool = f.rotation.swaps_axes();
    push_overlays(&mut out, &o.app_popups);
    if !rotated {
        push_overlays(&mut out, &o.layers_above);
        push_overlays(&mut out, &o.layer_popups);
    }
    proof {
        assert(out@ =~= carded + overlays_of(*o, rotated));
    }
    let ghost covered = out@;
    out.push(Pass::Bar);
    push_if(&mut out, f.osd && !rotated, Pass::Osd);
    push_if(&mut out, f.touches, Pass::Touches);
    proof {
        assert(out@ =~= covered + chrome_passes(*f));
    }
    out
}

/// Whether a pass shows something of a client, other than the lock client, or of
/// the shell.
pub open spec fn shows_session(p: Pass) -> bool {
    match p {
        Pass::ClearBlack => false,
        Pass::LockSurface(_) => false,
        Pass::Osd => false,
        Pass::Touches => false,
        _ => true,
    }
}

/// A frame of a locked session shows nothing of it: black first, and then at most
/// the lock surface, the volume and the marks of touches.
pub proof fn law_locked_frame_hides_the_session(
    f: RenderFacts,
    cards: Seq<ToplevelId>,
    alive: Seq<bool>,
    o: Overlays,
    i: int,
)
    requires
        f.lock_view != LockView::Unlocked,
        0 <= i < passes_of(f, cards, alive, o).len(),
    ensures
        !shows_session(passes_of(f, cards, alive, o)[i]),
        passes_of(f, cards, alive, o)[0] == Pass::ClearBlack,
{
}

/// Whether a pass draws the app.
pub open spec fn draws_app(p: Pass) -> bool {
    p == Pass::App || p == Pass::RotatedApp || p == Pass::BlurredApp || p == Pass::AppCard
}

/// How many of the passes draw the app.
pub open spec fn app_draws(ps: Seq<Pass>) -> int
    decreases ps.len(),
{
    if ps.len() == 0 {
        0
    } else {
        app_draws(ps.drop_last()) + if draws_app(ps.last()) {
            1int
        } else {
            0
        }
    }
}

proof fn lemma_app_draws_add(a: Seq<Pass>, b: Seq<Pass>)
    ensures
        app_draws(a + b) == app_draws(a) + app_draws(b),
    decreases b.len(),
{
    if b.len() == 0 {
        assert(a + b =~= a);
    } else {
        assert((a + b).drop_last() =~= a + b.drop_last());
        assert((a + b).last() == b.last());
        lemma_app_draws_add(a, b.drop_last());
    }
}

proof fn lemma_one_pass(b: bool, p: Pass)
    ensures
        app_draws(pass_if(b, p)) == (if b && draws_app(p) {
            1int
        } else {
            0
        }),
{
    reveal_with_fuel(app_draws, 3);
    if b {
        assert(seq![p].drop_last() =~= Seq::<Pass>::empty());
    }
}

/// The app is never drawn twice: turned and blurred, it is drawn once. It is
/// drawn exactly when it has something to show, and covers the screen or is on
/// its way.
pub proof fn law_app_is_drawn_once(f: RenderFacts)
    ensures
        app_draws(app_passes(f)) == (if parts_of(f) > 0 && (f.window_covers || f.has_window) {
            1int
        } else {
            0
        }),
{
    let p = planned(f);
    let b1 = p.app_fills_screen && !p.app_blurred && !p.rotated;
    let b2 = p.app_blurred || (f.show_home && !p.app_fills_screen);
    let b3 = p.app_fills_screen && p.rotated && !p.app_blurred;
    let b5 = !p.is_fullscreen && parts_of(f) > 0 && f.has_window;
    let s0 = seq![Pass::Clear, Pass::BelowLayers];
    let s1 = s0 + pass_if(b1, Pass::App);
    let s2 = s1 + pass_if(b2, Pass::Home);
    let s3 = s2 + pass_if(b3, Pass::RotatedApp);
    let s4 = s3 + pass_if(p.app_blurred, Pass::BlurredApp);
    assert(app_draws(s0) == 0) by {
        reveal_with_fuel(app_draws, 3);
        assert(s0.drop_last() =~= seq![Pass::Clear]);
        assert(seq![Pass::Clear].drop_last() =~= Seq::<Pass>::empty());
    }
    lemma_app_draws_add(s0, pass_if(b1, Pass::App));
    lemma_app_draws_add(s1, pass_if(b2, Pass::Home));
    lemma_app_draws_add(s2, pass_if(b3, Pass::RotatedApp));
    lemma_app_draws_add(s3, pass_if(p.app_blurred, Pass::BlurredApp));
    lemma_app_draws_add(s4, pass_if(b5, Pass::AppCard));
    lemma_one_pass(b1, Pass::App);
    lemma_one_pass(b2, Pass::Home);
    lemma_one_pass(b3, Pass::RotatedApp);
    lemma_one_pass(p.app_blurred, Pass::BlurredApp);
    lemma_one_pass(b5, Pass::AppCard);
}

// ---------------------------------------------------------------------------
// Cards and turned apps
// ---------------------------------------------------------------------------

/// How the parts of a card are drawn: how many of them with rounded corners. The
/// first part is the outer shape; the others lie within it.
pub fn rounded_parts(parts: usize, rounded: bool) -> (r: (usize, usize))
    ensures
        r.0 + r.1 == parts,
        r.0 == (if rounded && parts > 0 {
            1int
        } else {
            0
        }),
{
    if rounded && parts > 0 {
        (1, parts - 1)
    } else {
        (0, parts)
    }
}

/// How many quarter turns a transform makes.
pub open spec fn quarters(t: Transform) -> int {
    match t {
        Transform::Normal => 0,
        Transform::Flipped => 0,
        Transform::Turn90 => 1,
        Transform::Flipped90 => 1,
        Transform::Turn180 => 2,
        Transform::Flipped180 => 2,
        Transform::Turn270 => 3,
        Transform::Flipped270 => 3,
    }
}

pub open spec fn is_flipped(t: Transform) -> bool {
    match t {
        Transform::Normal => false,
        Transform::Turn90 => false,
        Transform::Turn180 => false,
        Transform::Turn270 => false,
        _ => true,
    }
}

/// The transform with these turns and flip.
pub open spec fn transform_with(quarter_turns: int, flipped: bool) -> Transform {
    if flipped {
        if quarter_turns == 0 {
            Transform::Flipped
        } else if quarter_turns == 1 {
            Transform::Flipped90
        } else if quarter_turns == 2 {
            Transform::Flipped180
        } else {
            Transform::Flipped270
        }
    } else {
        if quarter_turns == 0 {
            Transform::Normal
        } else if quarter_turns == 1 {
            Transform::Turn90
        } else if quarter_turns == 2 {
            Transform::Turn180
        } else {
            Transform::Turn270
        }
    }
}

/// Two transforms in one: their turns add up, and two flips cancel out.
pub open spec fn composed(a: Transform, b: Transform) -> Transform {
    transform_with((quarters(a) + quarters(b)) % 4, is_flipped(a) != is_flipped(b))
}

fn turns_of(t: Transform) -> (r: (u32, bool))
    ensures
        r.0 == quarters(t),
        r.1 == is_flipped(t),
{
    match t {
        Transform::Normal => (0, false),
        Transform::Turn90 => (1, false),
        Transform::Turn180 => (2, false),
        Transform::Turn270 => (3, false),
        Transform::Flipped => (0, true),
        Transform::Flipped90 => (1, true),
        Transform::Flipped180 => (2, true),
        Transform::Flipped270 => (3, true),
    }
}

/// Two transforms in one.
pub fn compose(a: Transform, b: Transform) -> (r: Transform)
    ensures
        r == composed(a, b),
{
    let (qa, fa): (u32, bool) = turns_of(a);
    let (qb, fb): (u32, bool) = turns_of(b);
    let q: u32 = (qa + qb) % 4;
    if fa != fb {
        if q == 0 {
            Transform::Flipped
        } else if q == 1 {
            Transform::Flipped90
        } else if q == 2 {
            Transform::Flipped180
        } else {
            Transform::Flipped270
        }
    } else {
        if q == 0 {
            Transform::Normal
        } else if q == 1 {
            Transform::Turn90
        } else if q == 2 {
            Transform::Turn180
        } else {
            Transform::Turn270
        }
    }
}

/// With what an app over the whole screen is drawn: the turn of the app on top of
/// that of the output, and the size of the space that it was laid out in.
pub fn app_pass_geometry(output: (i32, i32), transform: Transform, rotation: Rotation) -> (r: (
    Transform,
    (i32, i32),
))
    ensures
        r.0 == composed(transform, rotation.drawn_with()),
        r.1 == rotation.size_of(output),
{
    if rotation.swaps_axes() {
        (compose(transform, rotation.transform()), rotation.app_size(output))
    } else {
        proof {
            law_compose_has_an_identity(transform);
        }
        (transform, output)
    }
}

/// No turn on top of a transform is that transform.
pub proof fn law_compose_has_an_identity(t: Transform)
    ensures
        composed(t, Transform::Normal) == t,
        composed(Transform::Normal, t) == t,
{
}

/// How transforms are put together does not matter.
pub proof fn law_compose_is_associative(a: Transform, b: Transform, c: Transform)
    ensures
        composed(composed(a, b), c) == composed(a, composed(b, c)),
{
    assert(quarters(composed(a, b)) == (quarters(a) + quarters(b)) % 4);
    assert(quarters(composed(b, c)) == (quarters(b) + quarters(c)) % 4);
}

// ---------------------------------------------------------------------------
// Frame callbacks
// ---------------------------------------------------------------------------

/// Someone who is told that a frame was drawn.
#[derive(Clone, Copy, Debug, PartialEq, Eq, Structural)]
pub enum Drawn {
    Surface(u64),
    Window(ToplevelId),
}

pub open spec fn drawn_surfaces(surfaces: Seq<u64>) -> Seq<Drawn> {
    surfaces.map_values(|s: u64| Drawn::Surface(s))
}

/// The windows of the cards that are there, in order.
pub open spec fn drawn_cards(cards: Seq<ToplevelId>, alive: Seq<bool>) -> Seq<Drawn>
    decreases cards.len(),
{
    if cards.len() == 0 {
        Seq::empty()
    } else {
        let rest = drawn_cards(cards.drop_last(), alive);
        if cards.last() < alive.len() && alive[cards.last() as int] {
            rest.push(Drawn::Window(cards.last()))
        } else {
            rest
        }
    }
}

fn tell_surfaces(out: &mut Vec<Drawn>, surfaces: &Vec<u64>)
    ensures
        final(out)@ == old(out)@ + drawn_surfaces(surfaces@),
{
    let ghost before = out@;
    let mut i: usize = 0;
    while i < surfaces.len()
        invariant
            i <= surfaces.len(),
            out@ =~= before + drawn_surfaces(surfaces@).take(i as int),
        decreases surfaces.len() - i,
    {
        out.push(Drawn::Surface(surfaces[i]));
        i = i + 1;
    }
    proof {
        assert(drawn_surfaces(surfaces@).take(i as int) =~= drawn_surfaces(surfaces@));
    }
}

/// Who is told that a frame was drawn: the app, every card, and every surface of
/// the shell's own and every popup. A client that is not told stops drawing, and
/// its card would stay blank.
pub fn send_frame_callbacks(
    app: Option<u64>,
    cards: &Vec<ToplevelId>,
    alive: &Vec<bool>,
    layers_below: &Vec<u64>,
    o: &Overlays,
) -> (out: Vec<Drawn>)
    ensures
        out@ == (match app {
            Some(s) => seq![Drawn::Surface(s)],
            None => Seq::empty(),
        }) + drawn_cards(cards@, alive@) + drawn_surfaces(layers_below@) + drawn_surfaces(
            o.layers_above@,
        ) + drawn_surfaces(o.app_popups@) + drawn_surfaces(o.layer_popups@),
{
    let mut out: Vec<Drawn> = Vec::new();
    match app {
        Some(s) => {
            out.push(Drawn::Surface(s));
        },
        None => {},
    }
    let ghost before = out@;
    proof {
        assert(before =~= (match app {
            Some(s) => seq![Drawn::Surface(s)],
            None => Seq::empty(),
        }));
    }
    let mut i: usize = 0;
    proof {
        assert(cards@.take(0) =~= Seq::<ToplevelId>::empty());
        assert(before + drawn_cards(cards@.take(0), alive@) =~= before);
    }
    while i < cards.len()
        invariant
            i <= cards.len(),
            out@ == before + drawn_cards(cards@.take(i as int), alive@),
        decreases cards.len() - i,
    {
        proof {
            assert(cards@.take(i + 1).drop_last() =~= cards@.take(i as int));
            assert(cards@.take(i + 1).last() == cards@[i as int]);
        }
        let t: ToplevelId = cards[i];
        if t < alive.len() && alive[t] {
            out.push(Drawn::Window(t));
            proof {
                assert(out@ =~= before + drawn_cards(cards@.take(i + 1), alive@));
            }
        }
        i = i + 1;
    }
    proof {
        assert(cards@.take(i as int) =~= cards@);
    }
    tell_surfaces(&mut out, layers_below);
    tell_surfaces(&mut out, &o.layers_above);
    tell_surfaces(&mut out, &o.app_popups);
    tell_surfaces(&mut out, &o.layer_popups);
    out
}

/// The app fills the screen once its window covers it and it has something to
/// show; it is drawn from where its area starts unless it is turned.
pub proof fn law_empty_window_fills_nothing(f: RenderFacts, r: ScenePlan)
    requires
        call_ensures(plan_scene, (&f,), r),
    ensures
        r.app_fills_screen <==> f.window_covers && f.app is Some && f.app_parts > 0,
        r.app_blurred <==> r.app_fills_screen && f.app_blur,
        r.rotated <==> f.rotation != Rotation::Portrait,
        r.is_fullscreen <==> f.window_covers,
        r.app_at_origin <==> f.window_covers && f.rotation == Rotation::Portrait,
{
}

/// The display is told of a part only where nothing but a bare app of one part
/// can have changed and that app was the last one shown; then of what it changed
/// since. What is shown now is remembered for next time exactly then.
pub proof fn law_damage_is_what_the_app_changed(
    f: RenderFacts,
    last: &mut Option<Present>,
    quiet: bool,
    overlay_blur: bool,
    commit: u64,
    r: Damage,
)
    requires
        call_ensures(flip_damage, (&f, last, quiet, overlay_blur, commit), r),
    ensures
        ({
            let bare = quiet && !overlay_blur && !f.app_blur && f.window_covers && f.app is Some && f.app_parts
                == 1;
            &&& r is Since <==> bare && *old(last) is Some && (*old(last))->0.surface == f.app->0
            &&& r is Since ==> r->0 == (*old(last))->0.commit
            &&& bare ==> *final(last) == Some(Present { surface: f.app->0, commit })
            &&& !bare ==> *final(last) == *old(last)
        }),
{
}

/// The cards that are drawn are those whose window is there.
proof fn lemma_card_passes(cards: Seq<ToplevelId>, alive: Seq<bool>, p: Pass)
    ensures
        card_passes(cards, alive).contains(p) <==> (p is Card && cards.contains(p->Card_0) && p->Card_0
            < alive.len() && alive[p->Card_0 as int]),
    decreases cards.len(),
{
    if cards.len() > 0 {
        let less = cards.drop_last();
        let rest = card_passes(less, alive);
        let now = card_passes(cards, alive);
        lemma_card_passes(less, alive, p);
        if now.contains(p) {
            let k = choose|k: int| 0 <= k < now.len() && now[k] == p;
            if k < rest.len() {
                assert(rest[k] == p);
                let j = choose|j: int| 0 <= j < less.len() && less[j] == p->Card_0;
                assert(cards[j] == p->Card_0);
            } else {
                assert(cards[cards.len() - 1] == p->Card_0);
            }
        }
        if p is Card && cards.contains(p->Card_0) && p->Card_0 < alive.len() && alive[p->Card_0 as int] {
            let j = choose|j: int| 0 <= j < cards.len() && cards[j] == p->Card_0;
            if j < less.len() {
                assert(less[j] == p->Card_0);
                let k = choose|k: int| 0 <= k < rest.len() && rest[k] == p;
                assert(now[k] == p);
            } else {
                assert(now[rest.len() as int] == p);
            }
        }
    }
}

proof fn lemma_overlay_passes(surfaces: Seq<u64>, p: Pass)
    ensures
        overlay_passes(surfaces).contains(p) <==> p is Overlay && surfaces.contains(p->Overlay_0),
{
    let ps = overlay_passes(surfaces);
    if ps.contains(p) {
        let k = choose|k: int| 0 <= k < ps.len() && ps[k] == p;
        assert(surfaces[k] == p->Overlay_0);
    }
    if p is Overlay && surfaces.contains(p->Overlay_0) {
        let k = choose|k: int| 0 <= k < surfaces.len() && surfaces[k] == p->Overlay_0;
        assert(ps[k] == p);
    }
}

/// What one of two lists holds, both hold together.
proof fn lemma_in_either<T>(a: Seq<T>, b: Seq<T>, x: T)
    ensures
        (a + b).contains(x) <==> a.contains(x) || b.contains(x),
{
    if a.contains(x) {
        let k = choose|k: int| 0 <= k < a.len() && a[k] == x;
        assert((a + b)[k] == x);
    }
    if b.contains(x) {
        let k = choose|k: int| 0 <= k < b.len() && b[k] == x;
        assert((a + b)[a.len() + k] == x);
    }
    if (a + b).contains(x) {
        let k = choose|k: int| 0 <= k < (a + b).len() && (a + b)[k] == x;
        if k < a.len() {
            assert(a[k] == x);
        } else {
            assert(b[k - a.len()] == x);
        }
    }
}

proof fn lemma_pass_if(b: bool, p: Pass, x: Pass)
    ensures
        pass_if(b, p).contains(x) <==> b && x == p,
{
    if b {
        assert(seq![p][0] == p);
    }
}

/// What is drawn up to the app and with it.
proof fn lemma_app_passes(f: RenderFacts, x: Pass)
    ensures
        app_passes(f).contains(x) <==> ({
            let fills = f.window_covers && f.app is Some && f.app_parts > 0;
            let blurred = fills && f.app_blur;
            let turned = f.rotation != Rotation::Portrait;
            ||| x == Pass::Clear
            ||| x == Pass::BelowLayers
            ||| x == Pass::App && fills && !blurred && !turned
            ||| x == Pass::RotatedApp && fills && !blurred && turned
            ||| x == Pass::BlurredApp && blurred
            ||| x == Pass::Home && (blurred || (f.show_home && !fills))
            ||| x == Pass::AppCard && !f.window_covers && f.app is Some && f.app_parts > 0 && f.has_window
        }),
{
    let p = planned(f);
    let b1 = p.app_fills_screen && !p.app_blurred && !p.rotated;
    let b2 = p.app_blurred || (f.show_home && !p.app_fills_screen);
    let b3 = p.app_fills_screen && p.rotated && !p.app_blurred;
    let b5 = !p.is_fullscreen && parts_of(f) > 0 && f.has_window;
    let s0 = seq![Pass::Clear, Pass::BelowLayers];
    let s1 = s0 + pass_if(b1, Pass::App);
    let s2 = s1 + pass_if(b2, Pass::Home);
    let s3 = s2 + pass_if(b3, Pass::RotatedApp);
    let s4 = s3 + pass_if(p.app_blurred, Pass::BlurredApp);
    assert(s0[0] == Pass::Clear && s0[1] == Pass::BelowLayers);
    lemma_in_either(s0, pass_if(b1, Pass::App), x);
    lemma_in_either(s1, pass_if(b2, Pass::Home), x);
    lemma_in_either(s2, pass_if(b3, Pass::RotatedApp), x);
    lemma_in_either(s3, pass_if(p.app_blurred, Pass::BlurredApp), x);
    lemma_in_either(s4, pass_if(b5, Pass::AppCard), x);
    lemma_pass_if(b1, Pass::App, x);
    lemma_pass_if(b2, Pass::Home, x);
    lemma_pass_if(b3, Pass::RotatedApp, x);
    lemma_pass_if(p.app_blurred, Pass::BlurredApp, x);
    lemma_pass_if(b5, Pass::AppCard, x);
}

proof fn lemma_overlays(o: Overlays, rotated: bool, x: Pass)
    ensures
        overlays_of(o, rotated).contains(x) <==> x is Overlay && (o.app_popups@.contains(x->Overlay_0) || (
        !rotated && (o.layers_above@.contains(x->Overlay_0) || o.layer_popups@.contains(x->Overlay_0)))),
{
    let a = overlay_passes(o.app_popups@);
    let b = overlay_passes(o.layers_above@);
    let c = overlay_passes(o.layer_popups@);
    lemma_overlay_passes(o.app_popups@, x);
    lemma_overlay_passes(o.layers_above@, x);
    lemma_overlay_passes(o.layer_popups@, x);
    lemma_in_either(a, b, x);
    lemma_in_either(a + b, c, x);
}

proof fn lemma_chrome(f: RenderFacts, x: Pass)
    ensures
        chrome_passes(f).contains(x) <==> x == Pass::Bar || (x == Pass::Osd && f.osd && f.rotation
            == Rotation::Portrait) || (x == Pass::Touches && f.touches),
{
    let b = f.osd && !f.rotation.swaps();
    let s0 = seq![Pass::Bar];
    let s1 = s0 + pass_if(b, Pass::Osd);
    assert(s0[0] == Pass::Bar);
    lemma_in_either(s0, pass_if(b, Pass::Osd), x);
    lemma_in_either(s1, pass_if(f.touches, Pass::Touches), x);
    lemma_pass_if(b, Pass::Osd, x);
    lemma_pass_if(f.touches, Pass::Touches, x);
}

/// What is drawn of an unlocked session: the app as it is shown, Home where the
/// app leaves it to be seen, the cards whose windows are there, the surfaces over
/// the app, the bar always, the volume display unless the app is turned.
pub proof fn law_frame_draws_what_is_shown(
    f: RenderFacts,
    cards: Vec<ToplevelId>,
    alive: Vec<bool>,
    o: Overlays,
    out: Vec<Pass>,
    x: Pass,
)
    requires
        call_ensures(draw_scene, (&f, &cards, &alive, &o), out),
        f.lock_view == LockView::Unlocked,
    ensures
        out@.contains(x) <==> ({
            let fills = f.window_covers && f.app is Some && f.app_parts > 0;
            let turned = f.rotation != Rotation::Portrait;
            match x {
                Pass::Clear => true,
                Pass::BelowLayers => true,
                Pass::App => fills && !f.app_blur && !turned,
                Pass::RotatedApp => fills && !f.app_blur && turned,
                Pass::BlurredApp => fills && f.app_blur,
                Pass::Home => (fills && f.app_blur) || (f.show_home && !fills),
                Pass::AppCard => !f.window_covers && f.app is Some && f.app_parts > 0 && f.has_window,
                Pass::Card(t) => cards@.contains(t) && t < alive@.len() && alive@[t as int],
                Pass::Overlay(s) => o.app_popups@.contains(s) || (!turned && (o.layers_above@.contains(s)
                    || o.layer_popups@.contains(s))),
                Pass::Bar => true,
                Pass::Osd => f.osd && !turned,
                Pass::Touches => f.touches,
                Pass::ClearBlack => false,
                Pass::LockSurface(_) => false,
            }
        }),
{
    let a = app_passes(f);
    let c = card_passes(cards@, alive@);
    let v = overlays_of(o, f.rotation.swaps());
    let h = chrome_passes(f);
    lemma_in_either(a, c, x);
    lemma_in_either(a + c, v, x);
    lemma_in_either(a + c + v, h, x);
    lemma_app_passes(f, x);
    lemma_card_passes(cards@, alive@, x);
    lemma_overlays(o, f.rotation.swaps(), x);
    lemma_chrome(f, x);
}

/// How far to the front a pass belongs.
pub open spec fn depth(p: Pass) -> int {
    match p {
        Pass::ClearBlack | Pass::Clear => 0,
        Pass::LockSurface(_) | Pass::BelowLayers => 1,
        Pass::App | Pass::Home => 2,
        Pass::RotatedApp | Pass::BlurredApp | Pass::AppCard => 3,
        Pass::Card(_) => 4,
        Pass::Overlay(_) => 5,
        Pass::Bar => 6,
        Pass::Osd => 7,
        Pass::Touches => 8,
    }
}

/// A frame is drawn from the back to the front: cleared first, then what lies
/// below the app, Home, the app, the cards, the surfaces over it, the bar, the
/// volume display, and the marks of touches last.
pub proof fn law_frame_is_drawn_back_to_front(
    f: RenderFacts,
    cards: Vec<ToplevelId>,
    alive: Vec<bool>,
    o: Overlays,
    out: Vec<Pass>,
    i: int,
    j: int,
)
    requires
        call_ensures(draw_scene, (&f, &cards, &alive, &o), out),
        0 <= i < j < out@.len(),
    ensures
        depth(out@[i]) <= depth(out@[j]),
{
    if f.lock_view == LockView::Unlocked {
        let a = app_passes(f);
        let c = card_passes(cards@, alive@);
        let v = overlays_of(o, f.rotation.swaps());
        let h = chrome_passes(f);
        let all = a + c + v + h;
        assert(out@ == all);
        let n1 = a.len() as int;
        let n2 = n1 + c.len();
        let n3 = n2 + v.len();
        assert forall|k: int| 0 <= k < all.len() implies {
            &&& k < n1 ==> all[k] == a[k] && depth(#[trigger] all[k]) <= 3
            &&& n1 <= k < n2 ==> depth(all[k]) == 4
            &&& n2 <= k < n3 ==> depth(all[k]) == 5
            &&& n3 <= k ==> all[k] == h[k - n3] && depth(all[k]) >= 6
        } by {
            if k < n1 {
                assert(all[k] == a[k]);
                lemma_app_passes(f, a[k]);
                assert(a.contains(a[k]));
            } else if k < n2 {
                assert(all[k] == c[k - n1]);
                lemma_card_passes(cards@, alive@, c[k - n1]);
                assert(c.contains(c[k - n1]));
            } else if k < n3 {
                assert(all[k] == v[k - n2]);
                lemma_overlays(o, f.rotation.swaps(), v[k - n2]);
                assert(v.contains(v[k - n2]));
            } else {
                assert(all[k] == h[k - n3]);
            }
        }
        assert(depth(all[i]) <= depth(all[j]));
    }
}

/// While the session is locked the screen is black but for the lock surface, the
/// volume display and the marks of touches.
pub proof fn law_locked_frame_shows_the_lock(
    f: RenderFacts,
    cards: Vec<ToplevelId>,
    alive: Vec<bool>,
    o: Overlays,
    out: Vec<Pass>,
    x: Pass,
)
    requires
        call_ensures(draw_scene, (&f, &cards, &alive, &o), out),
        f.lock_view != LockView::Unlocked,
    ensures
        out@.contains(x) <==> x == Pass::ClearBlack || (f.lock_surface is Some && x == Pass::LockSurface(
            f.lock_surface->0,
        )) || (x == Pass::Osd && f.osd) || (x == Pass::Touches && f.touches),
{
    let s0 = seq![Pass::ClearBlack];
    let s1: Seq<Pass> = match f.lock_surface {
        Some(s) => seq![Pass::LockSurface(s)],
        None => Seq::empty(),
    };
    assert(s0[0] == Pass::ClearBlack);
    if f.lock_surface is Some {
        assert(s1[0] == Pass::LockSurface(f.lock_surface->0));
    }
    lemma_in_either(s0, s1, x);
    lemma_in_either(s0 + s1, pass_if(f.osd, Pass::Osd), x);
    lemma_in_either(s0 + s1 + pass_if(f.osd, Pass::Osd), pass_if(f.touches, Pass::Touches), x);
    lemma_pass_if(f.osd, Pass::Osd, x);
    lemma_pass_if(f.touches, Pass::Touches, x);
}

/// Only the outer shape of a card has rounded corners, and every part is drawn.
pub proof fn law_outer_shape_is_rounded(parts: usize, rounded: bool, r: (usize, usize))
    requires
        call_ensures(rounded_parts, (parts, rounded), r),
    ensures
        r.0 + r.1 == parts,
        rounded && parts > 0 ==> r.0 == 1,
        !rounded ==> r.0 == 0,
{
}

/// A quarter turn on top leads to the next turn, keeping the flip.
pub proof fn law_quarter_turn_leads_on(t: Transform, r: Transform)
    requires
        call_ensures(compose, (t, Transform::Turn90), r),
    ensures
        r == match t {
            Transform::Normal => Transform::Turn90,
            Transform::Turn90 => Transform::Turn180,
            Transform::Turn180 => Transform::Turn270,
            Transform::Turn270 => Transform::Normal,
            Transform::Flipped => Transform::Flipped90,
            Transform::Flipped90 => Transform::Flipped180,
            Transform::Flipped180 => Transform::Flipped270,
            Transform::Flipped270 => Transform::Flipped,
        },
{
}

/// A flip on top of a transform adds one or takes the one away, and two flips
/// cancel out.
pub proof fn law_two_flips_cancel_out(t: Transform, once: Transform, twice: Transform)
    requires
        call_ensures(compose, (t, Transform::Flipped), once),
        call_ensures(compose, (once, Transform::Flipped), twice),
    ensures
        twice == t,
        t == Transform::Normal ==> once == Transform::Flipped,
        t == Transform::Turn90 ==> once == Transform::Flipped90,
        t == Transform::Turn180 ==> once == Transform::Flipped180,
        t == Transform::Turn270 ==> once == Transform::Flipped270,
{
}

/// An upright app is drawn as the output lies, a turned one a quarter or three
/// quarters further and in the size that it was laid out in.
pub proof fn law_turned_app_is_drawn_turned(
    output: (i32, i32),
    transform: Transform,
    rotation: Rotation,
    r: (Transform, (i32, i32)),
)
    requires
        call_ensures(app_pass_geometry, (output, transform, rotation), r),
    ensures
        rotation == Rotation::Portrait ==> r == (transform, output),
        rotation != Rotation::Portrait ==> r.1 == (output.1, output.0),
        rotation == Rotation::RightUp ==> r.0 == composed(transform, Transform::Turn90),
        rotation == Rotation::LeftUp ==> r.0 == composed(transform, Transform::Turn270),
{
    law_compose_has_an_identity(transform);
}

proof fn lemma_drawn_cards(cards: Seq<ToplevelId>, alive: Seq<bool>, d: Drawn)
    ensures
        drawn_cards(cards, alive).contains(d) <==> (d is Window && cards.contains(d->Window_0)
            && d->Window_0 < alive.len() && alive[d->Window_0 as int]),
    decreases cards.len(),
{
    if cards.len() > 0 {
        let less = cards.drop_last();
        let rest = drawn_cards(less, alive);
        let now = drawn_cards(cards, alive);
        lemma_drawn_cards(less, alive, d);
        if now.contains(d) {
            let k = choose|k: int| 0 <= k < now.len() && now[k] == d;
            if k < rest.len() {
                assert(rest[k] == d);
                let j = choose|j: int| 0 <= j < less.len() && less[j] == d->Window_0;
                assert(cards[j] == d->Window_0);
            } else {
                assert(cards[cards.len() - 1] == d->Window_0);
            }
        }
        if d is Window && cards.contains(d->Window_0) && d->Window_0 < alive.len()
            && alive[d->Window_0 as int] {
            let j = choose|j: int| 0 <= j < cards.len() && cards[j] == d->Window_0;
            if j < less.len() {
                assert(less[j] == d->Window_0);
                let k = choose|k: int| 0 <= k < rest.len() && rest[k] == d;
                assert(now[k] == d);
            } else {
                assert(now[rest.len() as int] == d);
            }
        }
    }
}

proof fn lemma_drawn_surfaces(surfaces: Seq<u64>, d: Drawn)
    ensures
        drawn_surfaces(surfaces).contains(d) <==> d is Surface && surfaces.contains(d->Surface_0),
{
    let ds = drawn_surfaces(surfaces);
    if ds.contains(d) {
        let k = choose|k: int| 0 <= k < ds.len() && ds[k] == d;
        assert(surfaces[k] == d->Surface_0);
    }
    if d is Surface && surfaces.contains(d->Surface_0) {
        let k = choose|k: int| 0 <= k < surfaces.len() && surfaces[k] == d->Surface_0;
        assert(ds[k] == d);
    }
}

/// Whoever is on screen is told that a frame was drawn, and nobody else: the app,
/// the cards whose windows are there, and every surface of the shell and popup.
pub proof fn law_everyone_on_screen_is_told(
    app: Option<u64>,
    cards: Vec<ToplevelId>,
    alive: Vec<bool>,
    layers_below: Vec<u64>,
    o: Overlays,
    out: Vec<Drawn>,
    d: Drawn,
)
    requires
        call_ensures(send_frame_callbacks, (app, &cards, &alive, &layers_below, &o), out),
    ensures
        out@.contains(d) <==> match d {
            Drawn::Window(t) => cards@.contains(t) && t < alive@.len() && alive@[t as int],
            Drawn::Surface(s) => app == Some(s) || layers_below@.contains(s) || o.layers_above@.contains(s)
                || o.app_popups@.contains(s) || o.layer_popups@.contains(s),
        },
{
    let a: Seq<Drawn> = match app {
        Some(s) => seq![Drawn::Surface(s)],
        None => Seq::empty(),
    };
    if app is Some {
        assert(a[0] == Drawn::Surface(app->0));
    }
    let b = drawn_cards(cards@, alive@);
    let c = drawn_surfaces(layers_below@);
    let e = drawn_surfaces(o.layers_above@);
    let g = drawn_surfaces(o.app_popups@);
    let h = drawn_surfaces(o.layer_popups@);
    lemma_in_either(a, b, d);
    lemma_in_either(a + b, c, d);
    lemma_in_either(a + b + c, e, d);
    lemma_in_either(a + b + c + e, g, d);
    lemma_in_either(a + b + c + e + g, h, d);
    lemma_drawn_cards(cards@, alive@, d);
    lemma_drawn_surfaces(layers_below@, d);
    lemma_drawn_surfaces(o.layers_above@, d);
    lemma_drawn_surfaces(o.app_popups@, d);
    lemma_drawn_surfaces(o.layer_popups@, d);
}

} // verus!
