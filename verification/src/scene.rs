//! What is drawn for what the shell shows: which window and how it is moved,
//! whether Home is behind it, and which cards lie over it.
//!
//! How far a spring has gone is not decided here. Where a window goes is named;
//! how far it has come is added where it is drawn.
use vstd::prelude::*;

use crate::app_history::ToplevelId;
use crate::sorting::{is_sorted_order, is_stable_order, key_views, places, sorted_order, KeyView, SortKey};
use crate::ui_state::NavTarget;

verus! {

/// How a window opens.
#[derive(Clone, Copy, Debug, PartialEq, Eq, Structural)]
pub enum OpenMode {
    /// Out of its icon.
    Zoom,
    /// From below.
    SlideUp,
    /// From the left, pushing Home out to the right.
    SlideFromLeft,
}

/// To which side an app slides for the next one.
#[derive(Clone, Copy, Debug, PartialEq, Eq, Structural)]
pub enum Slide {
    Right,
    Left,
    /// Not at all.
    Still,
}

/// What the shell shows, as far as the scene goes by it.
#[derive(Clone, Copy, Debug)]
pub enum Shown {
    Home {
        page: usize,
    },
    App {
        toplevel: ToplevelId,
    },
    AppOpening {
        toplevel: ToplevelId,
        mode: OpenMode,
    },
    AppClosing {
        toplevel: ToplevelId,
    },
    Grabbing {
        toplevel: ToplevelId,
        /// The finger is where the deck shows behind the window.
        previews: bool,
        /// How many windows there are.
        windows: usize,
        /// The window has left the bottom edge.
        lifted: bool,
    },
    Settling {
        toplevel: ToplevelId,
        target: NavTarget,
        windows: usize,
    },
    QuickSwitch {
        current: ToplevelId,
        prev: Option<ToplevelId>,
        next: Option<ToplevelId>,
        slide: Slide,
    },
    Switcher,
}

/// How a window is moved and scaled.
#[derive(Clone, Copy, Debug, PartialEq, Eq, Structural)]
pub enum Pose {
    /// Over the whole screen.
    Fullscreen,
    /// On the way between its icon and the whole screen.
    Zoom,
    SlideUp,
    SlideFromLeft,
    /// Under the finger.
    Grabbed,
    /// On the way back to the whole screen.
    Return,
    /// On the way to where it shrinks to.
    Shrink,
    /// The same, with the corners of a card.
    ShrinkToCard,
}

/// How Home is moved.
#[derive(Clone, Copy, Debug, PartialEq, Eq, Structural)]
pub enum HomeMove {
    Still,
    /// Up and back, after a gesture that led nowhere.
    Bounce,
    /// Out to the right, with the window that comes in from the left.
    SlideOut,
}

/// The cards over Home.
#[derive(Clone, Copy, Debug, PartialEq, Eq, Structural)]
pub enum CardPlan {
    Nothing,
    /// The deck, spread around this window, which is on top.
    Fan {
        front: ToplevelId,
    },
    /// The app that slides aside, over the one that it gives way to.
    Pair {
        behind: Option<ToplevelId>,
        front: ToplevelId,
    },
    /// The deck at rest, or rising.
    Deck,
}

/// What is drawn.
#[derive(Clone, Copy, Debug)]
pub struct Scene {
    pub window: Option<ToplevelId>,
    /// How the window, if there is one, is moved.
    pub pose: Pose,
    pub show_home: bool,
    pub home_page: usize,
    pub home_move: HomeMove,
    pub cards: CardPlan,
}

pub open spec fn window_scene(toplevel: ToplevelId, pose: Pose, show_home: bool) -> Scene {
    Scene {
        window: Some(toplevel),
        pose,
        show_home,
        home_page: 0,
        home_move: HomeMove::Still,
        cards: CardPlan::Nothing,
    }
}

pub open spec fn card_scene(cards: CardPlan) -> Scene {
    Scene {
        window: None,
        pose: Pose::Fullscreen,
        show_home: true,
        home_page: 0,
        home_move: HomeMove::Still,
        cards,
    }
}

/// The neighbour that a slide reveals: to the right the one before, to the left
/// the one after.
pub open spec fn revealed(prev: Option<ToplevelId>, next: Option<ToplevelId>, slide: Slide) -> Option<
    ToplevelId,
> {
    match slide {
        Slide::Right => prev,
        Slide::Left => next,
        Slide::Still => None,
    }
}

/// What is drawn for what the shell shows.
pub open spec fn scene_of(s: Shown) -> Scene {
    match s {
        Shown::Home { page } => Scene {
            window: None,
            pose: Pose::Fullscreen,
            show_home: true,
            home_page: page,
            home_move: HomeMove::Bounce,
            cards: CardPlan::Nothing,
        },
        Shown::App { toplevel } => window_scene(toplevel, Pose::Fullscreen, false),
        Shown::AppOpening { toplevel, mode } => match mode {
            OpenMode::Zoom => window_scene(toplevel, Pose::Zoom, true),
            OpenMode::SlideUp => window_scene(toplevel, Pose::SlideUp, true),
            OpenMode::SlideFromLeft => Scene {
                home_move: HomeMove::SlideOut,
                ..window_scene(toplevel, Pose::SlideFromLeft, true)
            },
        },
        Shown::AppClosing { toplevel } => window_scene(toplevel, Pose::Zoom, true),
        Shown::Grabbing { toplevel, previews, windows, lifted } => if previews && windows > 1 {
            card_scene(CardPlan::Fan { front: toplevel })
        } else {
            window_scene(toplevel, Pose::Grabbed, lifted)
        },
        Shown::Settling { toplevel, target, windows } => match target {
            NavTarget::BackToApp => window_scene(toplevel, Pose::Return, false),
            NavTarget::Switcher => if windows > 1 {
                // The cards stay on screen the whole way into the deck.
                card_scene(CardPlan::Fan { front: toplevel })
            } else {
                window_scene(toplevel, Pose::ShrinkToCard, true)
            },
            NavTarget::Home => window_scene(toplevel, Pose::Shrink, true),
            NavTarget::QuickSwitch(_) => window_scene(toplevel, Pose::Shrink, true),
        },
        Shown::QuickSwitch { current, prev, next, slide } => card_scene(
            CardPlan::Pair { behind: revealed(prev, next, slide), front: current },
        ),
        Shown::Switcher => card_scene(CardPlan::Deck),
    }
}

fn over_window(toplevel: ToplevelId, pose: Pose, show_home: bool) -> (r: Scene)
    ensures
        r == window_scene(toplevel, pose, show_home),
{
    Scene {
        window: Some(toplevel),
        pose,
        show_home,
        home_page: 0,
        home_move: HomeMove::Still,
        cards: CardPlan::Nothing,
    }
}

fn over_cards(cards: CardPlan) -> (r: Scene)
    ensures
        r == card_scene(cards),
{
    Scene {
        window: None,
        pose: Pose::Fullscreen,
        show_home: true,
        home_page: 0,
        home_move: HomeMove::Still,
        cards,
    }
}

/// What is drawn for what the shell shows.
pub fn compute_scene(s: &Shown) -> (r: Scene)
    ensures
        r == scene_of(*s),
{
    match *s {
        Shown::Home { page } => Scene {
            window: None,
            pose: Pose::Fullscreen,
            show_home: true,
            home_page: page,
            home_move: HomeMove::Bounce,
            cards: CardPlan::Nothing,
        },
        Shown::App { toplevel } => over_window(toplevel, Pose::Fullscreen, false),
        Shown::AppOpening { toplevel, mode } => {
            match mode {
                OpenMode::Zoom => over_window(toplevel, Pose::Zoom, true),
                OpenMode::SlideUp => over_window(toplevel, Pose::SlideUp, true),
                OpenMode::SlideFromLeft => {
                    let mut scene: Scene = over_window(toplevel, Pose::SlideFromLeft, true);
                    scene.home_move = HomeMove::SlideOut;
                    scene
                },
            }
        },
        Shown::AppClosing { toplevel } => over_window(toplevel, Pose::Zoom, true),
        Shown::Grabbing { toplevel, previews, windows, lifted } => {
            if previews && windows > 1 {
                over_cards(CardPlan::Fan { front: toplevel })
            } else {
                over_window(toplevel, Pose::Grabbed, lifted)
            }
        },
        Shown::Settling { toplevel, target, windows } => {
            match target {
                NavTarget::BackToApp => over_window(toplevel, Pose::Return, false),
                NavTarget::Switcher => {
                    if windows > 1 {
                        over_cards(CardPlan::Fan { front: toplevel })
                    } else {
                        over_window(toplevel, Pose::ShrinkToCard, true)
                    }
                },
                NavTarget::Home => over_window(toplevel, Pose::Shrink, true),
                NavTarget::QuickSwitch(_) => over_window(toplevel, Pose::Shrink, true),
            }
        },
        Shown::QuickSwitch { current, prev, next, slide } => {
            let behind: Option<ToplevelId> = match slide {
                Slide::Right => prev,
                Slide::Left => next,
                Slide::Still => None,
            };
            over_cards(CardPlan::Pair { behind, front: current })
        },
        Shown::Switcher => over_cards(CardPlan::Deck),
    }
}

/// A window is drawn by itself or among cards, never both, and Home is left out
/// only behind a window that covers the screen or is on its way to.
pub proof fn law_window_or_cards(s: Shown)
    ensures
        scene_of(s).window is Some ==> scene_of(s).cards == CardPlan::Nothing,
        scene_of(s).cards != CardPlan::Nothing ==> scene_of(s).show_home,
        !scene_of(s).show_home ==> scene_of(s).window is Some && (scene_of(s).pose
            == Pose::Fullscreen || scene_of(s).pose == Pose::Return || scene_of(s).pose
            == Pose::Grabbed),
{
}

/// Only the slide from the left takes Home with it.
pub proof fn law_only_the_sideways_slide_moves_home(s: Shown)
    ensures
        scene_of(s).home_move == HomeMove::SlideOut <==> (s matches Shown::AppOpening { mode, .. }
            && mode == OpenMode::SlideFromLeft),
{
}

// ---------------------------------------------------------------------------
// Cards
// ---------------------------------------------------------------------------

/// A card and how far to the front it lies.
#[derive(Clone, Copy, Debug, PartialEq, Eq, Structural)]
pub struct Card {
    pub toplevel: ToplevelId,
    pub z: i32,
}

/// How far to the front the window lies that a deck is spread around.
pub const FRONT_Z: i32 = 1000;

/// What cards are sorted by.
pub open spec fn card_key(c: Card) -> KeyView {
    KeyView { number: (c.z + 0x8000_0000) as u64, first: Seq::empty(), second: Seq::empty() }
}

pub open spec fn card_keys(cards: Seq<Card>) -> Seq<KeyView> {
    cards.map_values(|c: Card| card_key(c))
}

pub open spec fn cards_at(cards: Seq<Card>, order: Seq<int>) -> Seq<Card> {
    order.map_values(|i: int| cards[i])
}

/// Whether `r` lists the cards from the back to the front, cards that lie equally
/// far keeping their order.
pub open spec fn is_back_to_front(cards: Seq<Card>, r: Seq<Card>) -> bool {
    exists|order: Seq<int>| #[trigger]
        is_sorted_order(card_keys(cards), order) && is_stable_order(card_keys(cards), order) && r
            == cards_at(cards, order)
}

/// The cards from the back to the front, the order in which they are drawn.
pub fn back_to_front(cards: &Vec<Card>) -> (out: Vec<Card>)
    ensures
        is_back_to_front(cards@, out@),
{
    let mut keys: Vec<SortKey> = Vec::new();
    let mut i: usize = 0;
    while i < cards.len()
        invariant
            i <= cards.len(),
            keys.len() == i,
            forall|k: int| 0 <= k < i ==> (#[trigger] keys@[k])@ == card_key(cards@[k]),
        decreases cards.len() - i,
    {
        keys.push(
            SortKey {
                number: (cards[i].z as i64 + 0x8000_0000) as u64,
                first: String::new(),
                second: String::new(),
            },
        );
        i = i + 1;
    }
    let order: Vec<usize> = sorted_order(&keys);
    proof {
        assert(key_views(keys@) =~= card_keys(cards@));
    }
    let mut out: Vec<Card> = Vec::new();
    let mut j: usize = 0;
    while j < order.len()
        invariant
            j <= order.len(),
            is_sorted_order(card_keys(cards@), places(order@)),
            out@ =~= cards_at(cards@, places(order@).take(j as int)),
        decreases order.len() - j,
    {
        proof {
            assert(places(order@)[j as int] == order@[j as int]);
            assert(places(order@).take(j + 1) =~= places(order@).take(j as int).push(
                order@[j as int] as int,
            ));
        }
        let at: usize = order[j];
        out.push(cards[at]);
        j = j + 1;
    }
    proof {
        assert(places(order@).take(j as int) =~= places(order@));
    }
    out
}

/// A deck spread around a window: the window is on top.
pub fn fan(neighbours: &Vec<Card>, front: ToplevelId) -> (out: Vec<Card>)
    ensures
        is_back_to_front(
            neighbours@.push((Card { toplevel: front, z: FRONT_Z })),
            out@,
        ),
{
    let mut cards: Vec<Card> = Vec::new();
    let mut i: usize = 0;
    while i < neighbours.len()
        invariant
            i <= neighbours.len(),
            cards@ =~= neighbours@.take(i as int),
        decreases neighbours.len() - i,
    {
        cards.push(neighbours[i]);
        i = i + 1;
    }
    proof {
        assert(neighbours@.take(i as int) =~= neighbours@);
    }
    cards.push(Card { toplevel: front, z: FRONT_Z });
    back_to_front(&cards)
}

/// The two cards of a slide, the one that is revealed behind the other.
pub fn pair(behind: Option<ToplevelId>, front: ToplevelId) -> (out: Vec<Card>)
    ensures
        out@ == (match behind {
            Some(t) => seq![Card { toplevel: t, z: 0 }, Card { toplevel: front, z: 1 }],
            None => seq![Card { toplevel: front, z: 1 }],
        }),
{
    let mut out: Vec<Card> = Vec::new();
    match behind {
        Some(t) => {
            out.push(Card { toplevel: t, z: 0 });
        },
        None => {},
    }
    out.push(Card { toplevel: front, z: 1 });
    out
}

/// From the back to the front the cards never step back.
pub proof fn law_cards_come_forward(cards: Seq<Card>, r: Seq<Card>, a: int, b: int)
    requires
        is_back_to_front(cards, r),
        0 <= a <= b < r.len(),
    ensures
        r[a].z <= r[b].z,
        r.len() == cards.len(),
{
    let order = choose|order: Seq<int>| #[trigger]
        is_sorted_order(card_keys(cards), order) && is_stable_order(card_keys(cards), order) && r
            == cards_at(cards, order);
    let keys = card_keys(cards);
    assert(keys[order[a]] == card_key(cards[order[a]]));
    assert(keys[order[b]] == card_key(cards[order[b]]));
    if a < b {
        assert(!crate::sorting::goes_before(keys[order[b]], keys[order[a]]));
    }
}

/// A window of its own is drawn for an app that is shown, opens, closes, is under
/// the finger or settles, and it is that app's window; a deck of several is drawn
/// instead where the deck shows behind it.
pub proof fn law_scene_shows_the_window(s: Shown, r: Scene)
    requires
        call_ensures(compute_scene, (&s,), r),
    ensures
        match s {
            Shown::Home { page } => r.window is None && r.show_home && r.home_page == page,
            Shown::App { toplevel } => r.window == Some(toplevel) && r.pose == Pose::Fullscreen
                && !r.show_home,
            Shown::AppOpening { toplevel, mode } => r.window == Some(toplevel) && r.show_home,
            Shown::AppClosing { toplevel } => r.window == Some(toplevel) && r.show_home,
            Shown::Grabbing { toplevel, previews, windows, lifted } => (r.window is None <==> previews
                && windows > 1) && (r.window is Some ==> r.window == Some(toplevel) && (r.show_home
                <==> lifted)) && (r.window is None ==> r.show_home),
            Shown::Settling { toplevel, target, windows } => (r.window is None <==> target
                == NavTarget::Switcher && windows > 1) && (r.window is Some ==> r.window == Some(
                toplevel,
            )) && (r.show_home <==> target != NavTarget::BackToApp),
            Shown::QuickSwitch { .. } => r.window is None && r.show_home,
            Shown::Switcher => r.window is None && r.show_home,
        },
        r.home_move == HomeMove::Bounce <==> s is Home,
{
}

/// A window zooms between its icon and the screen, slides in the way it opens,
/// follows the finger, or goes where it settles; only one that goes into the deck
/// takes the corners of a card.
pub proof fn law_pose_follows_the_way(s: Shown, r: Scene)
    requires
        call_ensures(compute_scene, (&s,), r),
        r.window is Some,
    ensures
        r.pose == Pose::Fullscreen <==> s is App,
        r.pose == Pose::Grabbed <==> s is Grabbing,
        r.pose == Pose::Zoom <==> s is AppClosing || (s is AppOpening && s->AppOpening_mode == OpenMode::Zoom),
        r.pose == Pose::SlideUp <==> s is AppOpening && s->AppOpening_mode == OpenMode::SlideUp,
        r.pose == Pose::SlideFromLeft <==> s is AppOpening && s->AppOpening_mode == OpenMode::SlideFromLeft,
        r.pose == Pose::Return <==> s is Settling && s->target == NavTarget::BackToApp,
        r.pose == Pose::ShrinkToCard <==> s is Settling && s->target == NavTarget::Switcher,
{
}

/// The cards are the deck where it is at rest, the deck around the window where
/// that is held up or goes into it, and two where an app slides aside: it lies
/// over the neighbour on the side that it leaves.
pub proof fn law_cards_fit_what_is_shown(s: Shown, r: Scene)
    requires
        call_ensures(compute_scene, (&s,), r),
    ensures
        r.cards == CardPlan::Deck <==> s is Switcher,
        r.cards is Pair <==> s is QuickSwitch,
        match s {
            Shown::QuickSwitch { current, prev, next, slide } => r.cards->Pair_front == current
                && r.cards->behind == match slide {
                Slide::Right => prev,
                Slide::Left => next,
                Slide::Still => None,
            },
            Shown::Grabbing { toplevel, previews, windows, .. } => r.cards == (if previews && windows > 1 {
                CardPlan::Fan { front: toplevel }
            } else {
                CardPlan::Nothing
            }),
            Shown::Settling { toplevel, target, windows } => r.cards is Fan ==> r.cards->Fan_front
                == toplevel,
            _ => !(r.cards is Fan),
        },
{
}

/// Every card that is given is drawn.
pub proof fn law_every_card_is_drawn(cards: Vec<Card>, out: Vec<Card>, k: int)
    requires
        call_ensures(back_to_front, (&cards,), out),
        0 <= k < cards@.len(),
    ensures
        out@.contains(cards@[k]),
        out@.len() == cards@.len(),
{
    let keys = card_keys(cards@);
    let order = choose|order: Seq<int>| #[trigger]
        is_sorted_order(keys, order) && is_stable_order(keys, order) && out@ == cards_at(cards@, order);
    crate::sorting::law_every_place_is_listed(keys, order, k);
    let j = choose|j: int| 0 <= j < order.len() && order[j] == k;
    assert(out@[j] == cards@[k]);
}

/// The window that a deck is spread around lies over its neighbours.
pub proof fn law_fan_has_its_window_on_top(neighbours: Vec<Card>, front: ToplevelId, out: Vec<Card>)
    requires
        call_ensures(fan, (&neighbours, front), out),
        forall|k: int| 0 <= k < neighbours@.len() ==> (#[trigger] neighbours@[k]).z < 1000,
    ensures
        out@.len() == neighbours@.len() + 1,
        out@.last().toplevel == front,
{
    let cards = neighbours@.push((Card { toplevel: front, z: FRONT_Z }));
    let keys = card_keys(cards);
    let order = choose|order: Seq<int>| #[trigger]
        is_sorted_order(keys, order) && is_stable_order(keys, order) && out@ == cards_at(cards, order);
    let n = cards.len() - 1;
    crate::sorting::law_every_place_is_listed(keys, order, n);
    let j = choose|j: int| 0 <= j < order.len() && order[j] == n;
    assert(out@[j] == cards[n]);
    law_cards_come_forward(cards, out@, j, out@.len() - 1);
    let last = order[order.len() - 1];
    assert(out@.last() == cards[last]);
    if last < n {
        assert(cards[last] == neighbours@[last]);
    }
}

/// Of two cards of a slide the app that slides lies on top.
pub proof fn law_sliding_app_lies_on_top(behind: Option<ToplevelId>, front: ToplevelId, out: Vec<Card>)
    requires
        call_ensures(pair, (behind, front), out),
    ensures
        out@.last().toplevel == front,
        behind is Some ==> out@.len() == 2 && out@[0].toplevel == behind->0 && out@[0].z < out@[1].z,
        behind is None ==> out@.len() == 1,
{
}

} // verus!
