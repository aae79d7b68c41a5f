//! What a finger does to the shell: an ordered row of stages for each of press,
//! movement and release. A stage that owns the event ends the row.
//!
//! How far a finger went and what lies under it is measured elsewhere and comes
//! in as a reading; what the shell shows comes in as it is when the stage runs.
use vstd::prelude::*;

use crate::app_history::{AppHistory, ToplevelId};
use crate::arrange::{lifted, ArrangeState, DragItem, IconPress};
use crate::input_dispatch::{
    action_of, drop_of, resolve_drop, DownAction, DropAction, Hit, IconSource,
};
use crate::library::{page_count_of, page_total};
use crate::time::{elapsed, since, Nanos, SECOND};
use crate::ui_state::{AppRef, NavTarget, UiEvent, UiKind};

verus! {

/// Whether a stage consumed the event.
#[derive(Clone, Copy, Debug, PartialEq, Eq, Structural)]
pub enum Stage {
    Done,
    Fallthrough,
}

/// The menu of an icon, as far as fingers go: how many rows it has, and which
/// one is armed.
#[derive(Clone, Copy, Debug, PartialEq, Eq, Structural)]
pub struct MenuPress {
    pub rows: usize,
    pub pressed: Option<usize>,
}

/// A finger on the deck of cards.
#[derive(Clone, Copy, Debug, PartialEq, Eq, Structural)]
pub enum SwitcherDrag {
    /// On a card: it scrolls the deck, or carries the card away.
    OnCard {
        toplevel: ToplevelId,
    },
    /// Beside the cards: it may become a tap that leaves the deck.
    InEmpty,
    /// No finger.
    Idle,
}

/// What the finger may still turn into.
#[derive(Clone, Copy, Debug)]
pub struct Gestures {
    /// A position of the finger is known.
    pub positioned: bool,
    pub pointer_down: bool,
    pub last_motion: Option<Nanos>,
    pub menu: Option<MenuPress>,
    pub arrange: Option<ArrangeState>,
    pub switcher_drag: SwitcherDrag,
    /// A tap on this icon, unless the finger goes on.
    pub pending_launch: Option<AppRef>,
    pub icon_press: Option<IconPress>,
    /// A long press on the background, since.
    pub bg_press: Option<Nanos>,
    /// A pull down would open the search.
    pub search_armed: bool,
    pub page_drag: bool,
    pub bar_drag: bool,
}

/// What the shell does for a finger.
#[derive(Clone, Copy, Debug, PartialEq, Eq, Structural)]
pub enum InputStep {
    /// A frame is due.
    Redraw,
    /// What is shown changes.
    Transition(UiEvent),
    /// The icon in the air follows the finger.
    FollowIcon,
    /// The speed of the card under the finger is measured.
    TrackCard,
    /// The card follows the finger out of the deck.
    RideCard(ToplevelId),
    /// The deck follows the finger.
    ScrollDeck,
    OpenSearch,
    /// The speed of the page under the finger is measured.
    TrackPage,
    /// The page follows the finger.
    FollowPage,
    /// The app gives way to its neighbour.
    EnterQuickSwitch,
    /// The slide is given up for a grab.
    RevertQuickSwitch,
    /// The slide follows the finger.
    UpdateQuickSwitch,
    /// The slide ends, at the neighbour or back where it began.
    SettleQuickSwitch,
    /// The app leaves the home screen.
    HideApp(AppRef),
    /// The new order is kept, and the icons slide to it.
    AfterArrangeEdit,
    /// The icon is pinned to the dock, if that has room.
    Pin(AppRef),
    /// The icon moves to a slot.
    MoveTo {
        app: AppRef,
        page: usize,
        index: usize,
    },
    /// Nothing was moved: a page added by the way is dropped, and the icons slide
    /// back.
    Repack,
    /// A window that was grabbed shows the deck behind it.
    SeedDeck,
    /// The home bar is shown.
    TouchBar,
    /// The menu closes and a row of it is run.
    RunMenuRow(usize),
    /// The page under the finger goes to a page, by how far and how fast it went.
    CommitPageSwipe,
    /// The page under the finger goes back to where it was.
    CancelPageDrag,
    /// The app is launched, or its window raised.
    Launch(AppRef),
    /// The most recent window slides in.
    SlideToTop(ToplevelId),
    /// The card leaves the deck and its window is closed.
    CloseCard(ToplevelId),
    /// The card springs back into the deck.
    CardSpringsBack,
    /// The window becomes the most recent one.
    PushForeground(ToplevelId),
    /// The deck comes to rest on a card.
    SettleDeck,
    /// A window on its way knows where it shrinks to.
    AimSettle,
    /// How many home pages there are.
    PageCount(usize),
}

/// What a stage leads to.
pub struct Outcome {
    pub stage: Stage,
    pub g: Gestures,
    pub steps: Seq<InputStep>,
}

pub open spec fn done(g: Gestures, steps: Seq<InputStep>) -> Outcome {
    Outcome { stage: Stage::Done, g, steps }
}

pub open spec fn goes_on(g: Gestures, steps: Seq<InputStep>) -> Outcome {
    Outcome { stage: Stage::Fallthrough, g, steps }
}

/// Nothing of this stage's concern.
pub open spec fn passes(g: Gestures) -> Outcome {
    goes_on(g, Seq::empty())
}

/// `first`, and then what `rest` makes of it unless it was done.
pub open spec fn and_then(first: Outcome, rest: Outcome) -> Outcome {
    if first.stage == Stage::Done {
        first
    } else {
        Outcome { stage: rest.stage, g: rest.g, steps: first.steps + rest.steps }
    }
}

/// Whether a function that began with `g0` and `out0` did what `o` says.
pub open spec fn did(
    o: Outcome,
    stage: Stage,
    g: Gestures,
    before: Seq<InputStep>,
    after: Seq<InputStep>,
) -> bool {
    stage == o.stage && g == o.g && after =~= before + o.steps
}

// ---------------------------------------------------------------------------
// Movement
// ---------------------------------------------------------------------------

/// What a drag of a card is.
#[derive(Clone, Copy, Debug, PartialEq, Eq, Structural)]
pub enum CardDrag {
    /// Mostly up: the card leaves the deck.
    Close,
    /// Anything else: the deck scrolls.
    Scroll,
}

/// What is measured of a movement.
#[derive(Clone, Copy, Debug, PartialEq, Eq, Structural)]
pub struct MotionReading {
    /// The row of the menu under the finger.
    pub menu_row: Option<usize>,
    pub over_dock: bool,
    /// The home page that is shown, the slot nearest to the finger, and how many
    /// icons the page holds besides the one in the air.
    pub page: usize,
    pub nearest: usize,
    pub live_len: usize,
    pub card_drag: CardDrag,
    /// The finger went further than a tap wobbles, from where it pressed the
    /// background, or an icon.
    pub left_background: bool,
    pub left_icon: bool,
    /// The finger pulls down far enough for the search.
    pub pulls_down: bool,
}

/// Only a finger that armed a row drags in the menu: the drift of the long press
/// that opened it picks none.
pub open spec fn menu_moved(g: Gestures, row: Option<usize>) -> Outcome {
    match g.menu {
        None => passes(g),
        Some(m) => if m.pressed is None || m.pressed == row {
            done(g, Seq::empty())
        } else {
            done(
                Gestures { menu: Some(MenuPress { pressed: row, ..m }), ..g },
                seq![InputStep::Redraw],
            )
        },
    }
}

fn motion_icon_menu(g: &mut Gestures, out: &mut Vec<InputStep>, row: Option<usize>) -> (stage: Stage)
    ensures
        did(menu_moved(*old(g), row), stage, *final(g), old(out)@, final(out)@),
{
    match g.menu {
        None => Stage::Fallthrough,
        Some(m) => {
            match m.pressed {
                None => {},
                Some(armed) => {
                    let same: bool = match row {
                        Some(r) => r == armed,
                        None => false,
                    };
                    if !same {
                        g.menu = Some(MenuPress { rows: m.rows, pressed: row });
                        out.push(InputStep::Redraw);
                    }
                },
            }
            Stage::Done
        },
    }
}

/// Where an icon in the air would land.
pub open spec fn hover_of(r: MotionReading) -> Option<(usize, usize)> {
    if r.over_dock {
        None
    } else if r.nearest <= r.live_len {
        Some((r.page, r.nearest))
    } else {
        Some((r.page, r.live_len))
    }
}

pub open spec fn arrange_moved(g: Gestures, r: MotionReading) -> Outcome {
    match g.arrange {
        Some(ArrangeState { drag: Some(d), just_engaged }) => done(
            Gestures {
                arrange: Some(
                    ArrangeState {
                        drag: Some(DragItem { hover: hover_of(r), ..d }),
                        just_engaged,
                    },
                ),
                ..g
            },
            seq![InputStep::FollowIcon],
        ),
        _ => passes(g),
    }
}

fn motion_arrange_drag(g: &mut Gestures, out: &mut Vec<InputStep>, r: &MotionReading) -> (stage: Stage)
    ensures
        did(arrange_moved(*old(g), *r), stage, *final(g), old(out)@, final(out)@),
{
    match g.arrange {
        Some(ArrangeState { drag: Some(d), just_engaged }) => {
            let hover: Option<(usize, usize)> = if r.over_dock {
                None
            } else if r.nearest <= r.live_len {
                Some((r.page, r.nearest))
            } else {
                Some((r.page, r.live_len))
            };
            g.arrange = Some(
                ArrangeState {
                    drag: Some(
                        DragItem { app: d.app, source: d.source, hover, edge_since: d.edge_since },
                    ),
                    just_engaged,
                },
            );
            out.push(InputStep::FollowIcon);
            Stage::Done
        },
        _ => Stage::Fallthrough,
    }
}

/// A drag of a card follows the finger, unless the deck has been left under it.
pub open spec fn card_moved(g: Gestures, ui: UiKind, drag: CardDrag) -> Outcome {
    match g.switcher_drag {
        SwitcherDrag::OnCard { toplevel } => if ui != UiKind::Switcher {
            goes_on(g, seq![InputStep::TrackCard])
        } else {
            done(
                g,
                seq![
                    InputStep::TrackCard,
                    match drag {
                        CardDrag::Close => InputStep::RideCard(toplevel),
                        CardDrag::Scroll => InputStep::ScrollDeck,
                    },
                ],
            )
        },
        _ => passes(g),
    }
}

fn motion_switcher_card(g: &Gestures, out: &mut Vec<InputStep>, ui: UiKind, drag: CardDrag) -> (stage: Stage)
    ensures
        did(card_moved(*g, ui, drag), stage, *g, old(out)@, final(out)@),
{
    match g.switcher_drag {
        SwitcherDrag::OnCard { toplevel } => {
            out.push(InputStep::TrackCard);
            match ui {
                UiKind::Switcher => {
                    out.push(
                        match drag {
                            CardDrag::Close => InputStep::RideCard(toplevel),
                            CardDrag::Scroll => InputStep::ScrollDeck,
                        },
                    );
                    Stage::Done
                },
                _ => Stage::Fallthrough,
            }
        },
        _ => Stage::Fallthrough,
    }
}

/// What a finger that goes on can no longer be: a tap, or a long press.
pub open spec fn disarmed(g: Gestures, r: MotionReading) -> Gestures {
    let launch_over = g.pending_launch is Some && r.left_icon;
    Gestures {
        bg_press: if r.left_background {
            None
        } else {
            g.bg_press
        },
        pending_launch: if launch_over {
            None
        } else {
            g.pending_launch
        },
        icon_press: if launch_over {
            None
        } else {
            g.icon_press
        },
        ..g
    }
}

fn motion_cancel_icon_press(g: &mut Gestures, r: &MotionReading)
    ensures
        *final(g) == disarmed(*old(g), *r),
{
    if r.left_background {
        g.bg_press = None;
    }
    if g.pending_launch.is_some() && r.left_icon {
        g.pending_launch = None;
        g.icon_press = None;
    }
}

/// A pull down on the empty home screen opens the search.
pub open spec fn pulled(g: Gestures, ui: UiKind, pulls_down: bool) -> Outcome {
    if ui == UiKind::Home && g.search_armed && pulls_down {
        done(g, seq![InputStep::OpenSearch])
    } else {
        passes(g)
    }
}

/// The page under the finger follows it.
pub open spec fn paged(g: Gestures, ui: UiKind) -> Outcome {
    goes_on(
        g,
        if !g.page_drag {
            Seq::empty()
        } else if ui == UiKind::Home {
            seq![InputStep::TrackPage, InputStep::FollowPage]
        } else {
            seq![InputStep::TrackPage]
        },
    )
}

/// A window that is grabbed follows the finger, and the time of the movement is
/// remembered.
pub open spec fn grabbed(g: Gestures, ui: UiKind, now: Nanos) -> Outcome {
    goes_on(
        Gestures { last_motion: Some(now), ..g },
        if ui == UiKind::Grabbing {
            seq![InputStep::Transition(UiEvent::GrabMove)]
        } else {
            Seq::empty()
        },
    )
}

/// What a movement of a finger that is down leads to, up to where the gestures
/// may cross.
pub open spec fn moved(g: Gestures, ui: UiKind, r: MotionReading, now: Nanos) -> Outcome {
    let a = menu_moved(g, r.menu_row);
    let b = and_then(a, arrange_moved(a.g, r));
    let c = and_then(b, card_moved(b.g, ui, r.card_drag));
    let d = and_then(c, passes(disarmed(c.g, r)));
    let e = and_then(d, pulled(d.g, ui, r.pulls_down));
    let f = and_then(e, paged(e.g, ui));
    and_then(f, grabbed(f.g, ui, now))
}

/// A movement of the finger. `Done` when a stage owned it; otherwise the
/// gestures may cross (see [`cross_gestures`]), once the steps were taken.
pub fn on_motion(g: &mut Gestures, ui: UiKind, r: &MotionReading, now: Nanos) -> (res: (
    Stage,
    Vec<InputStep>,
))
    ensures
        if old(g).pointer_down {
            did(
                moved((Gestures { positioned: true, ..*old(g) }), ui, *r, now),
                res.0,
                *final(g),
                Seq::empty(),
                res.1@,
            )
        } else {
            res.0 == Stage::Done && res.1@.len() == 0 && *final(g) == (Gestures {
                positioned: true,
                ..*old(g)
            })
        },
{
    let mut out: Vec<InputStep> = Vec::new();
    g.positioned = true;
    if !g.pointer_down {
        return (Stage::Done, out);
    }
    let ghost g0 = *g;
    match motion_icon_menu(g, &mut out, r.menu_row) {
        Stage::Done => {
            return (Stage::Done, out);
        },
        Stage::Fallthrough => {},
    }
    match motion_arrange_drag(g, &mut out, r) {
        Stage::Done => {
            return (Stage::Done, out);
        },
        Stage::Fallthrough => {},
    }
    match motion_switcher_card(g, &mut out, ui, r.card_drag) {
        Stage::Done => {
            return (Stage::Done, out);
        },
        Stage::Fallthrough => {},
    }
    motion_cancel_icon_press(g, r);
    let home: bool = match ui {
        UiKind::Home => true,
        _ => false,
    };
    if home && g.search_armed && r.pulls_down {
        out.push(InputStep::OpenSearch);
        return (Stage::Done, out);
    }
    if g.page_drag {
        out.push(InputStep::TrackPage);
        if home {
            out.push(InputStep::FollowPage);
        }
    }
    g.last_motion = Some(now);
    match ui {
        UiKind::Grabbing => {
            out.push(InputStep::Transition(UiEvent::GrabMove));
        },
        _ => {},
    }
    proof {
        assert(out@ =~= moved(g0, ui, *r, now).steps);
    }
    (Stage::Fallthrough, out)
}

/// A grab that turns sideways while it is low becomes a slide to the next app,
/// and a slide that is pulled up becomes a grab again.
pub open spec fn crossed(ui: UiKind, sideways: bool, lifted_up: bool, releasing: bool) -> Seq<InputStep> {
    let enters = ui == UiKind::Grabbing && sideways;
    let slide = if lifted_up {
        seq![InputStep::RevertQuickSwitch]
    } else if releasing {
        Seq::empty()
    } else {
        seq![InputStep::UpdateQuickSwitch]
    };
    if enters {
        seq![InputStep::EnterQuickSwitch] + slide
    } else if ui == UiKind::QuickSwitch {
        slide
    } else {
        Seq::empty()
    }
}

/// The two gestures that a drag of the bar can be. `sideways` is whether a grab
/// went clearly sideways while low, `lifted_up` whether the finger rose past
/// where the deck shows, and `releasing` whether the slide is settling already.
pub fn cross_gestures(ui: UiKind, sideways: bool, lifted_up: bool, releasing: bool) -> (out: Vec<
    InputStep,
>)
    ensures
        out@ == crossed(ui, sideways, lifted_up, releasing),
{
    let mut out: Vec<InputStep> = Vec::new();
    let slides: bool = match ui {
        UiKind::Grabbing => {
            if sideways {
                out.push(InputStep::EnterQuickSwitch);
            }
            sideways
        },
        UiKind::QuickSwitch => true,
        _ => false,
    };
    if slides {
        if lifted_up {
            out.push(InputStep::RevertQuickSwitch);
        } else if !releasing {
            out.push(InputStep::UpdateQuickSwitch);
        }
    }
    proof {
        assert(out@ =~= crossed(ui, sideways, lifted_up, releasing));
    }
    out
}

/// The shortest time that two movements are taken to be apart.
pub const SHORTEST_MOTION: Nanos = 1_000_000;

/// The first movement of a gesture has none before it: it is taken to last one
/// frame, and so many of those make a second.
pub const FIRST_MOTIONS_PER_SECOND: Nanos = 90;

/// A length of time: so many parts, of which `per_second` make a second.
#[derive(Clone, Copy, Debug, PartialEq, Eq, Structural)]
pub struct MotionTime {
    pub parts: Nanos,
    pub per_second: Nanos,
}

/// How long a movement at `now` took.
pub open spec fn motion_time(last_motion: Option<Nanos>, now: Nanos) -> MotionTime {
    match last_motion {
        None => MotionTime { parts: 1, per_second: FIRST_MOTIONS_PER_SECOND },
        Some(t) => MotionTime {
            parts: if elapsed(t, now) >= SHORTEST_MOTION {
                elapsed(t, now)
            } else {
                SHORTEST_MOTION
            },
            per_second: SECOND,
        },
    }
}

/// How long the last movement took: the time since the one before it, and never
/// nothing. The first of a gesture is taken to last a frame.
pub fn motion_dt(last_motion: &mut Option<Nanos>, now: Nanos) -> (r: MotionTime)
    ensures
        *final(last_motion) == Some(now),
        r == motion_time(*old(last_motion), now),
{
    let before: Option<Nanos> = *last_motion;
    *last_motion = Some(now);
    match before {
        None => MotionTime { parts: 1, per_second: FIRST_MOTIONS_PER_SECOND },
        Some(t) => {
            let dt: Nanos = since(t, now);
            MotionTime {
                parts: if dt >= SHORTEST_MOTION {
                    dt
                } else {
                    SHORTEST_MOTION
                },
                per_second: SECOND,
            }
        },
    }
}

/// A speed is worked out over at least a millisecond, whatever the clock says.
pub proof fn law_motion_takes_time(last_motion: Option<Nanos>, now: Nanos)
    ensures
        ({
            let t = motion_time(last_motion, now);
            &&& t.per_second > 0
            &&& t.parts * SECOND >= SHORTEST_MOTION * t.per_second
        }),
{
}

// ---------------------------------------------------------------------------
// Press
// ---------------------------------------------------------------------------

/// What a press hit of a menu.
#[derive(Clone, Copy, Debug, PartialEq, Eq, Structural)]
pub enum MenuHit {
    Row(usize),
    /// Inside, between the rows.
    Panel,
    Outside,
}

/// What a press hit of the deck.
#[derive(Clone, Copy, Debug, PartialEq, Eq, Structural)]
pub enum DeckHit {
    Card(ToplevelId),
    /// A card that has just gone.
    GoneCard,
    Empty,
}

/// What a press hit.
#[derive(Clone, Copy, Debug, PartialEq, Eq, Structural)]
pub struct PressReading {
    pub menu: MenuHit,
    /// In arrange mode, where badges and a button come first.
    pub arrange: Hit,
    pub deck: DeckHit,
    pub home: Hit,
    pub on_bar: bool,
}

/// A menu owns every press: anywhere else closes it, and reaches nothing
/// beneath.
pub open spec fn menu_pressed(g: Gestures, hit: MenuHit) -> Outcome {
    match g.menu {
        None => passes(g),
        Some(m) => done(
            Gestures {
                menu: match hit {
                    MenuHit::Row(i) => Some(MenuPress { pressed: Some(i), ..m }),
                    MenuHit::Panel => Some(MenuPress { pressed: None, ..m }),
                    MenuHit::Outside => None,
                },
                ..g
            },
            seq![InputStep::Redraw],
        ),
    }
}

fn press_icon_menu(g: &mut Gestures, out: &mut Vec<InputStep>, hit: MenuHit) -> (stage: Stage)
    ensures
        did(menu_pressed(*old(g), hit), stage, *final(g), old(out)@, final(out)@),
{
    match g.menu {
        None => Stage::Fallthrough,
        Some(m) => {
            g.menu = match hit {
                MenuHit::Row(i) => Some(MenuPress { rows: m.rows, pressed: Some(i) }),
                MenuHit::Panel => Some(MenuPress { rows: m.rows, pressed: None }),
                MenuHit::Outside => None,
            };
            out.push(InputStep::Redraw);
            Stage::Done
        },
    }
}

/// In arrange mode a press removes an icon, leaves the mode, picks an icon up,
/// or starts to drag the page.
pub open spec fn arrange_pressed(g: Gestures, hit: Hit) -> Outcome {
    match g.arrange {
        None => passes(g),
        Some(a) => match hit {
            Hit::RemoveBadge(app) => done(
                g,
                seq![InputStep::HideApp(app), InputStep::AfterArrangeEdit],
            ),
            Hit::DoneButton => done(Gestures { arrange: None, ..g }, Seq::empty()),
            Hit::Bar => done(Gestures { arrange: None, ..g }, Seq::empty()),
            Hit::Miss => done(Gestures { page_drag: true, ..g }, Seq::empty()),
            Hit::GridIcon(app) => done(
                Gestures {
                    arrange: Some(ArrangeState { drag: Some(lifted(app, IconSource::Grid)), ..a }),
                    ..g
                },
                Seq::empty(),
            ),
            Hit::DockIcon(app) => done(
                Gestures {
                    arrange: Some(ArrangeState { drag: Some(lifted(app, IconSource::Dock)), ..a }),
                    ..g
                },
                Seq::empty(),
            ),
        },
    }
}

fn lift(app: AppRef, source: IconSource) -> (r: DragItem)
    ensures
        r == lifted(app, source),
{
    DragItem { app, source, hover: None, edge_since: None }
}

fn press_arrange(g: &mut Gestures, out: &mut Vec<InputStep>, hit: Hit) -> (stage: Stage)
    ensures
        did(arrange_pressed(*old(g), hit), stage, *final(g), old(out)@, final(out)@),
{
    match g.arrange {
        None => Stage::Fallthrough,
        Some(a) => {
            match hit {
                Hit::RemoveBadge(app) => {
                    out.push(InputStep::HideApp(app));
                    out.push(InputStep::AfterArrangeEdit);
                },
                Hit::DoneButton => {
                    g.arrange = None;
                },
                Hit::Bar => {
                    g.arrange = None;
                },
                Hit::Miss => {
                    g.page_drag = true;
                },
                Hit::GridIcon(app) => {
                    g.arrange = Some(
                        ArrangeState {
                            drag: Some(lift(app, IconSource::Grid)),
                            just_engaged: a.just_engaged,
                        },
                    );
                },
                Hit::DockIcon(app) => {
                    g.arrange = Some(
                        ArrangeState {
                            drag: Some(lift(app, IconSource::Dock)),
                            just_engaged: a.just_engaged,
                        },
                    );
                },
            }
            Stage::Done
        },
    }
}

/// The deck owns every press while it is up.
pub open spec fn deck_pressed(g: Gestures, ui: UiKind, hit: DeckHit) -> Outcome {
    if ui != UiKind::Switcher {
        passes(g)
    } else {
        done(
            match hit {
                DeckHit::Card(toplevel) => Gestures {
                    switcher_drag: SwitcherDrag::OnCard { toplevel },
                    ..g
                },
                DeckHit::GoneCard => g,
                DeckHit::Empty => Gestures { switcher_drag: SwitcherDrag::InEmpty, ..g },
            },
            Seq::empty(),
        )
    }
}

fn press_switcher(g: &mut Gestures, ui: UiKind, hit: DeckHit) -> (stage: Stage)
    ensures
        did(deck_pressed(*old(g), ui, hit), stage, *final(g), Seq::empty(), Seq::empty()),
{
    match ui {
        UiKind::Switcher => {
            match hit {
                DeckHit::Card(toplevel) => {
                    g.switcher_drag = SwitcherDrag::OnCard { toplevel };
                },
                DeckHit::GoneCard => {},
                DeckHit::Empty => {
                    g.switcher_drag = SwitcherDrag::InEmpty;
                },
            }
            Stage::Done
        },
        _ => Stage::Fallthrough,
    }
}

/// A press arms all that the gesture might turn into. The release decides.
pub open spec fn armed(g: Gestures, action: DownAction, now: Nanos) -> Outcome {
    match action {
        DownAction::Event(ev) => goes_on(g, seq![InputStep::Transition(ev), InputStep::SeedDeck]),
        DownAction::PressIcon { app, source } => goes_on(
            Gestures {
                pending_launch: Some(app),
                page_drag: true,
                icon_press: Some(IconPress { app, source, at: now }),
                ..g
            },
            Seq::empty(),
        ),
        DownAction::StartPageDrag => goes_on(
            Gestures { page_drag: true, search_armed: true, bg_press: Some(now), ..g },
            Seq::empty(),
        ),
        DownAction::StartBarDrag => goes_on(
            Gestures { bar_drag: true, ..g },
            seq![InputStep::TouchBar],
        ),
        DownAction::Ignore => passes(g),
    }
}

fn press_arm_gesture(g: &mut Gestures, out: &mut Vec<InputStep>, action: DownAction, now: Nanos)
    ensures
        did(
            armed(*old(g), action, now),
            Stage::Fallthrough,
            *final(g),
            old(out)@,
            final(out)@,
        ),
{
    match action {
        DownAction::Event(ev) => {
            out.push(InputStep::Transition(ev));
            out.push(InputStep::SeedDeck);
        },
        DownAction::PressIcon { app, source } => {
            g.pending_launch = Some(app);
            g.page_drag = true;
            g.icon_press = Some(IconPress { app, source, at: now });
        },
        DownAction::StartPageDrag => {
            g.page_drag = true;
            g.search_armed = true;
            g.bg_press = Some(now);
        },
        DownAction::StartBarDrag => {
            g.bar_drag = true;
            out.push(InputStep::TouchBar);
        },
        DownAction::Ignore => {},
    }
}

/// What a press leads to.
pub open spec fn pressed(g: Gestures, ui: UiKind, r: PressReading, now: Nanos) -> Outcome {
    let a = menu_pressed(g, r.menu);
    let b = and_then(a, arrange_pressed(a.g, r.arrange));
    let c = and_then(b, deck_pressed(b.g, ui, r.deck));
    and_then(c, armed(c.g, action_of(ui, r.home, r.on_bar), now))
}

/// A finger comes down where it was last seen.
pub fn on_press(g: &mut Gestures, ui: UiKind, r: &PressReading, now: Nanos) -> (out: Vec<InputStep>)
    ensures
        if old(g).positioned {
            let o = pressed(
                (Gestures { pointer_down: true, last_motion: Some(now), ..*old(g) }),
                ui,
                *r,
                now,
            );
            *final(g) == o.g && out@ == o.steps
        } else {
            *final(g) == *old(g) && out@.len() == 0
        },
{
    let mut out: Vec<InputStep> = Vec::new();
    if !g.positioned {
        return out;
    }
    g.pointer_down = true;
    g.last_motion = Some(now);
    let ghost g0 = *g;
    match press_icon_menu(g, &mut out, r.menu) {
        Stage::Done => {
            return out;
        },
        Stage::Fallthrough => {},
    }
    match press_arrange(g, &mut out, r.arrange) {
        Stage::Done => {
            return out;
        },
        Stage::Fallthrough => {},
    }
    match press_switcher(g, ui, r.deck) {
        Stage::Done => {
            return out;
        },
        Stage::Fallthrough => {},
    }
    let action: DownAction = crate::input_dispatch::on_press(ui, r.home, r.on_bar);
    press_arm_gesture(g, &mut out, action, now);
    proof {
        assert(out@ =~= pressed(g0, ui, *r, now).steps);
    }
    out
}

// ---------------------------------------------------------------------------
// Release
// ---------------------------------------------------------------------------

/// Where a drag of the bar from Home leads.
#[derive(Clone, Copy, Debug, PartialEq, Eq, Structural)]
pub enum BarRelease {
    Nowhere,
    OpenSwitcher,
    SlideToTop,
}

/// What is measured of a release.
#[derive(Clone, Copy, Debug, PartialEq, Eq, Structural)]
pub struct ReleaseReading {
    /// In arrange mode: the page was swiped, not tapped.
    pub swiped: bool,
    pub over_dock: bool,
    /// The home page that is shown, the slot nearest to the finger, and how many
    /// icons the page holds.
    pub page: usize,
    pub nearest: usize,
    pub page_len: usize,
    pub bar: BarRelease,
    /// The most recent window that is still there.
    pub front: Option<ToplevelId>,
}

/// The row that is armed is run. Without one the menu stays: the long press that
/// opened it ends in a release too.
pub open spec fn menu_released(g: Gestures) -> Outcome {
    match g.menu {
        None => passes(g),
        Some(m) => if m.pressed is Some && m.pressed->0 < m.rows {
            done(
                Gestures { menu: None, ..g },
                seq![InputStep::RunMenuRow(m.pressed->0), InputStep::Redraw],
            )
        } else {
            done(g, Seq::empty())
        },
    }
}

fn release_icon_menu(g: &mut Gestures, out: &mut Vec<InputStep>) -> (stage: Stage)
    ensures
        did(menu_released(*old(g)), stage, *final(g), old(out)@, final(out)@),
{
    match g.menu {
        None => Stage::Fallthrough,
        Some(m) => {
            match m.pressed {
                Some(i) => {
                    if i < m.rows {
                        g.menu = None;
                        out.push(InputStep::RunMenuRow(i));
                        out.push(InputStep::Redraw);
                    }
                },
                None => {},
            }
            Stage::Done
        },
    }
}

/// A slide to the next app settles.
pub open spec fn slide_released(g: Gestures, ui: UiKind) -> Outcome {
    if ui == UiKind::QuickSwitch {
        done(Gestures { bar_drag: false, ..g }, seq![InputStep::SettleQuickSwitch])
    } else {
        passes(g)
    }
}

/// What dropping an icon does. The hole that the icons opened is where it goes:
/// it was found in the order without the icon.
pub open spec fn dropped(d: DragItem, r: ReleaseReading) -> Seq<InputStep> {
    match drop_of(d.source, r.over_dock, r.page, r.nearest, r.page_len) {
        DropAction::Pin => seq![InputStep::Pin(d.app)],
        DropAction::Reorder { page, index } => seq![
            InputStep::MoveTo {
                app: d.app,
                page,
                index: match d.hover {
                    Some((_, i)) => i,
                    None => index,
                },
            },
            InputStep::AfterArrangeEdit,
        ],
        DropAction::SnapBack => seq![InputStep::Repack],
    }
}

fn resolve_arrange_drop(out: &mut Vec<InputStep>, d: &DragItem, r: &ReleaseReading)
    ensures
        final(out)@ == old(out)@ + dropped(*d, *r),
{
    let ghost before = out@;
    match resolve_drop(d.source, r.over_dock, r.page, r.nearest, r.page_len) {
        DropAction::Pin => {
            out.push(InputStep::Pin(d.app));
        },
        DropAction::Reorder { page, index } => {
            let index: usize = match d.hover {
                Some((_, i)) => i,
                None => index,
            };
            out.push(InputStep::MoveTo { app: d.app, page, index });
            out.push(InputStep::AfterArrangeEdit);
        },
        DropAction::SnapBack => {
            out.push(InputStep::Repack);
        },
    }
    proof {
        assert(out@ =~= before + dropped(*d, *r));
    }
}

/// What follows a pin: a full dock refuses it, and the icon slides back.
pub fn after_pin(pinned: bool) -> (r: InputStep)
    ensures
        r == (if pinned {
            InputStep::AfterArrangeEdit
        } else {
            InputStep::Repack
        }),
{
    if pinned {
        InputStep::AfterArrangeEdit
    } else {
        InputStep::Repack
    }
}

/// In arrange mode a release drops the icon, flips the page, or leaves the mode.
/// The release of the finger that engaged it does none of that.
pub open spec fn arrange_released(g: Gestures, r: ReleaseReading) -> Outcome {
    match g.arrange {
        None => passes(g),
        Some(a) => if a.just_engaged {
            done(
                Gestures {
                    arrange: Some(ArrangeState { just_engaged: false, ..a }),
                    page_drag: false,
                    ..g
                },
                Seq::empty(),
            )
        } else {
            match a.drag {
                Some(d) => done(
                    Gestures { arrange: Some(ArrangeState { drag: None, ..a }), ..g },
                    dropped(d, r),
                ),
                None => if g.page_drag && r.swiped {
                    done(
                        Gestures { page_drag: false, ..g },
                        seq![InputStep::CommitPageSwipe],
                    )
                } else {
                    done(Gestures { page_drag: false, arrange: None, ..g }, Seq::empty())
                },
            }
        },
    }
}

fn release_arrange(g: &mut Gestures, out: &mut Vec<InputStep>, r: &ReleaseReading) -> (stage: Stage)
    ensures
        did(arrange_released(*old(g), *r), stage, *final(g), old(out)@, final(out)@),
{
    match g.arrange {
        None => Stage::Fallthrough,
        Some(a) => {
            if a.just_engaged {
                g.arrange = Some(ArrangeState { drag: a.drag, just_engaged: false });
                g.page_drag = false;
                return Stage::Done;
            }
            match a.drag {
                Some(d) => {
                    g.arrange = Some(ArrangeState { drag: None, just_engaged: a.just_engaged });
                    resolve_arrange_drop(out, &d, r);
                },
                None => {
                    if g.page_drag && r.swiped {
                        out.push(InputStep::CommitPageSwipe);
                    } else {
                        g.arrange = None;
                    }
                    g.page_drag = false;
                },
            }
            Stage::Done
        },
    }
}

/// A tap launches. The page drag that the same press armed is given up.
pub open spec fn tap_released(g: Gestures) -> Outcome {
    match g.pending_launch {
        Some(app) => done(
            Gestures { pending_launch: None, page_drag: false, icon_press: None, ..g },
            seq![InputStep::CancelPageDrag, InputStep::Launch(app)],
        ),
        None => passes(Gestures { icon_press: None, ..g }),
    }
}

fn release_icon_tap(g: &mut Gestures, out: &mut Vec<InputStep>) -> (stage: Stage)
    ensures
        did(tap_released(*old(g)), stage, *final(g), old(out)@, final(out)@),
{
    g.icon_press = None;
    match g.pending_launch {
        Some(app) => {
            g.pending_launch = None;
            g.page_drag = false;
            out.push(InputStep::CancelPageDrag);
            out.push(InputStep::Launch(app));
            Stage::Done
        },
        None => Stage::Fallthrough,
    }
}

/// A drag of the bar from Home opens the deck, or slides the most recent window
/// in. Without a window Home gives way and comes back.
pub open spec fn bar_released(g: Gestures, r: ReleaseReading) -> Outcome {
    let after = Gestures { bar_drag: false, ..g };
    goes_on(
        after,
        if !g.bar_drag || r.bar == BarRelease::Nowhere {
            Seq::empty()
        } else {
            match r.front {
                None => seq![InputStep::Transition(UiEvent::HomeBounce)],
                Some(t) => match r.bar {
                    BarRelease::OpenSwitcher => seq![
                        InputStep::Transition(UiEvent::OpenSwitcherFromHome),
                    ],
                    _ => seq![InputStep::SlideToTop(t)],
                },
            }
        },
    )
}

fn release_bar_drag(g: &mut Gestures, out: &mut Vec<InputStep>, r: &ReleaseReading)
    ensures
        did(
            bar_released(*old(g), *r),
            Stage::Fallthrough,
            *final(g),
            old(out)@,
            final(out)@,
        ),
{
    let dragged: bool = g.bar_drag;
    g.bar_drag = false;
    if !dragged {
        return;
    }
    match r.bar {
        BarRelease::Nowhere => {},
        BarRelease::OpenSwitcher => {
            out.push(
                match r.front {
                    None => InputStep::Transition(UiEvent::HomeBounce),
                    Some(_) => InputStep::Transition(UiEvent::OpenSwitcherFromHome),
                },
            );
        },
        BarRelease::SlideToTop => {
            out.push(
                match r.front {
                    None => InputStep::Transition(UiEvent::HomeBounce),
                    Some(t) => InputStep::SlideToTop(t),
                },
            );
        },
    }
}

/// The first half of a release, up to where what is shown may have changed.
pub open spec fn released(g: Gestures, ui: UiKind, r: ReleaseReading) -> Outcome {
    let a = menu_released(g);
    let b = and_then(a, slide_released(a.g, ui));
    let c = and_then(b, arrange_released(b.g, r));
    let d = and_then(c, tap_released(c.g));
    and_then(d, bar_released(d.g, r))
}

/// The gestures once the finger is up, before the stages run.
pub open spec fn lifted_off(g: Gestures) -> Gestures {
    Gestures {
        pointer_down: false,
        last_motion: None,
        search_armed: false,
        bg_press: None,
        ..g
    }
}

/// The finger comes up where it was last seen. `Done` when a stage owned the
/// release; otherwise [`release_rest`] follows, once the steps were taken.
pub fn on_release(g: &mut Gestures, ui: UiKind, r: &ReleaseReading) -> (res: (Stage, Vec<InputStep>))
    ensures
        if old(g).positioned {
            did(released(lifted_off(*old(g)), ui, *r), res.0, *final(g), Seq::empty(), res.1@)
        } else {
            res.0 == Stage::Done && res.1@.len() == 0 && *final(g) == *old(g)
        },
{
    let mut out: Vec<InputStep> = Vec::new();
    if !g.positioned {
        return (Stage::Done, out);
    }
    g.pointer_down = false;
    g.last_motion = None;
    g.search_armed = false;
    g.bg_press = None;
    let ghost g0 = *g;
    match release_icon_menu(g, &mut out) {
        Stage::Done => {
            return (Stage::Done, out);
        },
        Stage::Fallthrough => {},
    }
    match ui {
        UiKind::QuickSwitch => {
            g.bar_drag = false;
            out.push(InputStep::SettleQuickSwitch);
            return (Stage::Done, out);
        },
        _ => {},
    }
    match release_arrange(g, &mut out, r) {
        Stage::Done => {
            return (Stage::Done, out);
        },
        Stage::Fallthrough => {},
    }
    match release_icon_tap(g, &mut out) {
        Stage::Done => {
            return (Stage::Done, out);
        },
        Stage::Fallthrough => {},
    }
    release_bar_drag(g, &mut out, r);
    proof {
        assert(out@ =~= released(g0, ui, *r).steps);
    }
    (Stage::Fallthrough, out)
}

/// What is measured of a release over the deck.
#[derive(Clone, Copy, Debug, PartialEq, Eq, Structural)]
pub struct DeckReading {
    /// The finger came up about where it came down.
    pub tapped: bool,
    /// The card that is being carried away, and whether it went far or fast
    /// enough.
    pub closing: Option<ToplevelId>,
    pub close_commits: bool,
    /// The card under the finger.
    pub card: Option<ToplevelId>,
}

/// The page under the finger goes to a page.
pub open spec fn page_released(g: Gestures, ui: UiKind) -> Outcome {
    goes_on(
        Gestures { page_drag: false, ..g },
        if g.page_drag && ui == UiKind::Home {
            seq![InputStep::CommitPageSwipe]
        } else {
            Seq::empty()
        },
    )
}

/// Over the deck a release closes a card or lets it spring back, opens a card
/// that was tapped, leaves the deck, or lets it come to rest.
pub open spec fn deck_released(g: Gestures, ui: UiKind, d: DeckReading) -> Outcome {
    let after = Gestures { switcher_drag: SwitcherDrag::Idle, ..g };
    if ui != UiKind::Switcher {
        passes(g)
    } else {
        match g.switcher_drag {
            SwitcherDrag::OnCard { .. } => match d.closing {
                Some(t) => done(
                    after,
                    if d.close_commits {
                        seq![
                            InputStep::Transition(UiEvent::SwitcherCloseCard { toplevel: t }),
                            InputStep::CloseCard(t),
                        ]
                    } else {
                        seq![InputStep::CardSpringsBack]
                    },
                ),
                None => if d.tapped {
                    match d.card {
                        Some(t) => done(
                            after,
                            seq![
                                InputStep::PushForeground(t),
                                InputStep::Transition(UiEvent::SwitcherTapCard { toplevel: t }),
                            ],
                        ),
                        None => passes(after),
                    }
                } else {
                    goes_on(after, seq![InputStep::SettleDeck])
                },
            },
            SwitcherDrag::InEmpty => if d.tapped {
                done(after, seq![InputStep::Transition(UiEvent::SwitcherDismiss)])
            } else {
                passes(after)
            },
            SwitcherDrag::Idle => passes(after),
        }
    }
}

fn release_switcher(g: &mut Gestures, out: &mut Vec<InputStep>, ui: UiKind, d: &DeckReading) -> (stage:
    Stage)
    ensures
        did(deck_released(*old(g), ui, *d), stage, *final(g), old(out)@, final(out)@),
{
    match ui {
        UiKind::Switcher => {},
        _ => {
            return Stage::Fallthrough;
        },
    }
    let drag: SwitcherDrag = g.switcher_drag;
    g.switcher_drag = SwitcherDrag::Idle;
    match drag {
        SwitcherDrag::OnCard { .. } => {
            match d.closing {
                Some(t) => {
                    if d.close_commits {
                        out.push(
                            InputStep::Transition(UiEvent::SwitcherCloseCard { toplevel: t }),
                        );
                        out.push(InputStep::CloseCard(t));
                    } else {
                        out.push(InputStep::CardSpringsBack);
                    }
                    return Stage::Done;
                },
                None => {},
            }
            if d.tapped {
                return match d.card {
                    Some(t) => {
                        out.push(InputStep::PushForeground(t));
                        out.push(InputStep::Transition(UiEvent::SwitcherTapCard { toplevel: t }));
                        Stage::Done
                    },
                    None => Stage::Fallthrough,
                };
            }
            out.push(InputStep::SettleDeck);
        },
        SwitcherDrag::InEmpty => {
            if d.tapped {
                out.push(InputStep::Transition(UiEvent::SwitcherDismiss));
                return Stage::Done;
            }
        },
        SwitcherDrag::Idle => {},
    }
    Stage::Fallthrough
}

/// The second half of a release.
pub open spec fn rest_released(g: Gestures, ui: UiKind, d: DeckReading) -> Outcome {
    let a = page_released(g, ui);
    and_then(a, deck_released(a.g, ui, d))
}

/// The second half of a release, with what is shown by now. `Done` when a stage
/// owned it; otherwise [`release_grab`] and [`refresh_page_count`] follow.
pub fn release_rest(g: &mut Gestures, ui: UiKind, d: &DeckReading) -> (res: (Stage, Vec<InputStep>))
    ensures
        did(rest_released(*old(g), ui, *d), res.0, *final(g), Seq::empty(), res.1@),
{
    let mut out: Vec<InputStep> = Vec::new();
    let ghost g0 = *g;
    if g.page_drag {
        match ui {
            UiKind::Home => {
                out.push(InputStep::CommitPageSwipe);
            },
            _ => {},
        }
    }
    g.page_drag = false;
    let stage: Stage = release_switcher(g, &mut out, ui, d);
    proof {
        assert(out@ =~= rest_released(g0, ui, *d).steps);
    }
    (stage, out)
}

/// The window that a quick switch raises: the one that the walk leads to, if it
/// is still there, and the current one otherwise.
pub open spec fn raised(found: Option<ToplevelId>, alive: Seq<bool>, current: ToplevelId) -> ToplevelId {
    match found {
        Some(t) => if t < alive.len() && alive[t as int] {
            t
        } else {
            current
        },
        None => current,
    }
}

/// What the walk through the history finds, one step in the direction `dir`.
pub open spec fn walked(h: AppHistory, dir: i32) -> Option<ToplevelId> {
    match h.step(dir) {
        Some(i) => Some(h.stack@[i]),
        None => None,
    }
}

/// The grab of a window ends. A quick swipe raises a neighbour, browsing without
/// reordering; anything else lets the window go where the gesture leads.
pub fn release_grab(
    ui: UiKind,
    target: NavTarget,
    history: &mut AppHistory,
    alive: &Vec<bool>,
    current: ToplevelId,
) -> (out: Vec<InputStep>)
    requires
        old(history).wf(),
    ensures
        final(history).wf(),
        final(history).stack@ == old(history).stack@,
        if ui != UiKind::Grabbing {
            out@.len() == 0 && final(history).cursor == old(history).cursor
        } else {
            match target {
                NavTarget::QuickSwitch(dir) => {
                    &&& out@ == seq![
                        InputStep::Transition(
                            UiEvent::RaiseApp {
                                toplevel: raised(walked(*old(history), dir), alive@, current),
                            },
                        ),
                    ]
                    &&& final(history).cursor == match old(history).step(dir) {
                        Some(i) => i,
                        None => old(history).cursor as int,
                    }
                },
                _ => {
                    &&& out@ == seq![
                        InputStep::Transition(UiEvent::GrabRelease),
                        InputStep::AimSettle,
                    ]
                    &&& final(history).cursor == old(history).cursor
                },
            }
        },
{
    let mut out: Vec<InputStep> = Vec::new();
    match ui {
        UiKind::Grabbing => {},
        _ => {
            return out;
        },
    }
    match target {
        NavTarget::QuickSwitch(dir) => {
            let toplevel: ToplevelId = match history.quick_switch(dir) {
                Some(t) => {
                    if t < alive.len() && alive[t] {
                        t
                    } else {
                        current
                    }
                },
                None => current,
            };
            out.push(InputStep::Transition(UiEvent::RaiseApp { toplevel }));
        },
        _ => {
            out.push(InputStep::Transition(UiEvent::GrabRelease));
            out.push(InputStep::AimSettle);
        },
    }
    out
}

/// How a slide to the next app ends.
#[derive(Clone, Copy, Debug, PartialEq, Eq, Structural)]
pub enum QuickRelease {
    /// At the neighbour: to the right for a positive direction.
    Commit {
        dir: i32,
    },
    /// Back where it began.
    Reject,
}

/// Which app a slide ends at: the older one to the right, the more recent one to
/// the left, none when it goes back. The walk moves with it, and reorders
/// nothing.
pub fn settle_quick_switch(
    history: &mut AppHistory,
    prev: Option<ToplevelId>,
    next: Option<ToplevelId>,
    verdict: QuickRelease,
) -> (commit: Option<ToplevelId>)
    requires
        old(history).wf(),
    ensures
        final(history).wf(),
        final(history).stack@ == old(history).stack@,
        match verdict {
            QuickRelease::Commit { dir } => {
                &&& commit == (if dir > 0 {
                    prev
                } else {
                    next
                })
                &&& final(history).cursor == match old(history).step(dir) {
                    Some(i) => i,
                    None => old(history).cursor as int,
                }
            },
            QuickRelease::Reject => commit is None && final(history).cursor == old(history).cursor,
        },
{
    match verdict {
        QuickRelease::Commit { dir } => {
            let _ = history.quick_switch(dir);
            if dir > 0 {
                prev
            } else {
                next
            }
        },
        QuickRelease::Reject => None,
    }
}

/// The neighbours that a slide can reveal: to the right the older app, to the
/// left the more recent one, each if its window is still there.
pub fn neighbours(history: &AppHistory, alive: &Vec<bool>) -> (r: (
    Option<ToplevelId>,
    Option<ToplevelId>,
))
    requires
        history.wf(),
    ensures
        r.0 == if_alive(walked(*history, 1i32), alive@),
        r.1 == if_alive(walked(*history, -1i32), alive@),
{
    let older: Option<ToplevelId> = history.peek(1);
    let newer: Option<ToplevelId> = history.peek(-1);
    (keep_alive(older, alive), keep_alive(newer, alive))
}

/// A window, if it is still there.
pub open spec fn if_alive(t: Option<ToplevelId>, alive: Seq<bool>) -> Option<ToplevelId> {
    match t {
        Some(i) => if i < alive.len() && alive[i as int] {
            Some(i)
        } else {
            None
        },
        None => None,
    }
}

fn keep_alive(t: Option<ToplevelId>, alive: &Vec<bool>) -> (r: Option<ToplevelId>)
    ensures
        r == if_alive(t, alive@),
{
    match t {
        Some(i) => {
            if i < alive.len() && alive[i] {
                Some(i)
            } else {
                None
            }
        },
        None => None,
    }
}

/// The last thing about a release that no stage owned: a finger may have come
/// back to Home.
pub fn refresh_page_count(ui: UiKind, pages: usize) -> (out: Vec<InputStep>)
    requires
        pages < usize::MAX,
    ensures
        out@ == (if ui == UiKind::Home {
            seq![InputStep::PageCount(page_total(pages as nat) as usize)]
        } else {
            Seq::empty()
        }),
{
    let mut out: Vec<InputStep> = Vec::new();
    match ui {
        UiKind::Home => {
            out.push(InputStep::PageCount(page_count_of(pages)));
        },
        _ => {},
    }
    out
}

// ---------------------------------------------------------------------------
// Laws
// ---------------------------------------------------------------------------

/// A menu that is open owns press, movement and release: nothing beneath it is
/// reached.
pub proof fn law_menu_is_modal(
    g: Gestures,
    ui: UiKind,
    m: MotionReading,
    p: PressReading,
    r: ReleaseReading,
    now: Nanos,
)
    requires
        g.menu is Some,
    ensures
        moved(g, ui, m, now) == menu_moved(g, m.menu_row),
        pressed(g, ui, p, now) == menu_pressed(g, p.menu),
        released(g, ui, r) == menu_released(g),
        moved(g, ui, m, now).stage == Stage::Done,
        pressed(g, ui, p, now).stage == Stage::Done,
        released(g, ui, r).stage == Stage::Done,
{
}

/// A tap outranks the page swipe that the same press armed.
pub proof fn law_tap_outranks_swipe(g: Gestures, ui: UiKind, r: ReleaseReading, app: AppRef)
    requires
        g.menu is None,
        g.arrange is None,
        ui != UiKind::QuickSwitch,
        g.pending_launch == Some(app),
    ensures
        released(g, ui, r).stage == Stage::Done,
        released(g, ui, r).steps == seq![InputStep::CancelPageDrag, InputStep::Launch(app)],
        !released(g, ui, r).g.page_drag,
{
}

/// A finger that went further than a tap wobbles launches nothing.
pub proof fn law_swipe_cancels_the_launch(g: Gestures, r: MotionReading)
    requires
        r.left_icon,
    ensures
        disarmed(g, r).pending_launch is None,
        tap_released(disarmed(g, r)).stage == Stage::Fallthrough,
{
}

/// The release of the finger that engaged arrange mode does not leave it, and
/// moves nothing.
pub proof fn law_engaging_release_is_inert(g: Gestures, ui: UiKind, r: ReleaseReading)
    requires
        g.menu is None,
        ui != UiKind::QuickSwitch,
        g.arrange is Some,
        g.arrange->0.just_engaged,
    ensures
        released(g, ui, r).steps.len() == 0,
        released(g, ui, r).g.arrange is Some,
        !(released(g, ui, r).g.arrange->0).just_engaged,
{
}

/// Once the finger is up nothing is armed that only a finger can finish, when no
/// menu and no arrange mode is open and the shell shows neither a slide nor the
/// deck.
pub proof fn law_release_disarms(g: Gestures, ui: UiKind, r: ReleaseReading, after: UiKind, d: DeckReading)
    requires
        g.menu is None,
        g.arrange is None,
        ui != UiKind::QuickSwitch,
    ensures
        ({
            let first = released(lifted_off(g), ui, r);
            let last = if first.stage == Stage::Done {
                first.g
            } else {
                rest_released(first.g, after, d).g
            };
            &&& !last.pointer_down
            &&& last.pending_launch is None
            &&& last.icon_press is None
            &&& last.bg_press is None
            &&& !last.search_armed
            &&& !last.page_drag
        }),
{
}

/// Whether an icon is in the air.
pub open spec fn carries_icon(g: Gestures) -> bool {
    g.arrange is Some && (g.arrange->0).drag is Some
}

/// Whether a movement of the finger is for something other than the page beneath:
/// a menu, an icon in the air, or a card of the deck.
pub open spec fn moves_something_else(g: Gestures, ui: UiKind) -> bool {
    g.menu is Some || carries_icon(g) || (ui == UiKind::Switcher && g.switcher_drag is OnCard)
}

/// The search opens exactly when a finger that armed it on Home pulls down, with
/// nothing else in its hold. A finger that drags the page and opens no search makes
/// the page follow, and no other finger does.
pub proof fn law_pull_down_opens_the_search(g: Gestures, ui: UiKind, r: MotionReading, now: Nanos)
    ensures
        ({
            let o = moved(g, ui, r, now);
            let free = !moves_something_else(g, ui);
            let searches = free && ui == UiKind::Home && g.search_armed && r.pulls_down;
            &&& o.steps.contains(InputStep::OpenSearch) <==> searches
            &&& searches ==> o.stage == Stage::Done
            &&& o.steps.contains(InputStep::TrackPage) <==> free && !searches && g.page_drag
            &&& o.steps.contains(InputStep::FollowPage) <==> free && !searches && g.page_drag && ui
                == UiKind::Home
            &&& free && !searches ==> o.stage == Stage::Fallthrough && o.g.last_motion == Some(now)
        }),
{
    let o = moved(g, ui, r, now);
    let on_card = g.switcher_drag is OnCard;
    if !moves_something_else(g, ui) {
        let k = if on_card {
            1int
        } else {
            0int
        };
        if ui == UiKind::Home && g.search_armed && r.pulls_down {
            assert(o.steps[k] == InputStep::OpenSearch);
        } else if g.page_drag {
            assert(o.steps[k] == InputStep::TrackPage);
            if ui == UiKind::Home {
                assert(o.steps[k + 1] == InputStep::FollowPage);
            }
        }
    }
}

/// A card that a finger drags upwards in the deck rides with it, and any other drag
/// of a card scrolls the deck. A window that is grabbed follows the finger, and an
/// icon in the air does.
pub proof fn law_what_is_held_follows(
    g: Gestures,
    ui: UiKind,
    r: MotionReading,
    now: Nanos,
    t: ToplevelId,
)
    ensures
        ({
            let s = moved(g, ui, r, now).steps;
            let holds_card = g.menu is None && !carries_icon(g) && ui == UiKind::Switcher
                && g.switcher_drag is OnCard;
            &&& s.contains(InputStep::RideCard(t)) <==> holds_card && r.card_drag == CardDrag::Close
                && g.switcher_drag->toplevel == t
            &&& s.contains(InputStep::ScrollDeck) <==> holds_card && r.card_drag == CardDrag::Scroll
            &&& s.contains(InputStep::FollowIcon) <==> g.menu is None && carries_icon(g)
            &&& s.contains(InputStep::Transition(UiEvent::GrabMove)) <==> g.menu is None
                && !carries_icon(g) && ui == UiKind::Grabbing
        }),
{
    let s = moved(g, ui, r, now).steps;
    let on_card = g.switcher_drag is OnCard;
    if g.menu is None {
        if carries_icon(g) {
            assert(s[0] == InputStep::FollowIcon);
        } else if on_card && ui == UiKind::Switcher {
            assert(s[0] == InputStep::TrackCard);
            assert(s[1] == match r.card_drag {
                CardDrag::Close => InputStep::RideCard(g.switcher_drag->toplevel),
                CardDrag::Scroll => InputStep::ScrollDeck,
            });
        } else if ui == UiKind::Grabbing {
            assert(s[s.len() - 1] == InputStep::Transition(UiEvent::GrabMove));
        }
    }
}

/// An icon in the air finds the slot nearest to the finger, or the one behind the
/// last icon when that slot lies further. Over the dock it finds none.
pub proof fn law_icon_in_the_air_finds_the_nearest_slot(
    g: Gestures,
    ui: UiKind,
    r: MotionReading,
    now: Nanos,
)
    requires
        g.menu is None,
        carries_icon(g),
    ensures
        ({
            let was = (g.arrange->0).drag->0;
            let a = moved(g, ui, r, now).g.arrange;
            &&& a is Some && (a->0).drag is Some
            &&& ((a->0).drag->0).app == was.app && ((a->0).drag->0).source == was.source
            &&& ((a->0).drag->0).hover is None <==> r.over_dock
            &&& ((a->0).drag->0).hover matches Some((page, i)) ==> page == r.page && i <= r.live_len
                && i <= r.nearest && (i == r.nearest || i == r.live_len)
        }),
{
}

/// A finger that leaves the icon it pressed gives up the launch and the long press,
/// one that leaves the background gives up that long press, and one that stays
/// gives up neither.
pub proof fn law_only_leaving_disarms(g: Gestures, ui: UiKind, r: MotionReading, now: Nanos)
    requires
        !moves_something_else(g, ui),
    ensures
        ({
            let a = moved(g, ui, r, now).g;
            &&& a.pending_launch == (if r.left_icon {
                None
            } else {
                g.pending_launch
            })
            &&& g.pending_launch is Some && r.left_icon ==> a.icon_press is None
            &&& g.pending_launch is None || !r.left_icon ==> a.icon_press == g.icon_press
            &&& a.bg_press == (if r.left_background {
                None
            } else {
                g.bg_press
            })
        }),
{
}

/// In a menu a finger arms the row under it, once it has armed one: the drift of
/// the long press that opened the menu arms none.
pub proof fn law_menu_row_follows_the_finger(g: Gestures, ui: UiKind, r: MotionReading, now: Nanos)
    requires
        g.menu is Some,
    ensures
        ({
            let m = moved(g, ui, r, now).g.menu;
            &&& m is Some && (m->0).rows == (g.menu->0).rows
            &&& (m->0).pressed == (if (g.menu->0).pressed is Some {
                r.menu_row
            } else {
                None
            })
        }),
{
}

/// A press in a menu closes it exactly when it is outside, and arms exactly the row
/// that it hit.
pub proof fn law_press_outside_closes_the_menu(
    g: Gestures,
    ui: UiKind,
    r: PressReading,
    now: Nanos,
    i: usize,
)
    requires
        g.menu is Some,
    ensures
        ({
            let m = pressed(g, ui, r, now).g.menu;
            &&& m is None <==> r.menu == MenuHit::Outside
            &&& m is Some ==> (m->0).rows == (g.menu->0).rows
            &&& m is Some && (m->0).pressed == Some(i) <==> r.menu == MenuHit::Row(i)
        }),
{
}

/// In arrange mode a press removes the app whose badge it hit and no other, leaves
/// the mode on the button and on the bar only, lifts the icon that it hit from
/// where that was, and drags the page beside the icons.
pub proof fn law_press_in_arrange_mode(
    g: Gestures,
    ui: UiKind,
    r: PressReading,
    now: Nanos,
    app: AppRef,
)
    requires
        g.menu is None,
        g.arrange is Some,
    ensures
        ({
            let o = pressed(g, ui, r, now);
            let lifts = r.arrange is GridIcon || r.arrange is DockIcon;
            &&& o.steps.contains(InputStep::HideApp(app)) <==> r.arrange == Hit::RemoveBadge(app)
            &&& o.steps.contains(InputStep::AfterArrangeEdit) <==> r.arrange is RemoveBadge
            &&& o.g.arrange is None <==> r.arrange == Hit::DoneButton || r.arrange == Hit::Bar
            &&& r.arrange == Hit::GridIcon(app) ==> (o.g.arrange->0).drag == Some(
                DragItem { app, source: IconSource::Grid, hover: None, edge_since: None },
            )
            &&& r.arrange == Hit::DockIcon(app) ==> (o.g.arrange->0).drag == Some(
                DragItem { app, source: IconSource::Dock, hover: None, edge_since: None },
            )
            &&& o.g.arrange is Some && !lifts ==> o.g.arrange == g.arrange
            &&& o.g.page_drag == (g.page_drag || r.arrange == Hit::Miss)
            &&& o.g.pending_launch == g.pending_launch
        }),
{
    let o = pressed(g, ui, r, now);
    if r.arrange is RemoveBadge {
        assert(o.steps[0] == InputStep::HideApp(r.arrange->RemoveBadge_0));
        assert(o.steps[1] == InputStep::AfterArrangeEdit);
    }
}

/// Over the deck a finger takes hold of the card that it hit, or of none.
pub proof fn law_press_takes_the_card_it_hit(
    g: Gestures,
    r: PressReading,
    now: Nanos,
    t: ToplevelId,
)
    requires
        g.menu is None,
        g.arrange is None,
        g.switcher_drag == SwitcherDrag::Idle,
    ensures
        ({
            let o = pressed(g, UiKind::Switcher, r, now);
            &&& o.g.switcher_drag == (SwitcherDrag::OnCard { toplevel: t }) <==> r.deck
                == DeckHit::Card(t)
            &&& o.g.switcher_drag == SwitcherDrag::InEmpty <==> r.deck == DeckHit::Empty
            &&& o.steps.len() == 0 && o.g.pending_launch == g.pending_launch
        }),
{
}

/// On Home a press arms the launch of the icon that it hit, the pull down for the
/// search on the empty background only, and the drag of the bar on the bar only. It
/// launches nothing.
pub proof fn law_press_arms_what_it_hit(
    g: Gestures,
    ui: UiKind,
    r: PressReading,
    now: Nanos,
    app: AppRef,
)
    requires
        g.menu is None,
        g.arrange is None,
        g.pending_launch is None && g.icon_press is None && g.bg_press is None,
        !g.search_armed && !g.page_drag && !g.bar_drag,
    ensures
        ({
            let o = pressed(g, ui, r, now);
            let icons = ui == UiKind::Home || ui == UiKind::AppClosing || ui == UiKind::Settling(
                NavTarget::Home,
            );
            let hit = r.home == Hit::GridIcon(app) || r.home == Hit::DockIcon(app);
            &&& o.g.pending_launch == Some(app) <==> icons && hit
            &&& icons && hit ==> o.g.page_drag && o.g.icon_press is Some && (
            o.g.icon_press->0).app == app && (o.g.icon_press->0).at == now && ((
            o.g.icon_press->0).source == IconSource::Dock <==> r.home == Hit::DockIcon(app))
            &&& o.g.search_armed <==> ui == UiKind::Home && r.home == Hit::Miss
            &&& o.g.bg_press == (if ui == UiKind::Home && r.home == Hit::Miss {
                Some(now)
            } else {
                None
            })
            &&& o.g.bar_drag <==> ui == UiKind::Home && r.home == Hit::Bar
            &&& o.steps.contains(InputStep::TouchBar) <==> o.g.bar_drag
            &&& o.steps.contains(InputStep::Transition(UiEvent::GrabStart)) <==> ui == UiKind::App
                && r.on_bar
            &&& !o.steps.contains(InputStep::Launch(app))
        }),
{
    let o = pressed(g, ui, r, now);
    if ui == UiKind::Home && r.home == Hit::Bar {
        assert(o.steps[0] == InputStep::TouchBar);
    }
    if ui == UiKind::App && r.on_bar {
        assert(o.steps[0] == InputStep::Transition(UiEvent::GrabStart));
    }
}

/// Over the deck a release closes the card that was carried away exactly when it
/// went far enough, and lets it spring back exactly when it did not. It opens the
/// card that was tapped, leaves the deck on a tap beside the cards, and lets the
/// deck come to rest otherwise.
pub proof fn law_only_a_committed_flick_closes(
    g: Gestures,
    ui: UiKind,
    d: DeckReading,
    t: ToplevelId,
)
    ensures
        ({
            let o = rest_released(g, ui, d);
            let on_card = ui == UiKind::Switcher && g.switcher_drag is OnCard;
            let closes = on_card && d.closing == Some(t) && d.close_commits;
            let opens = on_card && d.closing is None && d.tapped && d.card == Some(t);
            &&& o.steps.contains(InputStep::CloseCard(t)) <==> closes
            &&& o.steps.contains(
                InputStep::Transition(UiEvent::SwitcherCloseCard { toplevel: t }),
            ) <==> closes
            &&& o.steps.contains(InputStep::CardSpringsBack) <==> on_card && d.closing is Some
                && !d.close_commits
            &&& o.steps.contains(InputStep::PushForeground(t)) <==> opens
            &&& o.steps.contains(
                InputStep::Transition(UiEvent::SwitcherTapCard { toplevel: t }),
            ) <==> opens
            &&& o.steps.contains(InputStep::SettleDeck) <==> on_card && d.closing is None
                && !d.tapped
            &&& o.steps.contains(InputStep::Transition(UiEvent::SwitcherDismiss)) <==> ui
                == UiKind::Switcher && g.switcher_drag == SwitcherDrag::InEmpty && d.tapped
            &&& o.steps.contains(InputStep::CommitPageSwipe) <==> g.page_drag && ui == UiKind::Home
            &&& on_card && d.closing is Some ==> o.stage == Stage::Done
            &&& ui == UiKind::Switcher ==> o.g.switcher_drag == SwitcherDrag::Idle
        }),
{
    let o = rest_released(g, ui, d);
    if ui == UiKind::Switcher {
        if g.switcher_drag is OnCard {
            if d.closing is Some {
                if d.close_commits {
                    assert(o.steps[0] == InputStep::Transition(
                        UiEvent::SwitcherCloseCard { toplevel: d.closing->0 },
                    ));
                    assert(o.steps[1] == InputStep::CloseCard(d.closing->0));
                } else {
                    assert(o.steps[0] == InputStep::CardSpringsBack);
                }
            } else if d.tapped {
                if d.card is Some {
                    assert(o.steps[0] == InputStep::PushForeground(d.card->0));
                    assert(o.steps[1] == InputStep::Transition(
                        UiEvent::SwitcherTapCard { toplevel: d.card->0 },
                    ));
                }
            } else {
                assert(o.steps[0] == InputStep::SettleDeck);
            }
        } else if g.switcher_drag == SwitcherDrag::InEmpty && d.tapped {
            assert(o.steps[0] == InputStep::Transition(UiEvent::SwitcherDismiss));
        }
    } else if ui == UiKind::Home && g.page_drag {
        assert(o.steps[0] == InputStep::CommitPageSwipe);
    }
}

/// A release runs the row of the menu that is armed and closes the menu then, and
/// only then.
pub proof fn law_armed_row_is_run(g: Gestures, ui: UiKind, r: ReleaseReading, i: usize)
    requires
        g.menu is Some,
    ensures
        ({
            let o = released(g, ui, r);
            let armed_row = (g.menu->0).pressed;
            &&& o.steps.contains(InputStep::RunMenuRow(i)) <==> armed_row == Some(i) && i < (
            g.menu->0).rows
            &&& o.g.menu is None <==> armed_row is Some && armed_row->0 < (g.menu->0).rows
        }),
{
    let o = released(g, ui, r);
    let armed_row = (g.menu->0).pressed;
    if armed_row is Some && armed_row->0 < (g.menu->0).rows {
        assert(o.steps[0] == InputStep::RunMenuRow(armed_row->0));
    }
}

/// Without a menu and outside arrange mode, a release launches exactly the icon
/// that was tapped. A drag of the bar leads to the deck, to the most recent window,
/// or, where there is none, nowhere with a bounce.
pub proof fn law_release_does_what_was_armed(
    g: Gestures,
    ui: UiKind,
    r: ReleaseReading,
    app: AppRef,
    t: ToplevelId,
)
    requires
        g.menu is None,
        g.arrange is None,
    ensures
        ({
            let o = released(g, ui, r);
            let slides = ui == UiKind::QuickSwitch;
            let bar = !slides && g.pending_launch is None && g.bar_drag;
            &&& o.steps.contains(InputStep::SettleQuickSwitch) <==> slides
            &&& o.steps.contains(InputStep::Launch(app)) <==> !slides && g.pending_launch == Some(
                app,
            )
            &&& o.steps.contains(InputStep::CancelPageDrag) <==> !slides && g.pending_launch is Some
            &&& o.steps.contains(InputStep::Transition(UiEvent::OpenSwitcherFromHome)) <==> bar
                && r.bar == BarRelease::OpenSwitcher && r.front is Some
            &&& o.steps.contains(InputStep::SlideToTop(t)) <==> bar && r.bar
                == BarRelease::SlideToTop && r.front == Some(t)
            &&& o.steps.contains(InputStep::Transition(UiEvent::HomeBounce)) <==> bar && r.bar
                != BarRelease::Nowhere && r.front is None
            &&& !slides && g.pending_launch is Some ==> o.g.bar_drag == g.bar_drag
            &&& slides || g.pending_launch is None ==> !o.g.bar_drag
            &&& o.stage == Stage::Done <==> slides || g.pending_launch is Some
        }),
{
    let o = released(g, ui, r);
    if ui == UiKind::QuickSwitch {
        assert(o.steps[0] == InputStep::SettleQuickSwitch);
    } else if g.pending_launch is Some {
        assert(o.steps[0] == InputStep::CancelPageDrag);
        assert(o.steps[1] == InputStep::Launch(g.pending_launch->0));
    } else if g.bar_drag && r.bar != BarRelease::Nowhere {
        if r.front is None {
            assert(o.steps[0] == InputStep::Transition(UiEvent::HomeBounce));
        } else if r.bar == BarRelease::OpenSwitcher {
            assert(o.steps[0] == InputStep::Transition(UiEvent::OpenSwitcherFromHome));
        } else {
            assert(o.steps[0] == InputStep::SlideToTop(r.front->0));
        }
    }
}

/// An icon that is let go over the dock is pinned, unless it came from there: then
/// it slides back. Anywhere else it takes the slot that it was seen to find, or the
/// nearest one that the page has.
pub proof fn law_dropped_icon_lands_where_it_was_held(
    g: Gestures,
    ui: UiKind,
    r: ReleaseReading,
    app: AppRef,
)
    requires
        g.menu is None,
        ui != UiKind::QuickSwitch,
        carries_icon(g),
        !(g.arrange->0).just_engaged,
    ensures
        ({
            let d = (g.arrange->0).drag->0;
            let o = released(g, ui, r);
            &&& o.g.arrange is Some && (o.g.arrange->0).drag is None
            &&& o.steps.contains(InputStep::Pin(app)) <==> r.over_dock && d.source
                != IconSource::Dock && d.app == app
            &&& o.steps.contains(InputStep::Repack) <==> r.over_dock && d.source == IconSource::Dock
            &&& o.steps.contains(InputStep::AfterArrangeEdit) <==> !r.over_dock
            &&& !r.over_dock ==> ({
                let m = o.steps[0];
                &&& m is MoveTo && m->MoveTo_app == d.app && m->page == r.page
                &&& d.hover matches Some((_, i)) ==> m->index == i
                &&& d.hover is None ==> m->index <= r.nearest && m->index <= r.page_len && (m->index
                    == r.nearest || m->index == r.page_len)
            })
        }),
{
    let d = (g.arrange->0).drag->0;
    let o = released(g, ui, r);
    if !r.over_dock {
        assert(o.steps[1] == InputStep::AfterArrangeEdit);
    } else if d.source == IconSource::Dock {
        assert(o.steps[0] == InputStep::Repack);
    } else {
        assert(o.steps[0] == InputStep::Pin(d.app));
    }
}

/// With no icon in the air a release in arrange mode flips a page that was swiped,
/// and leaves the mode otherwise.
pub proof fn law_tap_leaves_arrange_mode(g: Gestures, ui: UiKind, r: ReleaseReading)
    requires
        g.menu is None,
        ui != UiKind::QuickSwitch,
        g.arrange is Some,
        !carries_icon(g),
        !(g.arrange->0).just_engaged,
    ensures
        ({
            let o = released(g, ui, r);
            let swipes = g.page_drag && r.swiped;
            &&& o.steps.contains(InputStep::CommitPageSwipe) <==> swipes
            &&& o.g.arrange is None <==> !swipes
            &&& !o.g.page_drag
        }),
{
    let o = released(g, ui, r);
    if g.page_drag && r.swiped {
        assert(o.steps[0] == InputStep::CommitPageSwipe);
    }
}

/// A pin that the dock took is kept, and one that it refused slides back.
pub proof fn law_refused_pin_slides_back(pinned: bool, r: InputStep)
    requires
        call_ensures(after_pin, (pinned,), r),
    ensures
        r == InputStep::AfterArrangeEdit <==> pinned,
        r == InputStep::Repack <==> !pinned,
{
}

/// A grab becomes a slide exactly when it goes sideways, and a slide that is under
/// way is given up for a grab exactly when the finger rises. Otherwise it follows
/// the finger, until it settles.
pub proof fn law_grab_and_slide_cross(
    ui: UiKind,
    sideways: bool,
    lifted_up: bool,
    releasing: bool,
    out: Vec<InputStep>,
)
    requires
        call_ensures(cross_gestures, (ui, sideways, lifted_up, releasing), out),
    ensures
        ({
            let enters = ui == UiKind::Grabbing && sideways;
            let slides = enters || ui == UiKind::QuickSwitch;
            &&& out@.contains(InputStep::EnterQuickSwitch) <==> enters
            &&& out@.contains(InputStep::RevertQuickSwitch) <==> slides && lifted_up
            &&& out@.contains(InputStep::UpdateQuickSwitch) <==> slides && !lifted_up && !releasing
            &&& enters ==> out@[0] == InputStep::EnterQuickSwitch
        }),
{
    let enters = ui == UiKind::Grabbing && sideways;
    let k = if enters {
        1int
    } else {
        0int
    };
    if enters {
        assert(out@[0] == InputStep::EnterQuickSwitch);
    }
    if enters || ui == UiKind::QuickSwitch {
        if lifted_up {
            assert(out@[k] == InputStep::RevertQuickSwitch);
        } else if !releasing {
            assert(out@[k] == InputStep::UpdateQuickSwitch);
        }
    }
}

/// A quick swipe raises a window that is there, the neighbour if that one is, and
/// reorders nothing. Any other grab is let go to where it leads, and leaves the
/// walk where it was.
pub proof fn law_quick_swipe_raises_a_neighbour(
    target: NavTarget,
    history: &mut AppHistory,
    alive: &Vec<bool>,
    current: ToplevelId,
    out: Vec<InputStep>,
    t: ToplevelId,
)
    requires
        old(history).wf(),
        call_ensures(release_grab, (UiKind::Grabbing, target, history, alive, current), out),
    ensures
        final(history).stack@ == old(history).stack@,
        out@.contains(InputStep::Transition(UiEvent::GrabRelease)) <==> !(target is QuickSwitch),
        !(target is QuickSwitch) ==> final(history).cursor == old(history).cursor,
        target is QuickSwitch && out@.contains(
            InputStep::Transition(UiEvent::RaiseApp { toplevel: t }),
        ) ==> t == current || (t < alive@.len() && alive@[t as int]),
        target matches NavTarget::QuickSwitch(dir) ==> ({
            let at = old(history).cursor + (if dir > 0 {
                1int
            } else {
                -1int
            });
            let reaches = dir != 0 && 0 <= at < old(history).stack@.len();
            &&& final(history).cursor == (if reaches {
                at
            } else {
                old(history).cursor as int
            })
            &&& reaches && old(history).stack@[at] < alive@.len() && alive@[old(history).stack@[at] as int] ==> out@[0] == InputStep::Transition(
                UiEvent::RaiseApp { toplevel: old(history).stack@[at] },
            )
        }),
{
    if target is QuickSwitch {
    } else {
        assert(out@[0] == InputStep::Transition(UiEvent::GrabRelease));
    }
}

/// A slide that goes back chooses no app. One that is carried through to the right
/// chooses the older neighbour, to the left the more recent one.
pub proof fn law_slide_ends_where_it_was_carried(
    history: &mut AppHistory,
    prev: Option<ToplevelId>,
    next: Option<ToplevelId>,
    verdict: QuickRelease,
    commit: Option<ToplevelId>,
)
    requires
        old(history).wf(),
        call_ensures(settle_quick_switch, (history, prev, next, verdict), commit),
    ensures
        verdict == QuickRelease::Reject ==> commit is None && final(history).cursor == old(history).cursor,
        verdict matches QuickRelease::Commit { dir } ==> (dir > 0 ==> commit == prev && final(history).cursor >= old(history).cursor) && (dir < 0 ==> commit == next && final(history).cursor
            <= old(history).cursor),
        final(history).stack@ == old(history).stack@,
{
}

/// The neighbours of a slide are windows that are there: the one behind the current
/// one in the history to the right, the one before it to the left.
pub proof fn law_neighbours_are_next_in_the_history(
    history: &AppHistory,
    alive: &Vec<bool>,
    r: (Option<ToplevelId>, Option<ToplevelId>),
)
    requires
        history.wf(),
        call_ensures(neighbours, (history, alive), r),
    ensures
        r.0 matches Some(t) ==> history.cursor + 1 < history.stack@.len() && t
            == history.stack@[history.cursor + 1],
        r.1 matches Some(t) ==> history.cursor >= 1 && t == history.stack@[history.cursor - 1],
        r.0 matches Some(t) ==> t < alive@.len() && alive@[t as int],
        r.1 matches Some(t) ==> t < alive@.len() && alive@[t as int],
        history.cursor + 1 < history.stack@.len() && history.stack@[history.cursor + 1]
            < alive@.len() && alive@[history.stack@[history.cursor + 1] as int] ==> r.0 is Some,
        history.cursor >= 1 && history.stack@.len() > history.cursor && history.stack@[history.cursor
            - 1] < alive@.len() && alive@[history.stack@[history.cursor - 1] as int] ==> r.1 is Some,
{
}

/// Back on Home, and only there, the number of pages is told: one more than the
/// icons fill, and two at least.
pub proof fn law_home_is_told_its_pages(ui: UiKind, pages: usize, out: Vec<InputStep>)
    requires
        pages < usize::MAX,
        call_ensures(refresh_page_count, (ui, pages), out),
    ensures
        out@.len() == 0 <==> ui != UiKind::Home,
        ui == UiKind::Home ==> out@.len() == 1 && out@[0] is PageCount && out@[0]->PageCount_0 >= 2
            && (pages > 0 ==> out@[0]->PageCount_0 == pages + 1),
{
}

/// A finger that is down and moves opens the search where it pulls down on Home
/// with the search armed, drags the page, the deck, the card, the icon or the
/// window that it holds, and gives up what it leaves. With the finger up a
/// movement does nothing.
pub proof fn law_moving_finger_does_what_it_holds(
    g: &mut Gestures,
    ui: UiKind,
    r: &MotionReading,
    now: Nanos,
    res: (Stage, Vec<InputStep>),
    t: ToplevelId,
)
    requires
        call_ensures(on_motion, (g, ui, r, now), res),
    ensures
        final(g).positioned,
        !old(g).pointer_down ==> res.0 == Stage::Done && res.1@.len() == 0 && final(g).arrange
            == old(g).arrange && final(g).pending_launch == old(g).pending_launch,
        old(g).pointer_down ==> ({
            let s = res.1@;
            let free = !moves_something_else(*old(g), ui);
            let searches = free && ui == UiKind::Home && old(g).search_armed && r.pulls_down;
            let holds_card = old(g).menu is None && !carries_icon(*old(g)) && ui == UiKind::Switcher
                && old(g).switcher_drag is OnCard;
            &&& s.contains(InputStep::OpenSearch) <==> searches
            &&& s.contains(InputStep::TrackPage) <==> free && !searches && old(g).page_drag
            &&& s.contains(InputStep::FollowPage) <==> free && !searches && old(g).page_drag && ui
                == UiKind::Home
            &&& s.contains(InputStep::RideCard(t)) <==> holds_card && r.card_drag == CardDrag::Close && old(g).switcher_drag->toplevel == t
            &&& s.contains(InputStep::ScrollDeck) <==> holds_card && r.card_drag == CardDrag::Scroll
            &&& s.contains(InputStep::FollowIcon) <==> old(g).menu is None && carries_icon(*old(g))
            &&& s.contains(InputStep::Transition(UiEvent::GrabMove)) <==> old(g).menu is None
                && !carries_icon(*old(g)) && ui == UiKind::Grabbing
            &&& free && r.left_icon ==> final(g).pending_launch is None
            &&& free && !r.left_icon ==> final(g).pending_launch == old(g).pending_launch
            &&& free && r.left_background ==> final(g).bg_press is None
            &&& free && !r.left_background ==> final(g).bg_press == old(g).bg_press
            &&& old(g).menu is Some && (old(g).menu->0).pressed is Some ==> final(g).menu is Some && (final(g).menu->0).pressed == r.menu_row
        }),
{
    if old(g).pointer_down {
        let g0 = Gestures { positioned: true, ..*old(g) };
        law_pull_down_opens_the_search(g0, ui, *r, now);
        law_what_is_held_follows(g0, ui, *r, now, t);
        if !moves_something_else(g0, ui) {
            law_only_leaving_disarms(g0, ui, *r, now);
        }
        if g0.menu is Some {
            law_menu_row_follows_the_finger(g0, ui, *r, now);
        }
        assert(res.1@ =~= moved(g0, ui, *r, now).steps);
    }
}

/// An icon in the air hovers where the finger was read to be nearest.
pub proof fn law_moving_finger_carries_the_icon(
    g: &mut Gestures,
    ui: UiKind,
    r: &MotionReading,
    now: Nanos,
    res: (Stage, Vec<InputStep>),
)
    requires
        call_ensures(on_motion, (g, ui, r, now), res),
        old(g).pointer_down,
        old(g).menu is None,
        carries_icon(*old(g)),
    ensures
        carries_icon(*final(g)),
        ({
            let was = (old(g).arrange->0).drag->0;
            let now_at = (final(g).arrange->0).drag->0;
            &&& now_at.app == was.app && now_at.source == was.source
            &&& now_at.hover is None <==> r.over_dock
            &&& now_at.hover matches Some((page, i)) ==> page == r.page && i <= r.live_len && i <= r.nearest
                && (i == r.nearest || i == r.live_len)
        }),
{
    let g0 = Gestures { positioned: true, ..*old(g) };
    law_icon_in_the_air_finds_the_nearest_slot(g0, ui, *r, now);
}

/// A press with nothing armed arms what it hit, opens nothing by itself, and has
/// a menu to itself while one is open. Without a known position it does nothing.
pub proof fn law_press_arms_and_launches_nothing(
    g: &mut Gestures,
    ui: UiKind,
    r: &PressReading,
    now: Nanos,
    out: Vec<InputStep>,
    app: AppRef,
    i: usize,
)
    requires
        call_ensures(on_press, (g, ui, r, now), out),
    ensures
        !old(g).positioned ==> *final(g) == *old(g) && out@.len() == 0,
        old(g).positioned ==> final(g).pointer_down && final(g).last_motion == Some(now),
        old(g).positioned && old(g).menu is Some ==> ({
            let m = final(g).menu;
            &&& m is None <==> r.menu == MenuHit::Outside
            &&& m is Some && (m->0).pressed == Some(i) <==> r.menu == MenuHit::Row(i)
        }),
        old(g).positioned && old(g).menu is None && old(g).arrange is Some ==> ({
            &&& out@.contains(InputStep::HideApp(app)) <==> r.arrange == Hit::RemoveBadge(app)
            &&& final(g).arrange is None <==> r.arrange == Hit::DoneButton || r.arrange == Hit::Bar
            &&& r.arrange == Hit::GridIcon(app) ==> carries_icon(*final(g)) && ((
            final(g).arrange->0).drag->0).app == app && ((final(g).arrange->0).drag->0).source
                == IconSource::Grid
            &&& r.arrange == Hit::DockIcon(app) ==> carries_icon(*final(g)) && ((
            final(g).arrange->0).drag->0).app == app && ((final(g).arrange->0).drag->0).source
                == IconSource::Dock
        }),
        old(g).positioned && old(g).menu is None && old(g).arrange is None && old(g).pending_launch is None
            && old(g).icon_press is None && old(g).bg_press is None && !old(g).search_armed
            && !old(g).page_drag && !old(g).bar_drag ==> ({
            let icons = ui == UiKind::Home || ui == UiKind::AppClosing || ui == UiKind::Settling(
                NavTarget::Home,
            );
            let hit = r.home == Hit::GridIcon(app) || r.home == Hit::DockIcon(app);
            &&& final(g).pending_launch == Some(app) <==> icons && hit
            &&& final(g).search_armed <==> ui == UiKind::Home && r.home == Hit::Miss
            &&& final(g).bar_drag <==> ui == UiKind::Home && r.home == Hit::Bar
            &&& out@.contains(InputStep::Transition(UiEvent::GrabStart)) <==> ui == UiKind::App && r.on_bar
            &&& !out@.contains(InputStep::Launch(app))
        }),
{
    if old(g).positioned {
        let g0 = Gestures { pointer_down: true, last_motion: Some(now), ..*old(g) };
        if g0.menu is Some {
            law_press_outside_closes_the_menu(g0, ui, *r, now, i);
        } else if g0.arrange is Some {
            law_press_in_arrange_mode(g0, ui, *r, now, app);
        } else if g0.pending_launch is None && g0.icon_press is None && g0.bg_press is None
            && !g0.search_armed && !g0.page_drag && !g0.bar_drag {
            law_press_arms_what_it_hit(g0, ui, *r, now, app);
        }
    }
}

/// Over the deck a press takes hold of the card that it hit.
pub proof fn law_press_takes_hold_of_a_card(
    g: &mut Gestures,
    r: &PressReading,
    now: Nanos,
    out: Vec<InputStep>,
    t: ToplevelId,
)
    requires
        call_ensures(on_press, (g, UiKind::Switcher, r, now), out),
        old(g).positioned,
        old(g).menu is None,
        old(g).arrange is None,
        old(g).switcher_drag == SwitcherDrag::Idle,
    ensures
        final(g).switcher_drag == (SwitcherDrag::OnCard { toplevel: t }) <==> r.deck == DeckHit::Card(t),
        final(g).switcher_drag == SwitcherDrag::InEmpty <==> r.deck == DeckHit::Empty,
        out@.len() == 0,
{
    let g0 = Gestures { pointer_down: true, last_motion: Some(now), ..*old(g) };
    law_press_takes_the_card_it_hit(g0, *r, now, t);
}

/// A finger that comes up runs the row that is armed in a menu; without a menu and
/// outside arrange mode it launches the icon that was tapped, settles a slide, or
/// leads where the bar was dragged.
pub proof fn law_lifted_finger_does_what_was_armed(
    g: &mut Gestures,
    ui: UiKind,
    r: &ReleaseReading,
    res: (Stage, Vec<InputStep>),
    app: AppRef,
    t: ToplevelId,
    i: usize,
)
    requires
        call_ensures(on_release, (g, ui, r), res),
    ensures
        !old(g).positioned ==> *final(g) == *old(g) && res.1@.len() == 0,
        old(g).positioned ==> !final(g).pointer_down && !final(g).search_armed && final(g).bg_press is None,
        old(g).positioned && old(g).menu is Some ==> ({
            let armed_row = (old(g).menu->0).pressed;
            &&& res.1@.contains(InputStep::RunMenuRow(i)) <==> armed_row == Some(i) && i < (
            old(g).menu->0).rows
            &&& final(g).menu is None <==> armed_row is Some && armed_row->0 < (old(g).menu->0).rows
        }),
        old(g).positioned && old(g).menu is None && old(g).arrange is None ==> ({
            let s = res.1@;
            let slides = ui == UiKind::QuickSwitch;
            let bar = !slides && old(g).pending_launch is None && old(g).bar_drag;
            &&& s.contains(InputStep::SettleQuickSwitch) <==> slides
            &&& s.contains(InputStep::Launch(app)) <==> !slides && old(g).pending_launch == Some(app)
            &&& s.contains(InputStep::Transition(UiEvent::OpenSwitcherFromHome)) <==> bar && r.bar
                == BarRelease::OpenSwitcher && r.front is Some
            &&& s.contains(InputStep::SlideToTop(t)) <==> bar && r.bar == BarRelease::SlideToTop && r.front
                == Some(t)
            &&& s.contains(InputStep::Transition(UiEvent::HomeBounce)) <==> bar && r.bar
                != BarRelease::Nowhere && r.front is None
            &&& res.0 == Stage::Done <==> slides || old(g).pending_launch is Some
        }),
{
    if old(g).positioned {
        let g0 = lifted_off(*old(g));
        if g0.menu is Some {
            law_armed_row_is_run(g0, ui, *r, i);
        } else if g0.arrange is None {
            law_release_does_what_was_armed(g0, ui, *r, app, t);
        }
        assert(res.1@ =~= released(g0, ui, *r).steps);
    }
}

/// In arrange mode a finger that comes up drops the icon that it carried, and
/// otherwise flips a page that was swiped or leaves the mode. The finger that
/// engaged the mode changes nothing.
pub proof fn law_lifted_finger_drops_the_icon(
    g: &mut Gestures,
    ui: UiKind,
    r: &ReleaseReading,
    res: (Stage, Vec<InputStep>),
    app: AppRef,
)
    requires
        call_ensures(on_release, (g, ui, r), res),
        old(g).positioned,
        old(g).menu is None,
        ui != UiKind::QuickSwitch,
        old(g).arrange is Some,
    ensures
        (old(g).arrange->0).just_engaged ==> res.1@.len() == 0 && final(g).arrange is Some,
        !(old(g).arrange->0).just_engaged && carries_icon(*old(g)) ==> ({
            let d = (old(g).arrange->0).drag->0;
            let s = res.1@;
            &&& final(g).arrange is Some && !carries_icon(*final(g))
            &&& s.contains(InputStep::Pin(app)) <==> r.over_dock && d.source != IconSource::Dock && d.app
                == app
            &&& s.contains(InputStep::Repack) <==> r.over_dock && d.source == IconSource::Dock
            &&& !r.over_dock ==> s[0] is MoveTo && s[0]->MoveTo_app == d.app && s[0]->page == r.page
            &&& !r.over_dock ==> (d.hover matches Some((_, i)) ==> s[0]->index == i)
        }),
        !(old(g).arrange->0).just_engaged && !carries_icon(*old(g)) ==> ({
            let swipes = old(g).page_drag && r.swiped;
            &&& res.1@.contains(InputStep::CommitPageSwipe) <==> swipes
            &&& final(g).arrange is None <==> !swipes
        }),
{
    let g0 = lifted_off(*old(g));
    if (g0.arrange->0).just_engaged {
        law_engaging_release_is_inert(g0, ui, *r);
    } else if carries_icon(g0) {
        law_dropped_icon_lands_where_it_was_held(g0, ui, *r, app);
    } else {
        law_tap_leaves_arrange_mode(g0, ui, *r);
    }
    assert(res.1@ =~= released(g0, ui, *r).steps);
}

/// Over the deck a card that was flicked away far enough is closed, one that was
/// not springs back, and one that was tapped is opened; a page that was dragged on
/// Home is flipped or not by its swipe.
pub proof fn law_released_card_closes_only_if_committed(
    g: &mut Gestures,
    ui: UiKind,
    d: &DeckReading,
    res: (Stage, Vec<InputStep>),
    t: ToplevelId,
)
    requires
        call_ensures(release_rest, (g, ui, d), res),
    ensures
        ({
            let s = res.1@;
            let on_card = ui == UiKind::Switcher && old(g).switcher_drag is OnCard;
            let closes = on_card && d.closing == Some(t) && d.close_commits;
            let opens = on_card && d.closing is None && d.tapped && d.card == Some(t);
            &&& s.contains(InputStep::CloseCard(t)) <==> closes
            &&& s.contains(
                InputStep::Transition(UiEvent::SwitcherCloseCard { toplevel: t }),
            ) <==> closes
            &&& s.contains(InputStep::CardSpringsBack) <==> on_card && d.closing is Some
                && !d.close_commits
            &&& s.contains(InputStep::PushForeground(t)) <==> opens
            &&& s.contains(
                InputStep::Transition(UiEvent::SwitcherTapCard { toplevel: t }),
            ) <==> opens
            &&& s.contains(InputStep::SettleDeck) <==> on_card && d.closing is None && !d.tapped
            &&& s.contains(InputStep::Transition(UiEvent::SwitcherDismiss)) <==> ui == UiKind::Switcher
                && old(g).switcher_drag == SwitcherDrag::InEmpty && d.tapped
            &&& s.contains(InputStep::CommitPageSwipe) <==> old(g).page_drag && ui == UiKind::Home
            &&& ui == UiKind::Switcher ==> final(g).switcher_drag == SwitcherDrag::Idle
            &&& !final(g).page_drag
        }),
{
    law_only_a_committed_flick_closes(*old(g), ui, *d, t);
    assert(res.1@ =~= rest_released(*old(g), ui, *d).steps);
}

/// A movement took the time since the one before it, a millisecond at least; the
/// first of a gesture took a ninetieth of a second.
pub proof fn law_movement_took_the_time_since_the_last(
    last_motion: &mut Option<Nanos>,
    now: Nanos,
    r: MotionTime,
    before: Nanos,
)
    requires
        call_ensures(motion_dt, (last_motion, now), r),
        now >= before,
    ensures
        *final(last_motion) == Some(now),
        *old(last_motion) is None ==> r.parts * 90 == r.per_second,
        *old(last_motion) == Some(before) ==> r.per_second == 1_000_000_000 && r.parts == (if now - before
            >= 1_000_000 {
            now - before
        } else {
            1_000_000
        }),
{
}

} // verus!
