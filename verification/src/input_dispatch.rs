//! What a press means, given what the shell shows and what was hit.
use vstd::prelude::*;

use crate::ui_state::{AppRef, NavTarget, UiEvent, UiKind};

verus! {

/// Where an icon in the air came from.
#[derive(Clone, Copy, Debug, PartialEq, Eq, Structural)]
pub enum IconSource {
    Grid,
    Dock,
    Library,
}

/// What dropping an icon means.
#[derive(Clone, Copy, Debug, PartialEq, Eq, Structural)]
pub enum DropAction {
    Pin,
    Reorder {
        page: usize,
        index: usize,
    },
    SnapBack,
}

/// What dropping an icon means. On the dock an icon is pinned, unless it came
/// from there; anywhere else it takes the slot `nearest`, or the first free one
/// of the page when that slot lies beyond it.
pub open spec fn drop_of(
    source: IconSource,
    over_dock: bool,
    page: usize,
    nearest: usize,
    page_len: usize,
) -> DropAction {
    if over_dock {
        match source {
            IconSource::Grid => DropAction::Pin,
            IconSource::Library => DropAction::Pin,
            IconSource::Dock => DropAction::SnapBack,
        }
    } else {
        DropAction::Reorder {
            page,
            index: if nearest <= page_len {
                nearest
            } else {
                page_len
            },
        }
    }
}

/// What dropping an icon means. `nearest` is the slot nearest to the finger, and
/// `page_len` how many icons the page holds.
pub fn resolve_drop(
    source: IconSource,
    over_dock: bool,
    page: usize,
    nearest: usize,
    page_len: usize,
) -> (r: DropAction)
    ensures
        r == drop_of(source, over_dock, page, nearest, page_len),
{
    if over_dock {
        match source {
            IconSource::Grid => DropAction::Pin,
            IconSource::Library => DropAction::Pin,
            IconSource::Dock => DropAction::SnapBack,
        }
    } else {
        DropAction::Reorder {
            page,
            index: if nearest <= page_len {
                nearest
            } else {
                page_len
            },
        }
    }
}

/// What a press hit on the home screen.
#[derive(Clone, Copy, Debug, PartialEq, Eq, Structural)]
pub enum Hit {
    GridIcon(AppRef),
    DockIcon(AppRef),
    Bar,
    Miss,
    RemoveBadge(AppRef),
    DoneButton,
}

/// What a press starts.
#[derive(Clone, Copy, Debug, PartialEq, Eq, Structural)]
pub enum DownAction {
    Event(UiEvent),
    /// A finger on an icon: a launch, unless it turns into a swipe.
    PressIcon {
        app: AppRef,
        source: IconSource,
    },
    StartPageDrag,
    StartBarDrag,
    /// Nothing.
    Ignore,
}

/// What a press on the home screen starts.
pub open spec fn home_action(hit: Hit) -> DownAction {
    match hit {
        Hit::GridIcon(app) => DownAction::PressIcon { app, source: IconSource::Grid },
        Hit::DockIcon(app) => DownAction::PressIcon { app, source: IconSource::Dock },
        Hit::Bar => DownAction::StartBarDrag,
        Hit::Miss => DownAction::StartPageDrag,
        Hit::RemoveBadge(_) => DownAction::Ignore,
        Hit::DoneButton => DownAction::Ignore,
    }
}

/// What a press on the home screen starts.
pub fn home_press(hit: Hit) -> (r: DownAction)
    ensures
        r == home_action(hit),
{
    match hit {
        Hit::GridIcon(app) => DownAction::PressIcon { app, source: IconSource::Grid },
        Hit::DockIcon(app) => DownAction::PressIcon { app, source: IconSource::Dock },
        Hit::Bar => DownAction::StartBarDrag,
        Hit::Miss => DownAction::StartPageDrag,
        Hit::RemoveBadge(_) => DownAction::Ignore,
        Hit::DoneButton => DownAction::Ignore,
    }
}

/// What a press starts on a window that is on its way to Home. Home is on screen
/// behind it, so its icons are live; anything else takes hold of the window.
pub open spec fn press_behind(hit: Hit) -> DownAction {
    match home_action(hit) {
        DownAction::PressIcon { app, source } => DownAction::PressIcon { app, source },
        _ => DownAction::Event(UiEvent::Interrupt),
    }
}

/// What a press starts. `hit` is what was hit of the home screen, and `on_bar`
/// whether the bar was.
pub open spec fn action_of(ui: UiKind, hit: Hit, on_bar: bool) -> DownAction {
    match ui {
        UiKind::Home => home_action(hit),
        UiKind::App => if on_bar {
            DownAction::Event(UiEvent::GrabStart)
        } else {
            DownAction::Ignore
        },
        UiKind::AppClosing => press_behind(hit),
        UiKind::Settling(NavTarget::Home) => press_behind(hit),
        UiKind::Settling(_) => DownAction::Event(UiEvent::Interrupt),
        UiKind::AppOpening => DownAction::Event(UiEvent::Interrupt),
        UiKind::Grabbing => DownAction::Ignore,
        UiKind::Switcher => DownAction::Ignore,
        UiKind::QuickSwitch => DownAction::Ignore,
    }
}

fn over_leaving_window(hit: Hit) -> (r: DownAction)
    ensures
        r == press_behind(hit),
{
    match home_press(hit) {
        DownAction::PressIcon { app, source } => DownAction::PressIcon { app, source },
        _ => DownAction::Event(UiEvent::Interrupt),
    }
}

/// What a press starts.
pub fn on_press(ui: UiKind, hit: Hit, on_bar: bool) -> (r: DownAction)
    ensures
        r == action_of(ui, hit, on_bar),
{
    match ui {
        UiKind::Home => home_press(hit),
        UiKind::App => {
            if on_bar {
                DownAction::Event(UiEvent::GrabStart)
            } else {
                DownAction::Ignore
            }
        },
        UiKind::AppClosing => over_leaving_window(hit),
        UiKind::Settling(NavTarget::Home) => over_leaving_window(hit),
        UiKind::Settling(_) => DownAction::Event(UiEvent::Interrupt),
        UiKind::AppOpening => DownAction::Event(UiEvent::Interrupt),
        UiKind::Grabbing => DownAction::Ignore,
        UiKind::Switcher => DownAction::Ignore,
        UiKind::QuickSwitch => DownAction::Ignore,
    }
}

/// What a movement of the finger does by itself: it moves a window that is
/// grabbed.
pub fn on_move(ui: UiKind) -> (r: Option<UiEvent>)
    ensures
        r == (if ui == UiKind::Grabbing {
            Some(UiEvent::GrabMove)
        } else {
            None
        }),
{
    match ui {
        UiKind::Grabbing => Some(UiEvent::GrabMove),
        _ => None,
    }
}

/// A press never launches by itself: it arms what the release decides.
pub proof fn law_press_on_an_icon_only_arms(ui: UiKind, app: AppRef, on_bar: bool)
    requires
        ui == UiKind::Home || ui == UiKind::AppClosing || ui == UiKind::Settling(NavTarget::Home),
    ensures
        action_of(ui, Hit::GridIcon(app), on_bar) == (DownAction::PressIcon {
            app,
            source: IconSource::Grid,
        }),
        action_of(ui, Hit::DockIcon(app), on_bar) == (DownAction::PressIcon {
            app,
            source: IconSource::Dock,
        }),
{
}

/// A window that moves, other than to Home, is taken hold of wherever the finger
/// comes down.
pub proof fn law_press_interrupts_a_moving_window(ui: UiKind, hit: Hit, on_bar: bool)
    requires
        ui == UiKind::AppOpening || (ui is Settling && ui != UiKind::Settling(NavTarget::Home)),
    ensures
        action_of(ui, hit, on_bar) == DownAction::Event(UiEvent::Interrupt),
{
}

/// An icon that is dropped on the dock is pinned, unless it came from the dock:
/// then it goes back. Dropped anywhere else it joins the page, at the slot
/// nearest to the finger as far as the page reaches.
pub proof fn law_dock_takes_icons_from_elsewhere(
    source: IconSource,
    over_dock: bool,
    page: usize,
    nearest: usize,
    page_len: usize,
    r: DropAction,
)
    requires
        call_ensures(resolve_drop, (source, over_dock, page, nearest, page_len), r),
    ensures
        r == DropAction::Pin <==> over_dock && source != IconSource::Dock,
        r == DropAction::SnapBack <==> over_dock && source == IconSource::Dock,
        !over_dock ==> r is Reorder && r->page == page && r->index <= page_len && r->index <= nearest && (
        r->index == page_len || r->index == nearest),
{
}

/// A press on an icon of the home screen arms that icon, with where it lies; the
/// bar is dragged, the empty page is paged, and what belongs to arrange mode is
/// nothing here.
pub proof fn law_home_press_starts_what_it_hit(hit: Hit, r: DownAction, app: AppRef)
    requires
        call_ensures(home_press, (hit,), r),
    ensures
        r == (DownAction::PressIcon { app, source: IconSource::Grid }) <==> hit == Hit::GridIcon(app),
        r == (DownAction::PressIcon { app, source: IconSource::Dock }) <==> hit == Hit::DockIcon(app),
        r == DownAction::StartBarDrag <==> hit == Hit::Bar,
        r == DownAction::StartPageDrag <==> hit == Hit::Miss,
        r == DownAction::Ignore <==> hit is RemoveBadge || hit == Hit::DoneButton,
        !(r is Event),
{
}

/// In an app only the bar takes the finger: it grabs the window. A grabbed
/// window, the deck and a slide have their own handling.
pub proof fn law_app_is_grabbed_by_its_bar(ui: UiKind, hit: Hit, on_bar: bool, r: DownAction)
    requires
        call_ensures(on_press, (ui, hit, on_bar), r),
    ensures
        r == DownAction::Event(UiEvent::GrabStart) <==> ui == UiKind::App && on_bar,
        ui == UiKind::App && !on_bar ==> r == DownAction::Ignore,
        ui == UiKind::Grabbing || ui == UiKind::Switcher || ui == UiKind::QuickSwitch ==> r
            == DownAction::Ignore,
        r == DownAction::StartPageDrag <==> ui == UiKind::Home && hit == Hit::Miss,
        r == DownAction::StartBarDrag <==> ui == UiKind::Home && hit == Hit::Bar,
{
}

/// A window on its way is taken hold of by a press, unless it leaves for the home
/// screen and the press hits an icon there: then that icon is armed.
pub proof fn law_moving_window_is_taken_hold_of(ui: UiKind, hit: Hit, on_bar: bool, r: DownAction)
    requires
        call_ensures(on_press, (ui, hit, on_bar), r),
    ensures
        ({
            let leaving = ui == UiKind::AppClosing || ui == UiKind::Settling(NavTarget::Home);
            let moving = leaving || ui is Settling || ui == UiKind::AppOpening;
            let icon = hit is GridIcon || hit is DockIcon;
            &&& r == DownAction::Event(UiEvent::Interrupt) <==> moving && !(leaving && icon)
            &&& r is PressIcon <==> icon && (leaving || ui == UiKind::Home)
            &&& r is PressIcon && hit is GridIcon ==> r->app == hit->GridIcon_0 && r->source
                == IconSource::Grid
            &&& r is PressIcon && hit is DockIcon ==> r->app == hit->DockIcon_0 && r->source
                == IconSource::Dock
        }),
{
}

/// A finger that moves drags a grabbed window, and nothing else.
pub proof fn law_finger_drags_a_grabbed_window(ui: UiKind, r: Option<UiEvent>)
    requires
        call_ensures(on_move, (ui,), r),
    ensures
        r is Some <==> ui == UiKind::Grabbing,
        r is Some ==> r == Some(UiEvent::GrabMove),
{
}

} // verus!
