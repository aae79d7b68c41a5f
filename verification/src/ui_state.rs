//! What the shell shows, as far as its decisions go by it.
use vstd::prelude::*;

use crate::app_history::ToplevelId;
use crate::debug_input::Coord;

verus! {

/// An app of the catalog, by its number.
pub type AppRef = u64;

/// A place on the screen. Each coordinate is a single-precision number and is
/// carried as its bit pattern.
#[derive(Clone, Copy, Debug, PartialEq, Eq, Structural)]
pub struct Point {
    pub x: Coord,
    pub y: Coord,
}

/// Where a grab of the bar leads to.
#[derive(Clone, Copy, Debug, PartialEq, Eq, Structural)]
pub enum NavTarget {
    Home,
    Switcher,
    BackToApp,
    /// The app so many steps away.
    QuickSwitch(i32),
}

/// What the shell shows.
#[derive(Clone, Copy, Debug, PartialEq, Eq, Structural)]
pub enum UiKind {
    Home,
    App,
    AppOpening,
    AppClosing,
    /// A window on its way to where the gesture that ended leads.
    Settling(NavTarget),
    /// A window under the finger.
    Grabbing,
    /// The deck of cards.
    Switcher,
    /// An app that slides aside for the next one.
    QuickSwitch,
}

/// What happens to what the shell shows.
#[derive(Clone, Copy, Debug, PartialEq, Eq, Structural)]
pub enum UiEvent {
    /// A finger took hold of the bar.
    GrabStart,
    GrabMove,
    GrabRelease,
    /// A finger came down on a window that is moving.
    Interrupt,
    /// There is nowhere to go: Home gives way and comes back.
    HomeBounce,
    OpenSwitcherFromHome,
    OpenSwitcherFromApp,
    SwitcherStep {
        delta: i32,
    },
    SwitcherTapCard {
        toplevel: ToplevelId,
    },
    SwitcherCloseCard {
        toplevel: ToplevelId,
    },
    SwitcherDismiss,
    RaiseApp {
        toplevel: ToplevelId,
    },
    ToplevelClosed {
        toplevel: ToplevelId,
    },
}

} // verus!
