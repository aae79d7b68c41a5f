//! The library: the last home page, which holds a tile for each folder, and the
//! folder that a tile opens.
use vstd::prelude::*;

use crate::arrange::{ArrangeState, DragItem, IconPress};
use crate::input_dispatch::IconSource;
use crate::time::Nanos;
use crate::ui_state::AppRef;

verus! {

/// How many home pages there are, the library with them, when the user's icons
/// fill `pages` pages. There is always room for icons.
pub open spec fn page_total(pages: nat) -> int {
    if pages == 0 {
        2
    } else {
        pages as int + 1
    }
}

/// How many home pages there are, the library with them.
pub fn page_count_of(pages: usize) -> (r: usize)
    requires
        pages < usize::MAX,
    ensures
        r == page_total(pages as nat),
{
    if pages == 0 {
        2
    } else {
        pages + 1
    }
}

/// The place of the library among the home pages.
pub fn library_page(pages: usize) -> (r: usize)
    requires
        pages < usize::MAX,
    ensures
        r == page_total(pages as nat) - 1,
{
    page_count_of(pages) - 1
}

/// Whether the shell shows the library. `page` is the home page that is shown,
/// if one is.
pub fn on_library_page(page: Option<usize>, pages: usize) -> (r: bool)
    requires
        pages < usize::MAX,
    ensures
        r == (page is Some && page->0 == page_total(pages as nat) - 1),
{
    match page {
        Some(p) => p == library_page(pages),
        None => false,
    }
}

/// The library is the last page, and never one of the user's.
pub proof fn law_library_is_the_last_page(pages: nat, page: int)
    requires
        0 <= page < page_total(pages),
    ensures
        page <= page_total(pages) - 1,
        page < pages ==> page != page_total(pages) - 1,
{
}

/// A folder that the user opened.
#[derive(Clone, Copy, Debug, PartialEq, Eq, Structural)]
pub struct OpenFolder {
    /// Its place among the folders.
    pub index: usize,
    /// The member under the finger.
    pub pressed: Option<usize>,
    /// A finger is down inside it.
    pub dragging: bool,
    /// It shrinks away, and takes no input.
    pub closing: bool,
}

/// What a press hit while a folder is open.
#[derive(Clone, Copy, Debug, PartialEq, Eq, Structural)]
pub enum PanelHit {
    App {
        index: usize,
        app: AppRef,
    },
    Panel,
    Outside,
}

/// What a drag inside a folder amounts to.
#[derive(Clone, Copy, Debug, PartialEq, Eq, Structural)]
pub enum FolderDrag {
    /// Sideways: the member under the finger is lifted out.
    Sideways,
    /// More sideways than not, but also further up or down than a tap wobbles. A
    /// member is lifted out all the same; with none under the finger it scrolls.
    Slanted,
    /// Up or down, further than a tap wobbles.
    Scroll,
    /// Not far enough to tell.
    Wobble,
}

impl FolderDrag {
    /// Whether a member under the finger is lifted out.
    pub open spec fn lifts(self) -> bool {
        self == FolderDrag::Sideways || self == FolderDrag::Slanted
    }

    /// Whether the finger went further up or down than a tap wobbles.
    pub open spec fn scrolls(self) -> bool {
        self == FolderDrag::Scroll || self == FolderDrag::Slanted
    }
}

/// What the shell does for a folder.
#[derive(Clone, Copy, Debug, PartialEq, Eq, Structural)]
pub enum FolderStep {
    /// The folder shrinks back into its tile.
    Shrink,
    /// The list of members follows the finger.
    Scroll,
    /// The page drag that was armed is given up.
    CancelPageDrag,
    /// The app is launched, or its window raised.
    Launch(AppRef),
    /// A frame is due.
    Redraw,
}

/// A folder as it is opened.
pub open spec fn opened(index: usize) -> OpenFolder {
    OpenFolder { index, pressed: None, dragging: false, closing: false }
}

/// A folder that shrinks away.
pub open spec fn closed(f: OpenFolder) -> OpenFolder {
    OpenFolder { index: f.index, pressed: None, dragging: false, closing: true }
}

/// Whether a folder is there and takes input.
pub open spec fn is_live(folder: Option<OpenFolder>) -> bool {
    folder is Some && !folder->0.closing
}

pub open spec fn closed_if_any(folder: Option<OpenFolder>) -> Option<OpenFolder> {
    match folder {
        Some(f) => Some(closed(f)),
        None => None,
    }
}

impl OpenFolder {
    pub fn new(index: usize) -> (r: Self)
        ensures
            r == opened(index),
    {
        OpenFolder { index, pressed: None, dragging: false, closing: false }
    }
}

/// Start to close the folder. It stays, without taking input, until it has
/// shrunk away.
pub fn close_folder(folder: &mut Option<OpenFolder>) -> (out: Vec<FolderStep>)
    ensures
        *final(folder) == closed_if_any(*old(folder)),
        out@ == (if *old(folder) is Some {
            seq![FolderStep::Shrink, FolderStep::Redraw]
        } else {
            seq![FolderStep::Redraw]
        }),
{
    let mut out: Vec<FolderStep> = Vec::new();
    match *folder {
        Some(f) => {
            *folder = Some(
                OpenFolder { index: f.index, pressed: None, dragging: false, closing: true },
            );
            out.push(FolderStep::Shrink);
        },
        None => {},
    }
    out.push(FolderStep::Redraw);
    out
}

/// Whether a folder is there and takes input.
pub fn folder_live(folder: &Option<OpenFolder>) -> (r: bool)
    ensures
        r == is_live(*folder),
{
    match folder {
        Some(f) => !f.closing,
        None => false,
    }
}

/// A press while a folder is open. The folder owns every press: a member arms
/// its launch and its long press, the card swallows the press, and anywhere else
/// closes the folder without reaching the page beneath. `hit` is what was hit,
/// if the folder could be laid out. `None` when there is no such folder.
pub fn folder_press(
    folder: &mut Option<OpenFolder>,
    icon_press: &mut Option<IconPress>,
    hit: Option<PanelHit>,
    now: Nanos,
) -> (r: Option<Vec<FolderStep>>)
    ensures
        if !is_live(*old(folder)) || hit is None {
            r is None && *final(folder) == *old(folder) && *final(icon_press) == *old(icon_press)
        } else {
            let f = (*old(folder))->0;
            &&& r is Some
            &&& match hit->0 {
                PanelHit::App { index, app } => {
                    &&& *final(folder) == Some(
                        OpenFolder { pressed: Some(index), dragging: true, ..f },
                    )
                    &&& *final(icon_press) == Some(
                        IconPress { app, source: IconSource::Library, at: now },
                    )
                    &&& r->0@ == seq![FolderStep::Redraw]
                },
                PanelHit::Panel => {
                    &&& *final(folder) == Some(OpenFolder { pressed: None, dragging: true, ..f })
                    &&& *final(icon_press) == *old(icon_press)
                    &&& r->0@ == seq![FolderStep::Redraw]
                },
                PanelHit::Outside => {
                    &&& *final(folder) == Some(closed(f))
                    &&& *final(icon_press) == *old(icon_press)
                    &&& r->0@ == seq![FolderStep::Shrink, FolderStep::Redraw]
                },
            }
        },
{
    if !folder_live(folder) {
        return None;
    }
    let f: OpenFolder = match *folder {
        Some(f) => f,
        None => {
            return None;
        },
    };
    let mut out: Vec<FolderStep> = Vec::new();
    match hit {
        None => {
            return None;
        },
        Some(PanelHit::App { index, app }) => {
            *folder = Some(
                OpenFolder { index: f.index, pressed: Some(index), dragging: true, closing: false },
            );
            *icon_press = Some(IconPress { app, source: IconSource::Library, at: now });
        },
        Some(PanelHit::Panel) => {
            *folder = Some(
                OpenFolder { index: f.index, pressed: None, dragging: true, closing: false },
            );
        },
        Some(PanelHit::Outside) => {
            return Some(close_folder(folder));
        },
    }
    out.push(FolderStep::Redraw);
    Some(out)
}

/// What a drag inside an open folder changes besides the folder itself.
#[derive(Clone, Copy, Debug)]
pub struct FolderSurroundings {
    pub icon_press: Option<IconPress>,
    /// A tile of the library is armed.
    pub pending_folder: Option<usize>,
    pub arrange: Option<ArrangeState>,
}

/// A drag inside an open folder. Up and down scrolls the members; sideways lifts
/// the member under the finger out of the folder, into an ordinary drag of
/// arrange mode. A finger that went up or down gives up the press. `member` is the member that was pressed, if the folder still
/// has it.
pub fn folder_motion(
    folder: &mut Option<OpenFolder>,
    around: &mut FolderSurroundings,
    drag: FolderDrag,
    member: Option<AppRef>,
    laid_out: bool,
) -> (r: Option<Vec<FolderStep>>)
    ensures
        if !is_live(*old(folder)) || !laid_out {
            r is None && *final(folder) == *old(folder) && *final(around) == *old(around)
        } else {
            let f = (*old(folder))->0;
            &&& r is Some
            &&& if !f.dragging {
                r->0@.len() == 0 && *final(folder) == *old(folder) && *final(around) == *old(around)
            } else if f.pressed is Some && drag.lifts() && member is Some {
                &&& *final(folder) == Some(closed(f))
                &&& *final(around) == (FolderSurroundings {
                    icon_press: None,
                    pending_folder: None,
                    arrange: Some(
                        ArrangeState {
                            drag: Some(
                                DragItem {
                                    app: member->0,
                                    source: IconSource::Library,
                                    hover: None,
                                    edge_since: None,
                                },
                            ),
                            just_engaged: false,
                        },
                    ),
                })
                &&& r->0@ == seq![
                    FolderStep::Shrink,
                    FolderStep::Redraw,
                    FolderStep::CancelPageDrag,
                    FolderStep::Redraw,
                ]
            } else {
                &&& *final(folder) == Some(
                    OpenFolder {
                        pressed: if drag.scrolls() {
                            None
                        } else {
                            f.pressed
                        },
                        ..f
                    },
                )
                &&& *final(around) == (FolderSurroundings {
                    icon_press: if drag.scrolls() {
                        None
                    } else {
                        old(around).icon_press
                    },
                    ..*old(around)
                })
                &&& r->0@ == seq![FolderStep::Scroll, FolderStep::Redraw]
            }
        },
{
    if !folder_live(folder) || !laid_out {
        return None;
    }
    let f: OpenFolder = match *folder {
        Some(f) => f,
        None => {
            return None;
        },
    };
    let mut out: Vec<FolderStep> = Vec::new();
    if !f.dragging {
        return Some(out);
    }
    match (f.pressed, drag, member) {
        (Some(_), FolderDrag::Sideways | FolderDrag::Slanted, Some(app)) => {
            let mut out: Vec<FolderStep> = close_folder(folder);
            around.icon_press = None;
            around.pending_folder = None;
            around.arrange = Some(
                ArrangeState {
                    drag: Some(
                        DragItem {
                            app,
                            source: IconSource::Library,
                            hover: None,
                            edge_since: None,
                        },
                    ),
                    just_engaged: false,
                },
            );
            out.push(FolderStep::CancelPageDrag);
            out.push(FolderStep::Redraw);
            return Some(out);
        },
        _ => {},
    }
    match drag {
        FolderDrag::Scroll | FolderDrag::Slanted => {
            *folder = Some(
                OpenFolder { index: f.index, pressed: None, dragging: true, closing: false },
            );
            around.icon_press = None;
        },
        _ => {},
    }
    out.push(FolderStep::Scroll);
    out.push(FolderStep::Redraw);
    Some(out)
}

/// A release inside an open folder launches the member that was armed, and
/// closes the folder. `member` is that member, if the folder still has it.
pub fn folder_release(
    folder: &mut Option<OpenFolder>,
    icon_press: &mut Option<IconPress>,
    member: Option<AppRef>,
    laid_out: bool,
) -> (r: Option<Vec<FolderStep>>)
    ensures
        if !is_live(*old(folder)) || !laid_out {
            r is None && *final(folder) == *old(folder) && *final(icon_press) == *old(icon_press)
        } else {
            let f = (*old(folder))->0;
            &&& r is Some
            &&& *final(icon_press) is None
            &&& if f.pressed is Some && member is Some {
                &&& *final(folder) == Some(closed(f))
                &&& r->0@ == seq![
                    FolderStep::Shrink,
                    FolderStep::Redraw,
                    FolderStep::Launch(member->0),
                    FolderStep::Redraw,
                ]
            } else {
                &&& *final(folder) == Some(OpenFolder { pressed: None, dragging: false, ..f })
                &&& r->0@.len() == 0
            }
        },
{
    if !folder_live(folder) || !laid_out {
        return None;
    }
    let f: OpenFolder = match *folder {
        Some(f) => f,
        None => {
            return None;
        },
    };
    *icon_press = None;
    match (f.pressed, member) {
        (Some(_), Some(app)) => {
            let mut out: Vec<FolderStep> = close_folder(folder);
            out.push(FolderStep::Launch(app));
            out.push(FolderStep::Redraw);
            Some(out)
        },
        _ => {
            *folder = Some(
                OpenFolder { index: f.index, pressed: None, dragging: false, closing: false },
            );
            Some(Vec::new())
        },
    }
}

/// A press on the library with no folder open arms the tile under the finger.
/// The press is not consumed: a swipe that starts on a tile still pages.
pub fn library_press(
    pending_folder: &mut Option<usize>,
    on_library: bool,
    arranging: bool,
    tile: Option<usize>,
)
    ensures
        *final(pending_folder) == (if on_library && !arranging && tile is Some {
            tile
        } else {
            *old(pending_folder)
        }),
{
    if !on_library || arranging {
        return;
    }
    if tile.is_some() {
        *pending_folder = tile;
    }
}

/// A folder that is closing takes no part in anything: it is inert.
pub proof fn law_closing_folder_is_inert(f: OpenFolder)
    ensures
        !is_live(Some(closed(f))),
        closed(closed(f)) == closed(f),
        is_live(Some(opened(f.index))),
{
}

/// The user's pages come first and the library right behind them. There is a
/// page for icons even while there are none.
pub proof fn law_library_comes_behind_the_users_pages(
    pages: usize,
    total: usize,
    last: usize,
    page: Option<usize>,
    shown: bool,
)
    requires
        pages < usize::MAX,
        call_ensures(page_count_of, (pages,), total),
        call_ensures(library_page, (pages,), last),
        call_ensures(on_library_page, (page, pages), shown),
    ensures
        pages > 0 ==> total == pages + 1 && last == pages,
        pages == 0 ==> total == 2 && last == 1,
        shown <==> page == Some(last),
{
}

/// An open folder takes every press: a member is armed, and one beside the card
/// closes it.
pub proof fn law_open_folder_takes_every_press(
    folder: &mut Option<OpenFolder>,
    icon_press: &mut Option<IconPress>,
    hit: PanelHit,
    now: Nanos,
    r: Option<Vec<FolderStep>>,
)
    requires
        call_ensures(folder_press, (folder, icon_press, Some(hit), now), r),
        *old(folder) is Some,
    ensures
        r is Some <==> !(*old(folder))->0.closing,
        r is Some ==> *final(folder) is Some && (*final(folder))->0.index == (*old(folder))->0.index,
        r is Some ==> ((*final(folder))->0.closing <==> hit == PanelHit::Outside),
        r is Some ==> (r->0@.contains(FolderStep::Shrink) <==> hit == PanelHit::Outside),
        r is Some ==> ((*final(folder))->0.dragging <==> hit != PanelHit::Outside),
        r is Some ==> (match hit {
            PanelHit::App { index, app } => (*final(folder))->0.pressed == Some(index) && *final(icon_press)
                is Some && (*final(icon_press))->0.app == app && (*final(icon_press))->0.source
                == IconSource::Library && (*final(icon_press))->0.at == now,
            _ => (*final(folder))->0.pressed is None && *final(icon_press) == *old(icon_press),
        }),
        r is Some ==> r->0@.contains(FolderStep::Redraw),
{
    if r is Some {
        let s = r->0@;
        if s.len() > 1 {
            assert(s[0] == FolderStep::Shrink);
        }
        assert(s[s.len() - 1] == FolderStep::Redraw);
    }
}

/// A drag lifts the member under the finger out of its folder exactly if it goes
/// sideways; the folder then closes and the member is carried. Any other drag
/// scrolls, and one that goes up or down gives up the press.
pub proof fn law_sideways_drag_lifts_a_member(
    folder: &mut Option<OpenFolder>,
    around: &mut FolderSurroundings,
    drag: FolderDrag,
    member: Option<AppRef>,
    r: Option<Vec<FolderStep>>,
)
    requires
        call_ensures(folder_motion, (folder, around, drag, member, true), r),
        *old(folder) is Some,
        !(*old(folder))->0.closing,
        (*old(folder))->0.dragging,
    ensures
        r is Some,
        ({
            let f = (*old(folder))->0;
            let sideways = drag == FolderDrag::Sideways || drag == FolderDrag::Slanted;
            let lifted = f.pressed is Some && member is Some && sideways;
            &&& *final(folder) is Some
            &&& (*final(folder))->0.closing <==> lifted
            &&& r->0@.contains(FolderStep::Shrink) <==> lifted
            &&& r->0@.contains(FolderStep::CancelPageDrag) <==> lifted
            &&& r->0@.contains(FolderStep::Scroll) <==> !lifted
            &&& lifted ==> final(around).arrange is Some && final(around).arrange->0.drag is Some
                && final(around).arrange->0.drag->0.app == member->0 && final(around).arrange->0.drag->0.source == IconSource::Library && final(around).icon_press is None
                && final(around).pending_folder is None
            &&& !lifted ==> final(around).arrange == old(around).arrange
            &&& !lifted && (drag == FolderDrag::Scroll || drag == FolderDrag::Slanted)
                ==> (*final(folder))->0.pressed is None && final(around).icon_press is None
            &&& drag == FolderDrag::Wobble ==> *final(folder) == *old(folder) && *final(around) == *old(around)
        }),
{
    let s = r->0@;
    assert(s[0] == FolderStep::Shrink || s[0] == FolderStep::Scroll);
    if s.len() == 4 {
        assert(s[2] == FolderStep::CancelPageDrag);
    }
}

/// A release launches the member that was armed, and closes the folder with it;
/// without one the folder stays. Either way nothing is armed any more.
pub proof fn law_release_launches_the_member(
    folder: &mut Option<OpenFolder>,
    icon_press: &mut Option<IconPress>,
    member: Option<AppRef>,
    r: Option<Vec<FolderStep>>,
    app: AppRef,
)
    requires
        call_ensures(folder_release, (folder, icon_press, member, true), r),
        *old(folder) is Some,
        !(*old(folder))->0.closing,
    ensures
        r is Some,
        r->0@.contains(FolderStep::Launch(app)) <==> (*old(folder))->0.pressed is Some && member == Some(
            app,
        ),
        *final(folder) is Some,
        (*final(folder))->0.closing <==> (*old(folder))->0.pressed is Some && member is Some,
        (*final(folder))->0.pressed is None,
        !(*final(folder))->0.dragging,
        *final(icon_press) is None,
{
    let s = r->0@;
    if s.len() > 0 {
        assert(s[2] == FolderStep::Launch(member->0));
    }
}

/// A folder that is not there, or is closing, leaves every press, drag and
/// release to what lies beneath.
pub proof fn law_closing_folder_lets_input_through(
    a: &mut Option<OpenFolder>,
    b: &mut Option<OpenFolder>,
    c: &mut Option<OpenFolder>,
    icon_press: &mut Option<IconPress>,
    armed: &mut Option<IconPress>,
    around: &mut FolderSurroundings,
    hit: Option<PanelHit>,
    drag: FolderDrag,
    member: Option<AppRef>,
    now: Nanos,
    pressed: Option<Vec<FolderStep>>,
    moved: Option<Vec<FolderStep>>,
    released: Option<Vec<FolderStep>>,
)
    requires
        match *old(a) {
            Some(f) => f.closing,
            None => true,
        },
        *old(b) == *old(a),
        *old(c) == *old(a),
        call_ensures(folder_press, (a, icon_press, hit, now), pressed),
        call_ensures(folder_motion, (b, around, drag, member, true), moved),
        call_ensures(folder_release, (c, armed, member, true), released),
    ensures
        pressed is None,
        moved is None,
        released is None,
        *final(a) == *old(a),
        *final(b) == *old(a),
        *final(c) == *old(a),
        *final(around) == *old(around),
        *final(icon_press) == *old(icon_press),
        *final(armed) == *old(armed),
{
}

/// Closing keeps the folder, without input, until it has shrunk.
pub proof fn law_folder_shrinks_before_it_goes(folder: &mut Option<OpenFolder>, out: Vec<FolderStep>)
    requires
        call_ensures(close_folder, (folder,), out),
    ensures
        *final(folder) is Some <==> *old(folder) is Some,
        *final(folder) is Some ==> (*final(folder))->0.closing && (*final(folder))->0.index == (*old(folder))->0.index && (*final(folder))->0.pressed is None && !(*final(folder))->0.dragging,
        out@.contains(FolderStep::Shrink) <==> *old(folder) is Some,
        out@.contains(FolderStep::Redraw),
{
    if *old(folder) is Some {
        assert(out@[0] == FolderStep::Shrink);
    }
    assert(out@[out@.len() - 1] == FolderStep::Redraw);
}

/// A tile is armed only on the library, and not while icons are being moved.
pub proof fn law_tile_is_armed_on_the_library(
    pending: &mut Option<usize>,
    on_library: bool,
    arranging: bool,
    tile: Option<usize>,
)
    requires
        call_ensures(library_press, (pending, on_library, arranging, tile), ()),
    ensures
        on_library && !arranging && tile is Some ==> *final(pending) == tile,
        !on_library || arranging || tile is None ==> *final(pending) == *old(pending),
{
}

/// An open folder takes input until it starts to shrink away.
pub proof fn law_shrinking_folder_takes_no_input(folder: &Option<OpenFolder>, r: bool, index: usize, fresh: OpenFolder)
    requires
        call_ensures(folder_live, (folder,), r),
        call_ensures(OpenFolder::new, (index,), fresh),
    ensures
        r <==> (*folder matches Some(f) && !f.closing),
        fresh.index == index && !fresh.closing && !fresh.dragging && fresh.pressed is None,
{
}

/// A member that is lifted out is carried from the library, over nothing yet, while
/// its folder shrinks away. Where none is lifted the folder stays as it is, but for
/// the member that a scroll disarms.
pub proof fn law_lifted_member_is_carried_over_nothing(
    folder: &mut Option<OpenFolder>,
    around: &mut FolderSurroundings,
    drag: FolderDrag,
    member: Option<AppRef>,
    r: Option<Vec<FolderStep>>,
)
    requires
        call_ensures(folder_motion, (folder, around, drag, member, true), r),
        *old(folder) is Some,
        !(*old(folder))->0.closing,
    ensures
        r is Some && *final(folder) is Some,
        ({
            let f = (*old(folder))->0;
            let g = (*final(folder))->0;
            let lifted = f.dragging && f.pressed is Some && member is Some && (drag == FolderDrag::Sideways
                || drag == FolderDrag::Slanted);
            &&& g.index == f.index
            &&& lifted ==> !g.dragging && g.pressed is None
            &&& !lifted ==> g.dragging == f.dragging && !g.closing && final(around).pending_folder
                == old(around).pending_folder
            &&& !f.dragging ==> g == f && *final(around) == *old(around) && r->0@.len() == 0
            &&& lifted ==> (final(around).arrange matches Some(a) && !a.just_engaged && (
            a.drag matches Some(d) && d.hover is None && d.edge_since is None))
            &&& f.dragging ==> r->0@.last() == FolderStep::Redraw
            &&& lifted ==> r->0@[0] == FolderStep::Shrink
        }),
{
}

/// A member is launched after its folder began to shrink, and a frame is due then; a
/// release that launches nothing leaves the folder open.
pub proof fn law_folder_shrinks_before_the_launch(
    folder: &mut Option<OpenFolder>,
    icon_press: &mut Option<IconPress>,
    member: Option<AppRef>,
    r: Option<Vec<FolderStep>>,
    app: AppRef,
    k: int,
)
    requires
        call_ensures(folder_release, (folder, icon_press, member, true), r),
        *old(folder) is Some,
        !(*old(folder))->0.closing,
        r is Some,
        0 <= k < r->0@.len(),
        r->0@[k] == FolderStep::Launch(app),
    ensures
        exists|j: int| 0 <= j < k && #[trigger] r->0@[j] == FolderStep::Shrink,
        r->0@.last() == FolderStep::Redraw,
        (*final(folder))->0.index == (*old(folder))->0.index,
{
    assert(r->0@[0] == FolderStep::Shrink);
}

} // verus!
