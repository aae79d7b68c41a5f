//! The menu that a long press on an icon opens.
//!
//! A tap raises the app that an icon stands for, which leaves nowhere to ask for
//! a second window. The menu is that place: it holds all that is not a plain
//! open.
use vstd::prelude::*;

use crate::app_history::ToplevelId;
use crate::text::{concat, concat3, copy, copy_opt, decimal, decimal_of, same, text_of, texts};

verus! {

/// What a row of the menu does.
#[derive(Clone, Copy, Debug, PartialEq, Eq, Structural)]
pub enum MenuAction {
    /// Raise this window.
    Open(ToplevelId),
    /// Start another instance.
    NewWindow,
    /// Ask every window of the app to close.
    CloseAll,
    /// Take the app off the home screen.
    Remove,
    /// Put an app of the library on the home screen.
    AddToHome,
    /// Ask before the app is deleted.
    Uninstall,
    /// Delete the app.
    UninstallConfirm,
}

impl MenuAction {
    /// Whether the row takes something away, and is drawn so.
    pub open spec fn destroys(self) -> bool {
        match self {
            MenuAction::CloseAll => true,
            MenuAction::Remove => true,
            MenuAction::Uninstall => true,
            MenuAction::UninstallConfirm => true,
            MenuAction::Open(_) => false,
            MenuAction::NewWindow => false,
            MenuAction::AddToHome => false,
        }
    }

    /// Whether the row takes something away, and is drawn so.
    pub fn is_destructive(self) -> (r: bool)
        ensures
            r == self.destroys(),
    {
        match self {
            MenuAction::CloseAll => true,
            MenuAction::Remove => true,
            MenuAction::Uninstall => true,
            MenuAction::UninstallConfirm => true,
            MenuAction::Open(_) => false,
            MenuAction::NewWindow => false,
            MenuAction::AddToHome => false,
        }
    }
}

/// A row: what it does and what it says.
#[derive(Debug)]
pub struct MenuItem {
    pub action: MenuAction,
    pub label: String,
}

/// What a list of rows holds.
pub open spec fn row_views(items: Seq<MenuItem>) -> Seq<(MenuAction, Seq<char>)> {
    items.map_values(|i: MenuItem| (i.action, i.label@))
}

/// The row of one of several windows: its title, or its place when it has none.
pub open spec fn window_row(windows: Seq<(ToplevelId, String)>, i: int) -> (MenuAction, Seq<char>) {
    (
        MenuAction::Open(windows[i].0),
        if windows[i].1@.len() == 0 {
            "Window "@ + decimal((i + 1) as nat)
        } else {
            windows[i].1@
        },
    )
}

/// The rows of the windows. A single one is just opened: its title would repeat
/// the name under the icon.
pub open spec fn window_rows(windows: Seq<(ToplevelId, String)>) -> Seq<(MenuAction, Seq<char>)> {
    if windows.len() == 1 {
        seq![(MenuAction::Open(windows[0].0), "Open"@)]
    } else {
        Seq::new(windows.len(), |i: int| window_row(windows, i))
    }
}

/// The row that closes the windows, if there are any.
pub open spec fn close_rows(windows: nat) -> Seq<(MenuAction, Seq<char>)> {
    if windows == 0 {
        Seq::empty()
    } else if windows == 1 {
        seq![(MenuAction::CloseAll, "Close"@)]
    } else {
        seq![(MenuAction::CloseAll, "Close all"@)]
    }
}

/// The row that changes the home screen.
pub open spec fn place_row(in_library: bool) -> (MenuAction, Seq<char>) {
    if in_library {
        (MenuAction::AddToHome, "Add to Home"@)
    } else {
        (MenuAction::Remove, "Remove"@)
    }
}

/// The row that deletes the app, where it can be deleted.
pub open spec fn uninstall_rows(flatpak: bool) -> Seq<(MenuAction, Seq<char>)> {
    if flatpak {
        seq![(MenuAction::Uninstall, "Uninstall"@)]
    } else {
        Seq::empty()
    }
}

/// All the rows of an icon.
pub open spec fn rows_for(windows: Seq<(ToplevelId, String)>, flatpak: bool, in_library: bool) -> Seq<
    (MenuAction, Seq<char>),
> {
    window_rows(windows).push((MenuAction::NewWindow, "New window"@)) + close_rows(windows.len())
        + seq![place_row(in_library)] + uninstall_rows(flatpak)
}

fn row(action: MenuAction, label: &str) -> (r: MenuItem)
    ensures
        r.action == action,
        r.label@ == label@,
{
    MenuItem { action, label: copy(label) }
}

/// The rows of an icon, given its windows, the most recent first. `in_library`
/// is whether the icon is that of a member of a folder, which is on no page that
/// it could be removed from.
pub fn items_for(windows: &[(ToplevelId, String)], flatpak: bool, in_library: bool) -> (out: Vec<
    MenuItem,
>)
    ensures
        row_views(out@) == rows_for(windows@, flatpak, in_library),
{
    let mut out: Vec<MenuItem> = Vec::new();
    let n: usize = windows.len();
    if n == 1 {
        out.push(row(MenuAction::Open(windows[0].0), "Open"));
    } else {
        let mut i: usize = 0;
        while i < n
            invariant
                i <= n,
                n == windows@.len(),
                n != 1,
                row_views(out@) =~= window_rows(windows@).take(i as int),
            decreases n - i,
        {
            let ghost before = row_views(out@);
            let title: &String = &windows[i].1;
            let label: String = if title.as_str().is_empty() {
                // Its place is the one thing that is always known of a window.
                concat("Window ", decimal_of((i + 1) as u64).as_str())
            } else {
                copy(title.as_str())
            };
            out.push(MenuItem { action: MenuAction::Open(windows[i].0), label });
            proof {
                assert(row_views(out@) =~= before.push(window_row(windows@, i as int)));
            }
            i = i + 1;
        }
        proof {
            assert(window_rows(windows@).take(n as int) =~= window_rows(windows@));
        }
    }
    proof {
        assert(row_views(out@) =~= window_rows(windows@));
    }
    out.push(row(MenuAction::NewWindow, "New window"));
    if n > 0 {
        out.push(
            if n > 1 {
                row(MenuAction::CloseAll, "Close all")
            } else {
                row(MenuAction::CloseAll, "Close")
            },
        );
    }
    out.push(
        if in_library {
            row(MenuAction::AddToHome, "Add to Home")
        } else {
            row(MenuAction::Remove, "Remove")
        },
    );
    if flatpak {
        out.push(row(MenuAction::Uninstall, "Uninstall"));
    }
    proof {
        assert(row_views(out@) =~= rows_for(windows@, flatpak, in_library));
    }
    out
}

/// The rows that stand in for all others once deleting an app was asked for: a
/// stray tap alone must not delete it.
pub fn confirm_items(name: &str) -> (out: Vec<MenuItem>)
    ensures
        row_views(out@) == seq![(MenuAction::UninstallConfirm, "Delete "@ + name@ + "?"@)],
{
    let mut out: Vec<MenuItem> = Vec::new();
    out.push(
        MenuItem {
            action: MenuAction::UninstallConfirm,
            label: concat3("Delete ", name, "?"),
        },
    );
    proof {
        assert(row_views(out@) =~= seq![(MenuAction::UninstallConfirm, "Delete "@ + name@ + "?"@)]);
    }
    out
}

/// No row of the menu deletes an app: that takes a second tap, on another menu.
pub proof fn law_no_single_tap_deletes(windows: Seq<(ToplevelId, String)>, flatpak: bool, in_library: bool, i: int)
    requires
        0 <= i < rows_for(windows, flatpak, in_library).len(),
    ensures
        (rows_for(windows, flatpak, in_library)[i]).0 != MenuAction::UninstallConfirm,
{
    let a = window_rows(windows).push((MenuAction::NewWindow, "New window"@));
    let b = a + close_rows(windows.len());
    let c = b + seq![place_row(in_library)];
    let all = rows_for(windows, flatpak, in_library);
    assert(all == c + uninstall_rows(flatpak));
    if i < c.len() {
        assert(all[i] == c[i]);
        if i < b.len() {
            assert(c[i] == b[i]);
            if i < a.len() {
                assert(b[i] == a[i]);
            }
        }
    }
}

/// Every window can be picked, each by a row of its own, in the order of the
/// windows.
pub proof fn law_every_window_has_a_row(windows: Seq<(ToplevelId, String)>, flatpak: bool, in_library: bool, i: int)
    requires
        0 <= i < windows.len(),
    ensures
        i < rows_for(windows, flatpak, in_library).len(),
        (rows_for(windows, flatpak, in_library)[i]).0 == MenuAction::Open(windows[i].0),
{
    assert(rows_for(windows, flatpak, in_library)[i] == window_rows(windows)[i]);
}

// ---------------------------------------------------------------------------
// Carrying a row out
// ---------------------------------------------------------------------------

/// An app as the menu knows it.
#[derive(Debug)]
pub struct InstalledApp {
    pub id: String,
    pub name: String,
    /// What the package is called, for an app that can be deleted.
    pub flatpak: Option<String>,
}

/// The place of an app in the catalog.
pub open spec fn app_at(catalog: Seq<InstalledApp>, id: Seq<char>) -> Option<int>
    decreases catalog.len(),
{
    if catalog.len() == 0 {
        None
    } else if catalog.last().id@ == id {
        Some(catalog.len() - 1)
    } else {
        app_at(catalog.drop_last(), id)
    }
}

fn find_app(catalog: &Vec<InstalledApp>, id: &str) -> (r: Option<usize>)
    ensures
        match r {
            Some(i) => i < catalog@.len() && app_at(catalog@, id@) == Some(i as int),
            None => app_at(catalog@, id@) is None,
        },
{
    let mut n: usize = catalog.len();
    proof {
        assert(catalog@.take(n as int) =~= catalog@);
    }
    while n > 0
        invariant
            n <= catalog.len(),
            app_at(catalog@.take(n as int), id@) == app_at(catalog@, id@),
        decreases n,
    {
        proof {
            assert(catalog@.take(n as int).last() == catalog@[n - 1]);
            assert(catalog@.take(n as int).drop_last() =~= catalog@.take(n - 1));
        }
        if same(catalog[n - 1].id.as_str(), id) {
            return Some(n - 1);
        }
        n = n - 1;
    }
    None
}

/// What the package of an app is called, if it came from one.
pub open spec fn package_of(catalog: Seq<InstalledApp>, id: Seq<char>) -> Option<Seq<char>> {
    match app_at(catalog, id) {
        Some(i) => text_of(catalog[i].flatpak),
        None => None,
    }
}

/// The name of an app; its id when it is not in the catalog.
pub open spec fn name_of(catalog: Seq<InstalledApp>, id: Seq<char>) -> Seq<char> {
    match app_at(catalog, id) {
        Some(i) => catalog[i].name@,
        None => id,
    }
}

/// What the package of an app is called, if it came from one.
pub fn flatpak_ref(catalog: &Vec<InstalledApp>, id: &str) -> (r: Option<String>)
    ensures
        text_of(r) == package_of(catalog@, id@),
{
    match find_app(catalog, id) {
        Some(i) => copy_opt(&catalog[i].flatpak),
        None => None,
    }
}

pub fn is_flatpak(catalog: &Vec<InstalledApp>, id: &str) -> (r: bool)
    ensures
        r == (package_of(catalog@, id@) is Some),
{
    flatpak_ref(catalog, id).is_some()
}

/// What the shell does for a row.
#[derive(Debug)]
pub enum MenuStep {
    /// A window that opens or closes does so at the icon.
    RememberOrigin,
    Raise(ToplevelId),
    SpawnInstance,
    /// The window is detached, and what is shown changes.
    Detach(ToplevelId),
    DeleteFromHome,
    PlaceOnHome,
    CloseFolder,
    /// The new order is kept, and the icons slide to it.
    AfterArrangeEdit,
    /// The menu comes up again with these rows only.
    Reopen(Vec<MenuItem>),
    /// Run the package manager with these words.
    RunFlatpak(Vec<String>),
    /// A frame is due.
    Redraw,
}

/// What a [`MenuStep`] holds.
pub enum MenuStepView {
    RememberOrigin,
    Raise(ToplevelId),
    SpawnInstance,
    Detach(ToplevelId),
    DeleteFromHome,
    PlaceOnHome,
    CloseFolder,
    AfterArrangeEdit,
    Reopen(Seq<(MenuAction, Seq<char>)>),
    RunFlatpak(Seq<Seq<char>>),
    Redraw,
}

pub open spec fn step_view(s: MenuStep) -> MenuStepView {
    match s {
        MenuStep::RememberOrigin => MenuStepView::RememberOrigin,
        MenuStep::Raise(id) => MenuStepView::Raise(id),
        MenuStep::SpawnInstance => MenuStepView::SpawnInstance,
        MenuStep::Detach(id) => MenuStepView::Detach(id),
        MenuStep::DeleteFromHome => MenuStepView::DeleteFromHome,
        MenuStep::PlaceOnHome => MenuStepView::PlaceOnHome,
        MenuStep::CloseFolder => MenuStepView::CloseFolder,
        MenuStep::AfterArrangeEdit => MenuStepView::AfterArrangeEdit,
        MenuStep::Reopen(items) => MenuStepView::Reopen(row_views(items@)),
        MenuStep::RunFlatpak(args) => MenuStepView::RunFlatpak(texts(args@)),
        MenuStep::Redraw => MenuStepView::Redraw,
    }
}

pub open spec fn step_views(steps: Seq<MenuStep>) -> Seq<MenuStepView> {
    steps.map_values(|s: MenuStep| step_view(s))
}

pub open spec fn detaching(instances: Seq<ToplevelId>) -> Seq<MenuStepView> {
    instances.map_values(|id: ToplevelId| MenuStepView::Detach(id))
}

/// What is done to delete an app. One that runs is refused, so it is closed
/// first. Without a package nothing is done.
pub open spec fn uninstalling(package: Option<Seq<char>>, instances: Seq<ToplevelId>) -> Seq<MenuStepView> {
    match package {
        Some(p) => detaching(instances).push(
            MenuStepView::RunFlatpak(seq!["uninstall"@, "--noninteractive"@, p]),
        ),
        None => Seq::empty(),
    }
}

/// What is done for a row of the menu of an app with these windows.
pub open spec fn steps_of(
    catalog: Seq<InstalledApp>,
    id: Seq<char>,
    instances: Seq<ToplevelId>,
    action: MenuAction,
) -> Seq<MenuStepView> {
    (match action {
        // By the window, not by the app: the user chose against the most recent.
        MenuAction::Open(w) => seq![MenuStepView::RememberOrigin, MenuStepView::Raise(w)],
        MenuAction::NewWindow => seq![MenuStepView::SpawnInstance],
        MenuAction::CloseAll => detaching(instances),
        MenuAction::Remove => seq![MenuStepView::DeleteFromHome, MenuStepView::AfterArrangeEdit],
        MenuAction::AddToHome => seq![
            MenuStepView::PlaceOnHome,
            MenuStepView::CloseFolder,
            MenuStepView::AfterArrangeEdit,
        ],
        MenuAction::Uninstall => seq![
            MenuStepView::Reopen(
                seq![
                    (MenuAction::UninstallConfirm, "Delete "@ + name_of(catalog, id) + "?"@),
                ],
            ),
        ],
        MenuAction::UninstallConfirm => uninstalling(package_of(catalog, id), instances),
    }).push(MenuStepView::Redraw)
}

/// Every window of an app is detached.
pub fn close_all(out: &mut Vec<MenuStep>, instances: &Vec<ToplevelId>)
    ensures
        step_views(final(out)@) == step_views(old(out)@) + detaching(instances@),
{
    let ghost before = step_views(out@);
    let mut i: usize = 0;
    while i < instances.len()
        invariant
            i <= instances.len(),
            step_views(out@) =~= before + detaching(instances@).take(i as int),
        decreases instances.len() - i,
    {
        let ghost so_far = step_views(out@);
        out.push(MenuStep::Detach(instances[i]));
        proof {
            assert(step_views(out@) =~= so_far.push(MenuStepView::Detach(instances@[i as int])));
        }
        i = i + 1;
    }
    proof {
        assert(detaching(instances@).take(i as int) =~= detaching(instances@));
    }
}

fn uninstall_flatpak(out: &mut Vec<MenuStep>, package: Option<String>, instances: &Vec<ToplevelId>)
    ensures
        step_views(final(out)@) == step_views(old(out)@) + uninstalling(
            text_of(package),
            instances@,
        ),
{
    let ghost before = step_views(out@);
    match package {
        Some(p) => {
            close_all(out, instances);
            let ghost so_far = step_views(out@);
            let mut args: Vec<String> = Vec::new();
            args.push(copy("uninstall"));
            args.push(copy("--noninteractive"));
            args.push(copy(p.as_str()));
            proof {
                assert(texts(args@) =~= seq!["uninstall"@, "--noninteractive"@, p@]);
            }
            out.push(MenuStep::RunFlatpak(args));
            proof {
                assert(step_views(out@) =~= so_far.push(MenuStepView::RunFlatpak(texts(args@))));
                assert(step_views(out@) =~= before + uninstalling(Some(p@), instances@));
            }
        },
        None => {
            proof {
                assert(step_views(out@) =~= before + uninstalling(None, instances@));
            }
        },
    }
}

/// What is done for a row of the menu of an app. `instances` are its windows.
pub fn run_menu_action(
    catalog: &Vec<InstalledApp>,
    id: &str,
    instances: &Vec<ToplevelId>,
    action: MenuAction,
) -> (out: Vec<MenuStep>)
    ensures
        step_views(out@) == steps_of(catalog@, id@, instances@, action),
{
    let mut out: Vec<MenuStep> = Vec::new();
    proof {
        assert(step_views(out@) =~= Seq::<MenuStepView>::empty());
    }
    match action {
        MenuAction::Open(w) => {
            out.push(MenuStep::RememberOrigin);
            out.push(MenuStep::Raise(w));
        },
        MenuAction::NewWindow => {
            out.push(MenuStep::SpawnInstance);
        },
        MenuAction::CloseAll => {
            close_all(&mut out, instances);
            proof {
                assert(step_views(out@) =~= detaching(instances@));
            }
        },
        MenuAction::Remove => {
            out.push(MenuStep::DeleteFromHome);
            out.push(MenuStep::AfterArrangeEdit);
        },
        MenuAction::AddToHome => {
            out.push(MenuStep::PlaceOnHome);
            out.push(MenuStep::CloseFolder);
            out.push(MenuStep::AfterArrangeEdit);
        },
        MenuAction::Uninstall => {
            let items: Vec<MenuItem> = match find_app(catalog, id) {
                Some(i) => confirm_items(catalog[i].name.as_str()),
                None => confirm_items(id),
            };
            out.push(MenuStep::Reopen(items));
        },
        MenuAction::UninstallConfirm => {
            uninstall_flatpak(&mut out, flatpak_ref(catalog, id), instances);
            proof {
                assert(step_views(out@) =~= uninstalling(package_of(catalog@, id@), instances@));
            }
        },
    }
    let ghost so_far = step_views(out@);
    out.push(MenuStep::Redraw);
    proof {
        assert(step_views(out@) =~= so_far.push(MenuStepView::Redraw));
        assert(step_views(out@) =~= steps_of(catalog@, id@, instances@, action));
    }
    out
}

// ---------------------------------------------------------------------------
// Laws
// ---------------------------------------------------------------------------

/// The rows that the windows and the place of an icon call for, and no others: one
/// that closes where there is a window, one that adds an icon of the library or
/// removes any other, one that deletes where the app can be deleted.
pub proof fn law_rows_fit_the_icon(
    windows: Seq<(ToplevelId, String)>,
    flatpak: bool,
    in_library: bool,
)
    ensures
        ({
            let rows = rows_for(windows, flatpak, in_library);
            let n = windows.len() as int;
            let closing = if n > 0 {
                1int
            } else {
                0int
            };
            let deleting = if flatpak {
                1int
            } else {
                0int
            };
            &&& rows.len() == n + 1 + closing + 1 + deleting
            &&& rows[n] == (MenuAction::NewWindow, "New window"@)
            &&& n > 0 ==> rows[n + 1].0 == MenuAction::CloseAll
            &&& n == 1 ==> rows[0].1 == "Open"@ && rows[2].1 == "Close"@
            &&& n > 1 ==> rows[n + 1].1 == "Close all"@
            &&& in_library ==> rows[n + 1 + closing] == (MenuAction::AddToHome, "Add to Home"@)
            &&& !in_library ==> rows[n + 1 + closing] == (MenuAction::Remove, "Remove"@)
            &&& flatpak ==> rows.last() == (MenuAction::Uninstall, "Uninstall"@)
        }),
{
}

/// Among several windows each is called by its title, and one without a title by
/// its place.
pub proof fn law_windows_go_by_their_titles(
    windows: Seq<(ToplevelId, String)>,
    flatpak: bool,
    in_library: bool,
    i: int,
)
    requires
        0 <= i < windows.len(),
        windows.len() > 1,
    ensures
        ({
            let row = rows_for(windows, flatpak, in_library)[i];
            &&& windows[i].1@.len() > 0 ==> row.1 == windows[i].1@
            &&& windows[i].1@.len() == 0 ==> row.1 == "Window "@ + decimal((i + 1) as nat)
        }),
{
    assert(rows_for(windows, flatpak, in_library)[i] == window_rows(windows)[i]);
}

/// What takes something away is drawn so, and what only opens or adds is not.
pub proof fn law_rows_that_take_away_are_marked(a: MenuAction)
    ensures
        a.destroys() <==> !(a is Open) && a != MenuAction::NewWindow && a != MenuAction::AddToHome,
{
}

/// Each row does its own thing and nothing else: a window is raised by its own row,
/// closed by the row that closes or when the app is deleted, and the app is deleted
/// only by the row that confirms it, where it came from a package.
pub proof fn law_row_does_what_it_says(
    catalog: Seq<InstalledApp>,
    id: Seq<char>,
    instances: Seq<ToplevelId>,
    action: MenuAction,
    w: ToplevelId,
)
    ensures
        ({
            let s = steps_of(catalog, id, instances, action);
            let deletes = action == MenuAction::UninstallConfirm && package_of(catalog, id) is Some;
            &&& s.last() == MenuStepView::Redraw
            &&& s.contains(MenuStepView::Raise(w)) <==> action == MenuAction::Open(w)
            &&& s.contains(MenuStepView::RememberOrigin) <==> action is Open
            &&& s.contains(MenuStepView::SpawnInstance) <==> action == MenuAction::NewWindow
            &&& s.contains(MenuStepView::Detach(w)) <==> (action == MenuAction::CloseAll || deletes)
                && instances.contains(w)
            &&& s.contains(MenuStepView::DeleteFromHome) <==> action == MenuAction::Remove
            &&& s.contains(MenuStepView::PlaceOnHome) <==> action == MenuAction::AddToHome
            &&& s.contains(MenuStepView::CloseFolder) <==> action == MenuAction::AddToHome
            &&& s.contains(MenuStepView::AfterArrangeEdit) <==> action == MenuAction::Remove
                || action == MenuAction::AddToHome
            &&& deletes ==> s[s.len() - 2] == MenuStepView::RunFlatpak(
                seq!["uninstall"@, "--noninteractive"@, package_of(catalog, id)->0],
            )
            &&& forall|args: Seq<Seq<char>>|
                !deletes ==> !(#[trigger] s.contains(MenuStepView::RunFlatpak(args)))
            &&& action == MenuAction::Uninstall ==> s[0] is Reopen && (s[0]->Reopen_0).len() == 1 && (
            s[0]->Reopen_0)[0].0 == MenuAction::UninstallConfirm
        }),
{
    let s = steps_of(catalog, id, instances, action);
    let deletes = action == MenuAction::UninstallConfirm && package_of(catalog, id) is Some;
    match action {
        MenuAction::Open(t) => {
            assert(s[0] == MenuStepView::RememberOrigin && s[1] == MenuStepView::Raise(t));
        },
        MenuAction::NewWindow => {
            assert(s[0] == MenuStepView::SpawnInstance);
        },
        MenuAction::Remove => {
            assert(s[0] == MenuStepView::DeleteFromHome && s[1] == MenuStepView::AfterArrangeEdit);
        },
        MenuAction::AddToHome => {
            assert(s[0] == MenuStepView::PlaceOnHome && s[1] == MenuStepView::CloseFolder && s[2]
                == MenuStepView::AfterArrangeEdit);
        },
        _ => {},
    }
    if action == MenuAction::CloseAll || deletes {
        if instances.contains(w) {
            let k = choose|k: int| 0 <= k < instances.len() && instances[k] == w;
            assert(s[k] == MenuStepView::Detach(w));
        }
        if s.contains(MenuStepView::Detach(w)) {
            let k = choose|k: int| 0 <= k < s.len() && s[k] == MenuStepView::Detach(w);
            assert(k < instances.len());
            assert(instances[k] == w);
        }
    }
}

/// An app that is running is closed before it is deleted.
pub proof fn law_app_is_closed_before_it_is_deleted(
    catalog: Seq<InstalledApp>,
    id: Seq<char>,
    instances: Seq<ToplevelId>,
    k: int,
)
    requires
        package_of(catalog, id) is Some,
        0 <= k < instances.len(),
    ensures
        ({
            let s = steps_of(catalog, id, instances, MenuAction::UninstallConfirm);
            &&& s.len() == instances.len() + 2
            &&& s[k] == MenuStepView::Detach(instances[k])
            &&& s[instances.len() as int] is RunFlatpak
        }),
{
}

/// What is known of an app is taken from an entry with its id, and there is such an
/// entry exactly when something is found.
pub proof fn law_app_is_found_by_its_id(catalog: Seq<InstalledApp>, id: Seq<char>)
    ensures
        app_at(catalog, id) matches Some(i) ==> 0 <= i < catalog.len() && catalog[i].id@ == id
            && package_of(catalog, id) == text_of(catalog[i].flatpak) && name_of(catalog, id)
            == catalog[i].name@,
        app_at(catalog, id) is None <==> forall|i: int|
            0 <= i < catalog.len() ==> (#[trigger] catalog[i]).id@ != id,
        app_at(catalog, id) is None ==> package_of(catalog, id) is None && name_of(catalog, id) == id,
    decreases catalog.len(),
{
    if catalog.len() > 0 {
        let less = catalog.drop_last();
        law_app_is_found_by_its_id(less, id);
        if catalog.last().id@ != id {
            if app_at(less, id) is None {
                assert forall|i: int| 0 <= i < catalog.len() implies (#[trigger] catalog[i]).id@ != id by {
                    if i < less.len() {
                        assert(less[i] == catalog[i]);
                    }
                }
            } else {
                let i = app_at(less, id)->0;
                assert(catalog[i] == less[i]);
            }
        } else {
            assert(catalog[catalog.len() - 1].id@ == id);
        }
    }
}

/// Deleting an app is confirmed by its name.
pub proof fn law_confirmation_names_the_app(name: &str, out: Vec<MenuItem>)
    requires
        call_ensures(confirm_items, (name,), out),
    ensures
        out@.len() == 1,
        out@[0].action == MenuAction::UninstallConfirm,
        out@[0].label@ == "Delete "@ + name@ + "?"@,
{
    let v = row_views(out@);
    assert(v.len() == out@.len());
    assert(v[0] == (out@[0].action, out@[0].label@));
}

proof fn lemma_step_is_seen(out: Seq<MenuStep>, s: MenuStep)
    requires
        !(s is Reopen) && !(s is RunFlatpak),
    ensures
        out.contains(s) <==> step_views(out).contains(step_view(s)),
{
    let vs = step_views(out);
    if out.contains(s) {
        let k = choose|k: int| 0 <= k < out.len() && out[k] == s;
        assert(vs[k] == step_view(s));
    }
    if vs.contains(step_view(s)) {
        let k = choose|k: int| 0 <= k < vs.len() && vs[k] == step_view(s);
        assert(vs[k] == step_view(out[k]));
        assert(out[k] == s);
    }
}

/// What [`run_menu_action`] asks for, step by step: each row does what it is called
/// and nothing that another row is for.
pub proof fn law_chosen_row_is_done(
    catalog: &Vec<InstalledApp>,
    id: &str,
    instances: &Vec<ToplevelId>,
    action: MenuAction,
    out: Vec<MenuStep>,
    w: ToplevelId,
)
    requires
        call_ensures(run_menu_action, (catalog, id, instances, action), out),
    ensures
        ({
            let package = package_of(catalog@, id@);
            let deletes = action == MenuAction::UninstallConfirm && package is Some;
            &&& out@.len() > 0 && out@.last() is Redraw
            &&& out@.contains(MenuStep::Raise(w)) <==> action == MenuAction::Open(w)
            &&& out@.contains(MenuStep::RememberOrigin) <==> action is Open
            &&& out@.contains(MenuStep::SpawnInstance) <==> action == MenuAction::NewWindow
            &&& out@.contains(MenuStep::Detach(w)) <==> (action == MenuAction::CloseAll || deletes)
                && instances@.contains(w)
            &&& out@.contains(MenuStep::DeleteFromHome) <==> action == MenuAction::Remove
            &&& out@.contains(MenuStep::PlaceOnHome) <==> action == MenuAction::AddToHome
            &&& out@.contains(MenuStep::CloseFolder) <==> action == MenuAction::AddToHome
            &&& out@.contains(MenuStep::AfterArrangeEdit) <==> action == MenuAction::Remove || action
                == MenuAction::AddToHome
            &&& deletes ==> (out@[out@.len() - 2] matches MenuStep::RunFlatpak(args) && texts(args@)
                == seq!["uninstall"@, "--noninteractive"@, package->0])
            &&& forall|k: int|
                0 <= k < out@.len() && !deletes ==> !((#[trigger] out@[k]) is RunFlatpak)
            &&& action == MenuAction::Uninstall ==> (out@[0] matches MenuStep::Reopen(rows)
                && rows@.len() == 1 && rows@[0].action == MenuAction::UninstallConfirm)
        }),
{
    let package = package_of(catalog@, id@);
    let deletes = action == MenuAction::UninstallConfirm && package is Some;
    let vs = step_views(out@);
    law_row_does_what_it_says(catalog@, id@, instances@, action, w);
    assert(vs.len() == out@.len());
    assert(vs.last() == step_view(out@.last()));
    lemma_step_is_seen(out@, MenuStep::Raise(w));
    lemma_step_is_seen(out@, MenuStep::RememberOrigin);
    lemma_step_is_seen(out@, MenuStep::SpawnInstance);
    lemma_step_is_seen(out@, MenuStep::Detach(w));
    lemma_step_is_seen(out@, MenuStep::DeleteFromHome);
    lemma_step_is_seen(out@, MenuStep::PlaceOnHome);
    lemma_step_is_seen(out@, MenuStep::CloseFolder);
    lemma_step_is_seen(out@, MenuStep::AfterArrangeEdit);
    if deletes {
        assert(vs[vs.len() - 2] == step_view(out@[vs.len() - 2]));
    }
    assert forall|k: int| 0 <= k < out@.len() && !deletes implies !((#[trigger] out@[k]) is RunFlatpak) by {
        assert(vs[k] == step_view(out@[k]));
        if out@[k] is RunFlatpak {
            let args = texts(out@[k]->RunFlatpak_0@);
            assert(vs.contains(MenuStepView::RunFlatpak(args)));
        }
    }
    if action == MenuAction::Uninstall {
        assert(vs[0] == step_view(out@[0]));
        let rows = out@[0]->Reopen_0@;
        assert(row_views(rows).len() == rows.len());
        assert(row_views(rows)[0] == (rows[0].action, rows[0].label@));
    }
}

/// The rows that [`items_for`] gives: one for each window, one for a new window, one
/// that closes what is open, one for the place of the icon, and one that deletes
/// what a package manager installed. None deletes at a single tap.
pub proof fn law_menu_fits_the_icon(
    windows: &[(ToplevelId, String)],
    flatpak: bool,
    in_library: bool,
    out: Vec<MenuItem>,
)
    requires
        call_ensures(items_for, (windows, flatpak, in_library), out),
    ensures
        ({
            let n = windows@.len() as int;
            let closing = if n > 0 {
                1int
            } else {
                0int
            };
            &&& out@.len() == n + 2 + closing + if flatpak {
                1int
            } else {
                0int
            }
            &&& forall|i: int|
                0 <= i < n ==> (#[trigger] out@[i]).action == MenuAction::Open(windows@[i].0)
            &&& forall|i: int|
                0 <= i < n && n > 1 && windows@[i].1@.len() > 0 ==> (#[trigger] out@[i]).label@
                    == windows@[i].1@
            &&& out@[n].action == MenuAction::NewWindow && out@[n].label@ == "New window"@
            &&& n > 0 ==> out@[n + 1].action == MenuAction::CloseAll
            &&& n == 1 ==> out@[0].label@ == "Open"@ && out@[2].label@ == "Close"@
            &&& n > 1 ==> out@[n + 1].label@ == "Close all"@
            &&& out@[n + 1 + closing].action == if in_library {
                MenuAction::AddToHome
            } else {
                MenuAction::Remove
            }
            &&& flatpak ==> out@.last().action == MenuAction::Uninstall
            &&& forall|i: int|
                0 <= i < out@.len() ==> (#[trigger] out@[i]).action != MenuAction::UninstallConfirm
        }),
{
    let ws = windows@;
    let rows = row_views(out@);
    let n = ws.len() as int;
    law_rows_fit_the_icon(ws, flatpak, in_library);
    assert forall|i: int| 0 <= i < out@.len() implies (#[trigger] out@[i]).action == rows[i].0
        && out@[i].label@ == rows[i].1 by {}
    assert forall|i: int| 0 <= i < n implies (#[trigger] out@[i]).action == MenuAction::Open(ws[i].0) by {
        law_every_window_has_a_row(ws, flatpak, in_library, i);
    }
    assert forall|i: int| 0 <= i < n && n > 1 && ws[i].1@.len() > 0 implies (#[trigger] out@[i]).label@
        == ws[i].1@ by {
        law_windows_go_by_their_titles(ws, flatpak, in_library, i);
    }
    assert forall|i: int| 0 <= i < out@.len() implies (#[trigger] out@[i]).action
        != MenuAction::UninstallConfirm by {
        law_no_single_tap_deletes(ws, flatpak, in_library, i);
    }
}

/// The rows that take something away are marked, and no others.
pub proof fn law_destructive_rows_take_away(a: MenuAction, r: bool)
    requires
        call_ensures(MenuAction::is_destructive, (a,), r),
    ensures
        r <==> a == MenuAction::CloseAll || a == MenuAction::Remove || a == MenuAction::Uninstall || a
            == MenuAction::UninstallConfirm,
{
}

/// The package of an app is the one that the catalog names for its id; an app that
/// the catalog does not list has none.
pub proof fn law_package_is_that_of_the_app(
    catalog: &Vec<InstalledApp>,
    id: &str,
    r: Option<String>,
    is: bool,
    i: int,
)
    requires
        call_ensures(flatpak_ref, (catalog, id), r),
        call_ensures(is_flatpak, (catalog, id), is),
        0 <= i < catalog@.len(),
    ensures
        is <==> r is Some,
        catalog@[i].id@ == id@ && (forall|j: int|
            0 <= j < catalog@.len() && j != i ==> (#[trigger] catalog@[j]).id@ != id@) ==> text_of(r)
            == text_of(catalog@[i].flatpak),
        (forall|j: int| 0 <= j < catalog@.len() ==> (#[trigger] catalog@[j]).id@ != id@) ==> r is None,
{
    law_app_is_found_by_its_id(catalog@, id@);
}

/// Closing an app detaches its windows, each in its turn, behind what was asked for
/// before.
pub proof fn law_every_window_is_detached(out: &mut Vec<MenuStep>, instances: &Vec<ToplevelId>, k: int)
    requires
        call_ensures(close_all, (out, instances), ()),
        0 <= k < instances@.len(),
    ensures
        final(out)@.len() == old(out)@.len() + instances@.len(),
        final(out)@[old(out)@.len() + k] == MenuStep::Detach(instances@[k]),
{
    let before = step_views(old(out)@);
    let after = step_views(final(out)@);
    assert(after.len() == final(out)@.len());
    assert(before.len() == old(out)@.len());
    assert(after[old(out)@.len() + k] == detaching(instances@)[k]);
    assert(after[old(out)@.len() + k] == step_view(final(out)@[old(out)@.len() + k]));
}

} // verus!
