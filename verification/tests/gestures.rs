//! What presses, movements and releases lead to.
use springchick::app_history::AppHistory;
use springchick::arrange::{
    dock_targets, list_places_in, maybe_engage_arrange_hold, reflow, reflow_targets,
    tick_edge_page_flip, working_order, ArrangeState, DragItem, EdgeSide, IconPress, Lifted,
    EDGE_DWELL, HOLD, HOLE,
};
use springchick::input_common::{
    after_pin, cross_gestures, motion_dt, neighbours, on_motion, on_press, on_release,
    refresh_page_count, release_grab, release_rest, settle_quick_switch, BarRelease, CardDrag,
    DeckHit, DeckReading, Gestures, InputStep, MenuHit, MenuPress, MotionReading, PressReading,
    QuickRelease, ReleaseReading, Stage, SwitcherDrag, SHORTEST_MOTION,
};
use springchick::input_dispatch::{
    home_press, on_move, resolve_drop, DownAction, DropAction, Hit, IconSource,
};
use springchick::kbd_switch::{
    focused_card, live_deck, open_focused_card, poll_kbd_switch, switcher_release, switcher_step, KbdSwitch, SwitchStep,
};
use springchick::library::{
    close_folder, folder_live, folder_motion, folder_press, folder_release, library_page,
    library_press, on_library_page, page_count_of, FolderDrag, FolderStep, FolderSurroundings,
    OpenFolder, PanelHit,
};
use springchick::time::{MILLI, SECOND};
use springchick::ui_state::{NavTarget, UiEvent, UiKind};

/// A press, as the page sees it.
fn press(ui: UiKind, hit: Hit) -> DownAction {
    springchick::input_dispatch::on_press(ui, hit, false)
}

#[test]
fn press_on_icon_arms_pending_not_launch() {
    match press(UiKind::Home, Hit::GridIcon(0)) {
        DownAction::PressIcon { app, source: _ } => assert_eq!(app, 0),
        other => panic!("expected PressIcon, got {other:?}"),
    }
}

#[test]
fn press_on_empty_starts_page_drag() {
    assert!(matches!(
        press(UiKind::Home, Hit::Miss),
        DownAction::StartPageDrag
    ));
}

#[test]
fn press_on_icon_while_closing_launches_it() {
    match press(UiKind::AppClosing, Hit::GridIcon(0)) {
        DownAction::PressIcon { app, .. } => assert_eq!(app, 0),
        other => panic!("expected PressIcon, got {other:?}"),
    }
}

#[test]
fn press_on_icon_while_settling_home_launches_it() {
    match press(UiKind::Settling(NavTarget::Home), Hit::GridIcon(0)) {
        DownAction::PressIcon { app, .. } => assert_eq!(app, 0),
        other => panic!("expected PressIcon, got {other:?}"),
    }
}

#[test]
fn press_off_icon_while_closing_interrupts() {
    assert!(matches!(
        press(UiKind::AppClosing, Hit::Miss),
        DownAction::Event(UiEvent::Interrupt)
    ));
}

#[test]
fn press_on_icon_while_settling_back_to_app_interrupts() {
    assert!(matches!(
        press(UiKind::Settling(NavTarget::BackToApp), Hit::GridIcon(0)),
        DownAction::Event(UiEvent::Interrupt)
    ));
}

#[test]
fn the_bar_of_an_app_is_grabbed() {
    assert_eq!(
        springchick::input_dispatch::on_press(UiKind::App, Hit::Miss, true),
        DownAction::Event(UiEvent::GrabStart)
    );
    assert_eq!(press(UiKind::App, Hit::Miss), DownAction::Ignore);
    assert_eq!(on_move(UiKind::Grabbing), Some(UiEvent::GrabMove));
    assert_eq!(on_move(UiKind::Home), None);
    assert_eq!(
        home_press(Hit::DockIcon(3)),
        DownAction::PressIcon {
            app: 3,
            source: IconSource::Dock
        }
    );
    assert_eq!(home_press(Hit::Bar), DownAction::StartBarDrag);
}

#[test]
fn resolve_drop_grid_over_dock_is_pin() {
    assert_eq!(
        resolve_drop(IconSource::Grid, true, 0, 0, 0),
        DropAction::Pin
    );
}

#[test]
fn resolve_drop_dock_over_grid_is_reorder() {
    assert_eq!(
        resolve_drop(IconSource::Dock, false, 0, 1, 3),
        DropAction::Reorder { page: 0, index: 1 },
    );
}

#[test]
fn resolve_drop_grid_over_grid_is_reorder() {
    assert_eq!(
        resolve_drop(IconSource::Grid, false, 0, 2, 5),
        DropAction::Reorder { page: 0, index: 2 },
    );
}

#[test]
fn resolve_drop_reorder_clamps_to_page_len() {
    assert_eq!(
        resolve_drop(IconSource::Grid, false, 0, 10, 3),
        DropAction::Reorder { page: 0, index: 3 },
    );
}

#[test]
fn a_dock_icon_dropped_on_the_dock_snaps_back() {
    assert_eq!(
        resolve_drop(IconSource::Dock, true, 0, 0, 0),
        DropAction::SnapBack
    );
    assert_eq!(
        resolve_drop(IconSource::Library, true, 0, 0, 0),
        DropAction::Pin
    );
}

fn strings(items: &[&str]) -> Vec<String> {
    items.iter().map(|s| s.to_string()).collect()
}

#[test]
fn working_order_opens_hole_at_hover() {
    let pages = vec![vec!["a".to_string(), "b".into(), "c".into(), "d".into()]];
    let out = working_order(&pages, "a", Some((0, 2)));
    assert_eq!(
        out[0],
        vec!["b".to_string(), "c".into(), HOLE.to_string(), "d".into()]
    );
}

#[test]
fn working_order_no_hole_when_hover_none() {
    let pages = vec![vec!["a".to_string(), "b".into(), "c".into()]];
    let out = working_order(&pages, "a", None);
    assert_eq!(out[0], vec!["b".to_string(), "c".into()]);
}

#[test]
fn reflow_targets_maps_pages_and_excludes_dock() {
    let pages = two_pages();
    let t = reflow_targets(&pages, None);
    assert_eq!(t.len(), 25);
    let page_of = |app: &str| t.iter().find(|s| s.app_id == app).map(|s| (s.page, s.index));
    assert_eq!(page_of(&pages[1][0]), Some((1, 0)));
    assert_eq!(page_of(&pages[0][0]), Some((0, 0)));
    assert_eq!(page_of(&pages[0][23]), Some((0, 23)));
    let docked = dock_targets(&strings(&["phone"]), None);
    assert_eq!(page_of(&docked[0]), None);
}

/// As many icons as fill a page, and one more.
fn two_pages() -> Vec<Vec<String>> {
    let first = (0..24).map(|i| format!("app{i:02}")).collect();
    vec![first, strings(&["app24"])]
}

#[test]
fn an_icon_in_the_air_has_no_slot() {
    let pages = two_pages();
    let held = reflow_targets(
        &pages,
        Some(Lifted {
            app_id: "app00",
            hover: Some((0, 1)),
        }),
    );
    assert!(!held.iter().any(|s| s.app_id == "app00" || s.app_id == HOLE));
    assert!(held.iter().any(|s| s.app_id == "app02" && s.index == 2));
}

#[test]
fn springs_are_kept_seeded_or_dropped() {
    let r = reflow(&strings(&["a", "b"]), &strings(&["b", "c"]));
    assert_eq!((r.retarget, r.seed, r.drop), (vec![0], vec![1], vec![0]));
    assert_eq!(
        dock_targets(&strings(&["a", "b"]), Some("a")),
        strings(&["b"])
    );
    assert_eq!(dock_targets(&strings(&["a"]), None), strings(&["a"]));
    assert_eq!(
        list_places_in(&strings(&["a", "b"]), &strings(&["b"]), true),
        [1]
    );
}

fn icon_press(at: u128) -> IconPress {
    IconPress {
        app: 4,
        source: IconSource::Grid,
        at,
    }
}

#[test]
fn a_long_press_picks_the_icon_up() {
    let p = Some(icon_press(SECOND));
    assert!(maybe_engage_arrange_hold(false, true, p, SECOND + HOLD - 1).is_none());
    let a = maybe_engage_arrange_hold(false, true, p, SECOND + HOLD).unwrap();
    assert_eq!(a.drag.unwrap().app, 4);
    assert!(maybe_engage_arrange_hold(true, true, p, SECOND + HOLD).is_none());
    assert!(maybe_engage_arrange_hold(false, false, p, SECOND + HOLD).is_none());
    assert!(maybe_engage_arrange_hold(false, true, None, SECOND + HOLD).is_none());
}

fn dragged() -> Option<DragItem> {
    Some(DragItem {
        app: 4,
        source: IconSource::Grid,
        hover: None,
        edge_since: None,
    })
}

#[test]
fn dwelling_at_an_edge_flips_the_page_again_and_again() {
    let mut drag = dragged();
    let mut pages = vec![strings(&["a"]), strings(&["b"])];
    let right = Some(EdgeSide::Right);
    assert!(tick_edge_page_flip(&mut drag, right, 0, 0, &mut pages).is_none());
    assert!(tick_edge_page_flip(&mut drag, right, EDGE_DWELL - 1, 0, &mut pages).is_none());
    let flip = tick_edge_page_flip(&mut drag, right, EDGE_DWELL, 0, &mut pages).unwrap();
    assert_eq!(flip.page, 1);
    assert!(tick_edge_page_flip(&mut drag, right, EDGE_DWELL + 1, 1, &mut pages).is_none());
    assert!(tick_edge_page_flip(&mut drag, None, 2 * EDGE_DWELL, 1, &mut pages).is_none());
    assert!(drag.unwrap().edge_since.is_none());
}

#[test]
fn the_library_is_the_last_page() {
    assert_eq!(page_count_of(3), 4);
    assert_eq!(page_count_of(0), 2);
    assert_eq!(library_page(3), 3);
    assert!(on_library_page(Some(3), 3));
    assert!(!on_library_page(Some(2), 3));
    assert!(!on_library_page(None, 3));
}

#[test]
fn a_member_of_a_folder_is_launched_on_release() {
    let mut folder = Some(OpenFolder::new(2));
    let mut armed = None;
    let hit = Some(PanelHit::App { index: 1, app: 7 });
    assert_eq!(
        folder_press(&mut folder, &mut armed, hit, SECOND),
        Some(vec![FolderStep::Redraw])
    );
    assert_eq!(armed.unwrap().source, IconSource::Library);
    assert_eq!(
        folder_release(&mut folder, &mut armed, Some(7), true),
        Some(vec![
            FolderStep::Shrink,
            FolderStep::Redraw,
            FolderStep::Launch(7),
            FolderStep::Redraw
        ])
    );
    assert!(!folder_live(&folder));
    assert!(armed.is_none());
    // A folder that closes takes no more part.
    assert!(folder_press(&mut folder, &mut armed, hit, SECOND).is_none());
}

#[test]
fn a_press_outside_closes_the_folder() {
    let mut folder = Some(OpenFolder::new(0));
    let mut armed = None;
    let steps = folder_press(&mut folder, &mut armed, Some(PanelHit::Outside), 0).unwrap();
    assert_eq!(steps, [FolderStep::Shrink, FolderStep::Redraw]);
    assert!(!folder_live(&folder));
    let mut none = None;
    assert_eq!(close_folder(&mut none), [FolderStep::Redraw]);
}

#[test]
fn dragging_a_member_sideways_lifts_it_out() {
    let mut folder = Some(OpenFolder::new(0));
    let mut armed = None;
    let hit = Some(PanelHit::App { index: 1, app: 7 });
    folder_press(&mut folder, &mut armed, hit, 0);
    let mut around = FolderSurroundings {
        icon_press: armed,
        pending_folder: Some(3),
        arrange: None,
    };
    let scroll = folder_motion(&mut folder, &mut around, FolderDrag::Wobble, Some(7), true);
    assert_eq!(scroll, Some(vec![FolderStep::Scroll, FolderStep::Redraw]));
    folder_motion(&mut folder, &mut around, FolderDrag::Sideways, Some(7), true).unwrap();
    assert!(around.icon_press.is_none() && around.pending_folder.is_none());
    assert_eq!(
        around.arrange.unwrap().drag.unwrap().source,
        IconSource::Library
    );
    assert!(!folder_live(&folder));
}

#[test]
fn a_slanted_drag_beside_the_members_gives_up_the_press() {
    let mut folder = Some(OpenFolder::new(0));
    let mut armed = None;
    let hit = Some(PanelHit::App { index: 1, app: 7 });
    folder_press(&mut folder, &mut armed, hit, 0);
    let mut around = FolderSurroundings {
        icon_press: armed,
        pending_folder: None,
        arrange: None,
    };
    // The member is gone from the folder, so nothing can be lifted.
    let scroll = folder_motion(&mut folder, &mut around, FolderDrag::Slanted, None, true);
    assert_eq!(scroll, Some(vec![FolderStep::Scroll, FolderStep::Redraw]));
    assert!(around.icon_press.is_none());
    assert_eq!(folder.unwrap().pressed, None);
    assert!(folder_live(&folder));
    // With one under the finger it is lifted all the same.
    folder_press(&mut folder, &mut armed, hit, 0);
    folder_motion(&mut folder, &mut around, FolderDrag::Slanted, Some(7), true).unwrap();
    assert_eq!(around.arrange.unwrap().drag.unwrap().app, 7);
    assert!(!folder_live(&folder));
}

#[test]
fn a_tile_is_armed_only_on_the_library() {
    let mut pending = None;
    library_press(&mut pending, false, false, Some(2));
    library_press(&mut pending, true, true, Some(2));
    assert_eq!(pending, None);
    library_press(&mut pending, true, false, Some(2));
    assert_eq!(pending, Some(2));
}

fn at_rest() -> Gestures {
    Gestures {
        positioned: true,
        pointer_down: true,
        last_motion: None,
        menu: None,
        arrange: None,
        switcher_drag: SwitcherDrag::Idle,
        pending_launch: None,
        icon_press: None,
        bg_press: None,
        search_armed: false,
        page_drag: false,
        bar_drag: false,
    }
}

fn moved() -> MotionReading {
    MotionReading {
        menu_row: None,
        over_dock: false,
        page: 0,
        nearest: 0,
        live_len: 0,
        card_drag: CardDrag::Scroll,
        left_background: false,
        left_icon: false,
        pulls_down: false,
    }
}

fn pressed() -> PressReading {
    PressReading {
        menu: MenuHit::Outside,
        arrange: Hit::Miss,
        deck: DeckHit::Empty,
        home: Hit::Miss,
        on_bar: false,
    }
}

fn released() -> ReleaseReading {
    ReleaseReading {
        swiped: false,
        over_dock: false,
        page: 0,
        nearest: 0,
        page_len: 0,
        bar: BarRelease::Nowhere,
        front: None,
    }
}

#[test]
fn a_tap_on_an_icon_launches_it() {
    let mut g = at_rest();
    let r = PressReading {
        home: Hit::GridIcon(5),
        ..pressed()
    };
    on_press(&mut g, UiKind::Home, &r, SECOND);
    assert_eq!(g.pending_launch, Some(5));
    assert!(g.page_drag, "a swipe may still start on the icon");
    let (stage, steps) = on_release(&mut g, UiKind::Home, &released());
    assert_eq!(stage, Stage::Done);
    assert!(steps.contains(&InputStep::Launch(5)));
    assert!(!g.pointer_down);
    assert_eq!(g.pending_launch, None);
}

#[test]
fn a_swipe_from_an_icon_pages() {
    let mut g = at_rest();
    let r = PressReading {
        home: Hit::GridIcon(5),
        ..pressed()
    };
    on_press(&mut g, UiKind::Home, &r, SECOND);
    let away = MotionReading {
        left_icon: true,
        ..moved()
    };
    let (stage, steps) = on_motion(&mut g, UiKind::Home, &away, SECOND + MILLI);
    assert_eq!(stage, Stage::Fallthrough);
    assert!(steps.contains(&InputStep::FollowPage));
    let swiped = ReleaseReading {
        swiped: true,
        ..released()
    };
    let (stage, steps) = on_release(&mut g, UiKind::Home, &swiped);
    assert_eq!(stage, Stage::Fallthrough);
    assert!(!steps.contains(&InputStep::Launch(5)));
    let deck = DeckReading {
        tapped: false,
        closing: None,
        close_commits: false,
        card: None,
    };
    let (_, steps) = release_rest(&mut g, UiKind::Home, &deck);
    assert!(steps.contains(&InputStep::CommitPageSwipe));
}

#[test]
fn an_open_menu_owns_the_finger() {
    let mut g = Gestures {
        menu: Some(MenuPress {
            rows: 2,
            pressed: None,
        }),
        ..at_rest()
    };
    let r = PressReading {
        menu: MenuHit::Row(1),
        home: Hit::GridIcon(5),
        ..pressed()
    };
    on_press(&mut g, UiKind::Home, &r, SECOND);
    assert_eq!(g.pending_launch, None);
    assert_eq!(g.menu.unwrap().pressed, Some(1));
    let (stage, steps) = on_release(&mut g, UiKind::Home, &released());
    assert_eq!(stage, Stage::Done);
    assert!(steps.contains(&InputStep::RunMenuRow(1)));
}

#[test]
fn a_dropped_icon_is_moved_or_pinned() {
    let held = || Gestures {
        arrange: Some(ArrangeState {
            drag: dragged(),
            just_engaged: false,
        }),
        ..at_rest()
    };
    let mut g = held();
    let over = ReleaseReading {
        over_dock: true,
        ..released()
    };
    let (_, steps) = on_release(&mut g, UiKind::Home, &over);
    assert!(steps.contains(&InputStep::Pin(4)));
    let mut g = held();
    let grid = ReleaseReading {
        page: 1,
        nearest: 9,
        page_len: 3,
        ..released()
    };
    let (_, steps) = on_release(&mut g, UiKind::Home, &grid);
    assert!(steps.contains(&InputStep::MoveTo {
        app: 4,
        page: 1,
        index: 3
    }));
    assert_ne!(after_pin(true), after_pin(false));
}

#[test]
fn a_tapped_card_is_opened() {
    let mut g = Gestures {
        switcher_drag: SwitcherDrag::OnCard { toplevel: 3 },
        ..at_rest()
    };
    let d = DeckReading {
        tapped: true,
        closing: None,
        close_commits: false,
        card: Some(3),
    };
    let (stage, steps) = release_rest(&mut g, UiKind::Switcher, &d);
    assert_eq!(stage, Stage::Done);
    assert!(steps.contains(&InputStep::PushForeground(3)));
    assert!(steps.contains(&InputStep::Transition(UiEvent::SwitcherTapCard {
        toplevel: 3
    })));
}

#[test]
fn movements_are_never_taken_to_be_instant() {
    let mut last = None;
    let first = motion_dt(&mut last, SECOND);
    assert_eq!(first.parts as f32 / first.per_second as f32, 1.0 / 90.0);
    assert_eq!(last, Some(SECOND));
    let second = motion_dt(&mut last, SECOND);
    assert_eq!(
        (second.parts, second.per_second),
        (SHORTEST_MOTION, SECOND)
    );
    let third = motion_dt(&mut last, SECOND + 20 * MILLI);
    assert_eq!((third.parts, third.per_second), (20 * MILLI, SECOND));
}

#[test]
fn a_grab_that_goes_sideways_slides() {
    assert_eq!(
        cross_gestures(UiKind::Grabbing, true, false, false),
        [InputStep::EnterQuickSwitch, InputStep::UpdateQuickSwitch]
    );
    assert_eq!(
        cross_gestures(UiKind::QuickSwitch, false, true, false),
        [InputStep::RevertQuickSwitch]
    );
    assert!(cross_gestures(UiKind::Grabbing, false, false, false).is_empty());
    assert!(cross_gestures(UiKind::QuickSwitch, false, false, true).is_empty());
}

fn history() -> AppHistory {
    let mut h = AppHistory::new();
    h.push_foreground(0);
    h.push_foreground(1);
    h.push_foreground(2);
    h
}

#[test]
fn a_slide_goes_to_the_neighbour_it_reveals() {
    let mut h = history();
    assert_eq!(neighbours(&h, &vec![true, true, true]), (Some(1), None));
    assert_eq!(neighbours(&h, &vec![true, false, true]), (None, None));
    assert_eq!(
        settle_quick_switch(&mut h, Some(1), None, QuickRelease::Reject),
        None
    );
    assert_eq!(
        settle_quick_switch(&mut h, Some(1), None, QuickRelease::Commit { dir: 1 }),
        Some(1)
    );
    assert_eq!(h.deck_order()[0], 1);
}

#[test]
fn a_released_grab_settles_where_it_aims() {
    let mut h = history();
    let steps = release_grab(
        UiKind::Grabbing,
        NavTarget::Home,
        &mut h,
        &vec![true, true, true],
        2,
    );
    assert!(!steps.is_empty());
    assert!(release_grab(
        UiKind::Home,
        NavTarget::Home,
        &mut h,
        &vec![true, true, true],
        2
    )
    .is_empty());
}

#[test]
fn page_counts_follow_the_pages() {
    assert_eq!(
        refresh_page_count(UiKind::Home, 3),
        [InputStep::PageCount(4)]
    );
    assert!(refresh_page_count(UiKind::App, 3).is_empty());
}

#[test]
fn the_keyboard_walks_the_deck() {
    let mut session = None;
    assert_eq!(
        switcher_step(&mut session, UiKind::App, 2, 1),
        [
            SwitchStep::Transition(UiEvent::OpenSwitcherFromApp),
            SwitchStep::Redraw
        ]
    );
    let rising = UiKind::Settling(NavTarget::Switcher);
    switcher_step(&mut session, rising, 2, 1);
    assert_eq!(
        session,
        Some(KbdSwitch {
            pending: 2,
            commit: false
        })
    );
    assert!(switcher_release(&mut session, rising).is_empty());
    assert_eq!(
        poll_kbd_switch(&mut session, UiKind::Switcher),
        [
            SwitchStep::Transition(UiEvent::SwitcherStep { delta: 2 }),
            SwitchStep::OpenFocusedCard
        ]
    );
    assert_eq!(session, None);
    assert_eq!(
        switcher_step(&mut session, UiKind::Home, 0, 1),
        [SwitchStep::Transition(UiEvent::HomeBounce)]
    );
    assert_eq!(session, None);
}

#[test]
fn the_card_in_front_is_opened() {
    assert_eq!(live_deck(&vec![2, 0, 1], &vec![true, false, true]), [2, 0]);
    assert_eq!(focused_card(&vec![2, 0], -3), Some(0));
    assert_eq!(focused_card(&vec![2, 0], 1), Some(1));
    assert_eq!(focused_card(&vec![2, 0], 9), Some(1));
    assert_eq!(focused_card(&vec![], 0), None);
    assert_eq!(
        open_focused_card(&vec![2, 0], 9),
        [
            InputStep::PushForeground(0),
            InputStep::Transition(UiEvent::SwitcherTapCard { toplevel: 0 }),
            InputStep::Redraw,
        ]
    );
    assert!(open_focused_card(&vec![], 0).is_empty());
}
