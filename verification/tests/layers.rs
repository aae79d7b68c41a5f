//! The shell's own surfaces, scenes, and what a frame asks for.
use springchick::background_effect::{blur_rects, has_blur_region, RegionRect, SurfaceSize};
use springchick::bar_hint::{BarHint, BarMode};
use springchick::debug_input::Control;
use springchick::frame::{
    advance_frame, advance_springs, after_tick, bar_fading, begin_frame, draw_ctx, is_animating, layers_dump,
    finish_frame, is_app_rooted, layer_origin, popup_target, prepare_frame, sync_launch_pulses,
    sync_running_apps, Effect, EffectStep, FrameSituation, LayerAt, Space,
    FrameStep, Launching, OtherMotion, PopupInfo, TickStep, Unseeded,
};
use springchick::handlers::{
    after_commit, capture_constraints, new_session, CommitStep, PopupGrabs,
};
use springchick::input_common::{Gestures, MenuPress, SwitcherDrag};
use springchick::layer_shell::{
    flapped, hit_test, render_lists, Area, Commit, Layer, LayerShell, RegrowGuard, FLAP_HOLD,
    FLAP_LIMIT, FLAP_WINDOW, REGROW_DELAY, SLIDE,
};
use springchick::osd::Osd;
use springchick::rotation::{DeviceOrientation, Fade, Rotation, Settle};
use springchick::scene::{
    back_to_front, compute_scene, fan, pair, Card, CardPlan, HomeMove, OpenMode, Pose, Shown, Slide,
};
use springchick::session_lock::{LockView, SessionLock};
use springchick::time::{MILLI, SECOND};
use springchick::ui_state::NavTarget;

#[test]
fn brief_unmap_never_grows_the_app() {
    let mut g = RegrowGuard::default();
    assert!(!g.allow_grow(), "first ask starts the debounce");
    g.tick(REGROW_DELAY / 2);
    assert!(!g.allow_grow());
    g.resolved();
    g.tick(SECOND);
    assert!(!g.allow_grow(), "a later unmap starts a fresh debounce");
}

#[test]
fn settled_unmap_grows_after_the_delay() {
    let mut g = RegrowGuard::default();
    assert!(!g.allow_grow());
    g.tick(REGROW_DELAY + 10 * MILLI);
    assert!(g.allow_grow());
}

#[test]
fn flap_latch_refuses_grows_then_releases() {
    let mut g = RegrowGuard::default();
    g.latch();
    for _ in 0..20 {
        g.tick(FLAP_HOLD / 20);
        assert!(!g.allow_grow(), "latched");
    }
    assert!(g.holding());
    g.tick(100 * MILLI);
    assert!(!g.allow_grow());
    g.tick(REGROW_DELAY + 10 * MILLI);
    assert!(g.allow_grow());
    g.resolved();
    assert!(!g.holding());
}

#[test]
fn flap_trips_only_on_a_fast_burst() {
    let mut events = Vec::new();
    let mut t = 0;
    for _ in 0..10 {
        t += FLAP_WINDOW + 100 * MILLI;
        assert!(!flapped(&mut events, t));
    }
    for i in 2..FLAP_LIMIT {
        assert!(
            !flapped(&mut events, t + i as u128 * 100 * MILLI),
            "map {i}"
        );
    }
    assert!(flapped(
        &mut events,
        t + (FLAP_LIMIT - 1) as u128 * 100 * MILLI
    ));
    assert!(!flapped(&mut events, t + 10 * SECOND));
}

#[test]
fn a_smaller_space_is_applied_at_once() {
    let mut g = RegrowGuard::default();
    assert!(!g.usable_changed(true, true));
    assert!(g.usable_changed(true, false));
    assert!(!g.usable_changed(false, false));
}

fn area(y: f32, h: f32) -> Area {
    Area {
        x: 0.0f32.to_bits(),
        y: y.to_bits(),
        w: 1080.0f32.to_bits(),
        h: h.to_bits(),
    }
}

fn screen() -> LayerShell {
    LayerShell::new(1080.0f32.to_bits(), 2400.0f32.to_bits())
}

#[test]
fn the_apps_start_with_the_whole_screen() {
    let mut layers = screen();
    assert_eq!(layers.last_usable, area(0.0, 2400.0));
    assert_eq!(layers.output_h, 2400.0f32.to_bits());
    assert_eq!(layers.usable_changed(area(0.0, 2400.0)), None);
    assert_eq!(layers.usable_changed(area(-0.0, 2400.0)), None);
    assert!(!layers.regrow_pending());
}

#[test]
fn only_a_taller_area_waits() {
    let mut layers = screen();
    let less = area(0.0, 1600.0);
    let more = area(0.0, 2400.0);
    assert_eq!(layers.usable_changed(less), Some(less));
    assert_eq!(layers.usable_changed(less), None);
    assert_eq!(layers.usable_changed(more), None);
    assert!(layers.regrow_pending());
    assert_eq!(layers.last_usable, less);
    layers.tick_slides(REGROW_DELAY);
    assert_eq!(layers.last_usable, less);
    assert_eq!(layers.usable_changed(more), Some(more));
    assert_eq!(layers.last_usable, more);
    assert!(!layers.regrow_pending());
    let lower = area(40.0, 2400.0);
    assert_eq!(layers.usable_changed(lower), Some(lower));
}

#[test]
fn a_keyboard_that_comes_back_drops_the_growth() {
    let mut layers = screen();
    let less = area(0.0, 1600.0);
    let least = area(0.0, 1500.0);
    assert_eq!(layers.usable_changed(less), Some(less));
    assert_eq!(layers.usable_changed(area(0.0, 2400.0)), None);
    assert_eq!(layers.usable_changed(least), Some(least));
    assert!(!layers.regrow_pending());
}

#[test]
fn a_surface_slides_in_when_it_arrives() {
    let mut layers = screen();
    layers.new_surface(1);
    assert_eq!(layers.handle_commit(9, true, true), Commit::Foreign);
    assert_eq!(layers.handle_commit(1, false, false), Commit::Configure);
    assert_eq!(layers.handle_commit(1, true, true), Commit::Mapped);
    assert!(layers.is_mapped_layer(Some(1)));
    assert!(!layers.is_mapped_layer(Some(9)));
    assert!(!layers.is_mapped_layer(None));
    assert!(layers.sliding());
    assert_eq!(layers.handle_commit(1, true, true), Commit::Redrawn);
    assert!(layers.tick_slides(SLIDE / 2));
    assert!(!layers.tick_slides(SLIDE));
    assert!(!layers.sliding());
    assert_eq!(layers.handle_commit(1, false, true), Commit::Unmapped);
    assert!(!layers.is_mapped_layer(Some(1)));
    assert!(layers.destroyed(1));
    assert!(!layers.destroyed(1));
}

#[test]
fn surfaces_are_drawn_below_and_above_the_app() {
    let all = vec![
        Layer::Overlay,
        Layer::Background,
        Layer::Top,
        Layer::Bottom,
    ];
    assert_eq!(render_lists(&all), (vec![1, 3], vec![2, 0]));
    assert_eq!(hit_test(&all, &vec![true, true, true, true]), Some(0));
    assert_eq!(hit_test(&all, &vec![false, true, true, true]), Some(2));
    assert_eq!(hit_test(&all, &vec![false; 4]), None);
}

#[test]
fn home_state_no_window() {
    let scene = compute_scene(&Shown::Home { page: 0 });
    assert!(scene.window.is_none());
    assert!(scene.show_home);
}

#[test]
fn zoom_open_leaves_home_where_it_is() {
    let zoom = compute_scene(&Shown::AppOpening {
        toplevel: 1,
        mode: OpenMode::Zoom,
    });
    assert_eq!(zoom.home_move, HomeMove::Still);
    let slide = compute_scene(&Shown::AppOpening {
        toplevel: 1,
        mode: OpenMode::SlideFromLeft,
    });
    assert_eq!(slide.home_move, HomeMove::SlideOut);
}

#[test]
fn app_state_fullscreen() {
    let scene = compute_scene(&Shown::App { toplevel: 0 });
    assert_eq!(scene.window, Some(0));
    assert_eq!(scene.pose, Pose::Fullscreen);
    assert!(!scene.show_home);
}

#[test]
fn grabbing_band_b_unfolds_live_fan() {
    let scene = compute_scene(&Shown::Grabbing {
        toplevel: 7,
        previews: true,
        windows: 3,
        lifted: true,
    });
    assert!(scene.window.is_none(), "fan uses the card path, not window");
    assert_eq!(scene.cards, CardPlan::Fan { front: 7 });
    let cards = fan(
        &vec![
            Card { toplevel: 3, z: 2 },
            Card { toplevel: 1, z: 1 },
        ],
        7,
    );
    assert_eq!(cards.len(), 3, "front + two neighbours");
    let front = cards.iter().max_by_key(|c| c.z).unwrap();
    assert_eq!(front.toplevel, 7);
}

#[test]
fn grabbing_band_a_keeps_single_window() {
    let scene = compute_scene(&Shown::Grabbing {
        toplevel: 7,
        previews: false,
        windows: 3,
        lifted: true,
    });
    assert!(scene.window.is_some());
    assert_eq!(scene.cards, CardPlan::Nothing);
}

#[test]
fn a_slide_shows_the_neighbour_it_reveals() {
    let scene = compute_scene(&Shown::QuickSwitch {
        current: 1,
        prev: Some(2),
        next: Some(3),
        slide: Slide::Left,
    });
    assert_eq!(
        scene.cards,
        CardPlan::Pair {
            behind: Some(3),
            front: 1
        }
    );
    let cards = pair(Some(3), 1);
    assert_eq!(cards.len(), 2);
    assert!(cards[0].toplevel == 3 && cards[1].toplevel == 1);
    assert_eq!(pair(None, 1).len(), 1);
}

#[test]
fn switcher_scene_has_cards_back_to_front() {
    let scene = compute_scene(&Shown::Switcher);
    assert!(scene.show_home);
    assert!(scene.window.is_none());
    assert_eq!(scene.cards, CardPlan::Deck);
    let cards = back_to_front(&vec![
        Card { toplevel: 0, z: 0 },
        Card { toplevel: 1, z: -1 },
        Card { toplevel: 2, z: -2 },
    ]);
    assert_eq!(cards.len(), 3);
    assert!(cards[0].z < cards[1].z);
    assert!(cards[1].z < cards[2].z);
}

#[test]
fn going_back_to_the_app_shows_no_home() {
    let scene = compute_scene(&Shown::Settling {
        toplevel: 5,
        target: NavTarget::BackToApp,
        windows: 2,
    });
    assert_eq!(scene.pose, Pose::Return);
    assert!(!scene.show_home);
}

fn at_rest() -> Gestures {
    Gestures {
        positioned: true,
        pointer_down: false,
        last_motion: None,
        menu: None,
        arrange: None,
        switcher_drag: SwitcherDrag::Idle,
        pending_launch: None,
        icon_press: None,
        bg_press: None,
        search_armed: false,
        page_drag: false,
        bar_drag: false,
    }
}

fn animating(m: &OtherMotion, lock: &SessionLock, osd: &Osd) -> bool {
    is_animating(
        m,
        osd,
        &BarHint::new(),
        &screen(),
        lock,
        &at_rest(),
        &Control::new(),
        &Settle::new(0, DeviceOrientation::Normal),
        &Fade::new(0),
        SECOND,
    )
}

#[test]
fn a_screen_at_rest_draws_nothing() {
    let still = OtherMotion {
        needs_render: false,
        ui: false,
        launching: false,
        bar_covered_or_not: false,
        menu: false,
        grid: false,
        dock: false,
    };
    let mut lock = SessionLock::new();
    let mut osd = Osd::new();
    assert!(!animating(&still, &lock, &osd));
    assert!(animating(
        &OtherMotion {
            needs_render: true,
            ..still
        },
        &lock,
        &osd
    ));
    osd.show(0, false, SECOND);
    assert!(animating(&still, &lock, &osd));
    osd.shown_at = None;
    lock.lock();
    assert!(animating(&still, &lock, &osd));
}

#[test]
fn a_frame_confirms_the_lock_and_moves_what_moves() {
    let mut lock = SessionLock::new();
    lock.lock();
    let mut g = at_rest();
    let mut layers = screen();
    let none = Unseeded {
        grid: false,
        dock: false,
    };
    let begin = [FrameStep::TickRotation, FrameStep::MaybeOpenIconMenu];
    assert_eq!(begin_frame(&mut lock, &mut g, SECOND), begin);
    let second = begin_frame(&mut lock, &mut g, SECOND);
    assert_eq!(second[0], FrameStep::ConfirmLock);
    assert_eq!(second[1..], begin);
    let still = advance_frame(&g, &mut layers, &none, 16 * MILLI);
    assert_eq!(still, [FrameStep::TickEdgeFlip]);
    let seeding = Unseeded {
        grid: true,
        dock: true,
    };
    assert_eq!(
        advance_frame(&g, &mut layers, &seeding, 16 * MILLI),
        [
            FrameStep::ReflowGrid,
            FrameStep::ReflowDock,
            FrameStep::TickEdgeFlip
        ]
    );
    assert!(advance_springs(&layers).contains(&FrameStep::TickUi));
    assert_eq!(
        after_tick(Effect::CloseToplevel(3)),
        EffectStep::Close(3)
    );
    assert_eq!(after_tick(Effect::Nothing), EffectStep::Nothing);
}

#[test]
fn a_menu_opens_further_on_the_frame_that_opens_it() {
    let mut lock = SessionLock::new();
    let mut g = at_rest();
    let mut layers = screen();
    let none = Unseeded {
        grid: false,
        dock: false,
    };
    let begin = begin_frame(&mut lock, &mut g, SECOND);
    assert_eq!(begin.last(), Some(&FrameStep::MaybeOpenIconMenu));
    g.menu = Some(MenuPress {
        rows: 2,
        pressed: None,
    });
    assert_eq!(
        advance_frame(&g, &mut layers, &none, 16 * MILLI),
        [FrameStep::StepMenu, FrameStep::TickEdgeFlip]
    );
}

#[test]
fn the_scene_shows_what_the_tick_led_to() {
    let rest = [
        TickStep::PollKbdSwitch,
        TickStep::RefreshPageCount,
        TickStep::ComputeScene,
    ];
    assert_eq!(finish_frame(Effect::Nothing), rest);
    let closing = finish_frame(Effect::CloseToplevel(3));
    assert_eq!(closing[0], TickStep::Apply(EffectStep::Close(3)));
    assert_eq!(closing[1..], rest);
    let deck = finish_frame(Effect::EnterSwitcher);
    assert_eq!(deck[0], TickStep::Apply(EffectStep::ShowDeck));
}

#[test]
fn a_popup_gets_the_space_of_what_it_hangs_on() {
    let app = Space {
        x: 0,
        y: 40,
        w: 1080,
        h: 2300,
    };
    let whole = Space {
        x: 0,
        y: 0,
        w: 1080,
        h: 2400,
    };
    let output = (1080, 2400);
    let layers = vec![
        LayerAt {
            surface: 5,
            origin: (0, 1800),
        },
        LayerAt {
            surface: 5,
            origin: (1, 1),
        },
    ];
    assert!(is_app_rooted(Some(3), Some(3)));
    assert!(!is_app_rooted(Some(5), Some(3)));
    assert!(!is_app_rooted(None, None));
    assert_eq!(layer_origin(&layers, Some(5)), Some((0, 1800)));
    assert_eq!(layer_origin(&layers, Some(3)), None);
    assert_eq!(layer_origin(&layers, None), None);
    assert_eq!(
        popup_target(true, app, output, Some((0, 1800))),
        (app, (0, 40))
    );
    assert_eq!(
        popup_target(false, app, output, Some((0, 1800))),
        (whole, (0, 1800))
    );
    assert_eq!(popup_target(false, app, output, None), (whole, (0, 0)));
}

#[test]
fn a_frame_is_drawn_from_what_is_there() {
    let s = FrameSituation {
        window: Some(1),
        cursor_overlay: true,
        cursor_visible: false,
        pointer: None,
        lock_surface_alive: false,
        show_touches: true,
        touches_active: true,
    };
    let prep = prepare_frame(
        &s,
        &vec![true, false],
        &Osd::new(),
        &SessionLock::new(),
        SECOND,
    );
    assert_eq!(prep.app_surface, None);
    assert!(prep.osd.is_none() && prep.cursor.is_none());
    assert_eq!(prep.lock_view, LockView::Unlocked);
    assert!(prep.touches_fade);
    let ctx = draw_ctx(&at_rest(), false, SECOND, 11 * 1_000_000);
    assert!(ctx.arrange.is_none());
    assert_eq!(ctx.frame_target, SECOND + 11 * MILLI);
}

#[test]
fn a_fading_pill_keeps_frames_coming() {
    let mut hint = BarHint::new();
    assert!(!bar_fading(false, &hint, SECOND));
    assert!(bar_fading(true, &hint, SECOND));
    hint.set_mode(BarMode::Auto, SECOND);
    assert!(bar_fading(false, &hint, SECOND));
}

#[test]
fn a_dot_means_a_window() {
    let mut running = vec!["gone".to_string(), "maps".to_string()];
    let windows = vec![
        Some("maps".to_string()),
        None,
        Some("foot".to_string()),
        Some("search".to_string()),
        Some("foot".to_string()),
    ];
    sync_running_apps(&mut running, &windows, "search");
    running.sort();
    assert_eq!(running, ["foot", "maps"]);
}

#[test]
fn an_icon_pulses_while_its_app_starts() {
    let mut pulses = Vec::new();
    let launching = vec![Launching {
        app_id: "maps".to_string(),
        started: SECOND,
    }];
    sync_launch_pulses(&mut pulses, &launching, 3 * SECOND);
    assert_eq!(pulses.len(), 1);
    assert_eq!(pulses[0].elapsed, 2 * SECOND);
    sync_launch_pulses(&mut pulses, &vec![], 4 * SECOND);
    assert!(pulses.is_empty());
}

#[test]
fn surfaces_are_reported() {
    let report = layers_dump(
        (1080, 2400),
        "3",
        "0,0 1080x2400",
        Rotation::Portrait,
        &vec!["layer one".to_string()],
        &vec![PopupInfo {
            x: -1,
            y: 2,
            w: 3,
            h: 4,
            buffer: None,
        }],
    );
    assert!(report.contains("1080"));
    assert!(report.contains("layer one"));
    assert!(report.contains("-1"));
}

#[test]
fn blur_is_clipped_to_the_surface() {
    let rect = |x, y, w, h, adds| RegionRect { x, y, w, h, adds };
    let out = blur_rects(
        &vec![rect(-10, 5, 50, 50, true), rect(200, 0, 10, 10, true)],
        Some(SurfaceSize { w: 100, h: 30 }),
    );
    assert_eq!(out, [rect(0, 5, 40, 25, true)]);
    assert!(has_blur_region(&Some(vec![rect(0, 0, 1, 1, true)])));
    assert!(!has_blur_region(&None));
}

#[test]
fn a_commit_of_the_app_in_front_may_end_a_turn() {
    assert_eq!(
        after_commit(5, true, Some(5)),
        [
            CommitStep::NeedsRender,
            CommitStep::CommitPopups,
            CommitStep::RecomputeLayers,
            CommitStep::LogSize,
            CommitStep::RefreshLandscapeHint,
            CommitStep::NoteRotationCommit
        ]
    );
    assert_eq!(
        after_commit(5, false, Some(6)),
        [
            CommitStep::NeedsRender,
            CommitStep::CommitPopups,
            CommitStep::LogSize
        ]
    );
    assert_eq!(after_commit(5, false, None).len(), 3);
}

#[test]
fn a_grab_ends_with_its_popup() {
    let mut grabs = PopupGrabs::new();
    grabs.grab(1);
    grabs.grab(2);
    grabs.grab(1);
    assert!(grabs.contains(1) && grabs.contains(2));
    grabs.popup_destroyed(1);
    assert!(!grabs.contains(1) && grabs.contains(2));
}

#[test]
fn sessions_of_gone_clients_are_let_go_of() {
    let mut sessions = vec![1, 2, 3];
    new_session(&mut sessions, &vec![true, false], 9);
    assert_eq!(sessions, [1, 9]);
    let c = capture_constraints(Some((10, 20)), true).unwrap();
    assert_eq!(c.size, (10, 20));
    assert!(c.dma && c.shm.len() == 2);
    assert!(capture_constraints(None, true).is_none());
}
