//! The session lock, and what a locked frame shows.
use springchick::drm_backend::{report_partial, FrameFacts};
use springchick::render::{
    draw_scene, flip_damage, plan_scene, rounded_parts, send_frame_callbacks, Damage, Drawn,
    Overlays, Pass, Present, RenderFacts,
};
use springchick::rotation::Rotation;
use springchick::session_lock::{lock_view, LockStep, LockView, SessionLock};

#[test]
fn unlocked_draws_the_shell() {
    assert_eq!(lock_view(false, false), LockView::Unlocked);
    assert_eq!(lock_view(false, true), LockView::Unlocked);
}

#[test]
fn locked_with_surface_draws_it() {
    assert_eq!(lock_view(true, true), LockView::Surface);
}

#[test]
fn locked_without_surface_draws_black() {
    assert_eq!(lock_view(true, false), LockView::Blank);
}

#[test]
fn the_client_is_told_after_a_frame() {
    let mut lock = SessionLock::new();
    assert_eq!(lock.lock(), [LockStep::CancelGestures, LockStep::Redraw]);
    assert!(lock.is_locked());
    assert!(lock.needs_frame());
    assert!(!lock.tick());
    assert!(lock.tick());
    assert!(!lock.tick());
    assert!(!lock.needs_frame());
    assert!(lock.is_locked());
}

#[test]
fn a_client_that_dies_leaves_the_screen_black() {
    let mut lock = SessionLock::new();
    lock.lock();
    lock.set_surface(7);
    assert_eq!(lock.wl_surface(true), Some(7));
    assert_eq!(lock.view(true), LockView::Surface);
    assert_eq!(lock.view(false), LockView::Blank);
    lock.forget_surface();
    assert_eq!(lock.view(true), LockView::Blank);
    assert_eq!(
        lock.unlock(),
        [LockStep::ForgetLastPresent, LockStep::Redraw]
    );
    assert_eq!(lock.view(false), LockView::Unlocked);
}

fn facts() -> RenderFacts {
    RenderFacts {
        window_covers: true,
        has_window: true,
        rotation: Rotation::Portrait,
        app: Some(1),
        app_parts: 1,
        app_blur: false,
        show_home: false,
        lock_view: LockView::Unlocked,
        lock_surface: None,
        osd: false,
        touches: false,
    }
}

fn overlays() -> Overlays {
    Overlays {
        app_popups: vec![20],
        layers_above: vec![21],
        layer_popups: vec![22],
    }
}

#[test]
fn a_locked_frame_shows_the_lock_surface_alone() {
    let f = RenderFacts {
        lock_view: LockView::Surface,
        lock_surface: Some(9),
        osd: true,
        ..facts()
    };
    assert_eq!(
        draw_scene(&f, &vec![0], &vec![true], &overlays()),
        [Pass::ClearBlack, Pass::LockSurface(9), Pass::Osd]
    );
    let f = RenderFacts {
        lock_view: LockView::Blank,
        lock_surface: None,
        ..facts()
    };
    assert_eq!(
        draw_scene(&f, &vec![0], &vec![true], &overlays()),
        [Pass::ClearBlack]
    );
}

#[test]
fn an_app_over_the_screen_is_drawn_below_popups_and_bar() {
    assert_eq!(
        draw_scene(&facts(), &vec![], &vec![], &overlays()),
        [
            Pass::Clear,
            Pass::BelowLayers,
            Pass::App,
            Pass::Overlay(20),
            Pass::Overlay(21),
            Pass::Overlay(22),
            Pass::Bar
        ]
    );
}

#[test]
fn a_turned_app_is_drawn_once_and_without_the_shell() {
    let f = RenderFacts {
        rotation: Rotation::LeftUp,
        osd: true,
        touches: true,
        ..facts()
    };
    assert_eq!(
        draw_scene(&f, &vec![], &vec![], &overlays()),
        [
            Pass::Clear,
            Pass::BelowLayers,
            Pass::RotatedApp,
            Pass::Overlay(20),
            Pass::Bar,
            Pass::Touches
        ]
    );
}

#[test]
fn a_blurred_app_has_home_behind_it() {
    let f = RenderFacts {
        app_blur: true,
        ..facts()
    };
    let passes = draw_scene(&f, &vec![], &vec![], &overlays());
    assert_eq!(
        passes[..4],
        [
            Pass::Clear,
            Pass::BelowLayers,
            Pass::Home,
            Pass::BlurredApp
        ]
    );
}

#[test]
fn a_window_without_content_shows_home() {
    let f = RenderFacts {
        app_parts: 0,
        show_home: true,
        ..facts()
    };
    assert!(!plan_scene(&f).app_fills_screen);
    assert!(draw_scene(&f, &vec![], &vec![], &overlays()).contains(&Pass::Home));
}

#[test]
fn cards_of_gone_windows_are_left_out() {
    let f = RenderFacts {
        window_covers: false,
        has_window: false,
        show_home: true,
        ..facts()
    };
    let passes = draw_scene(&f, &vec![2, 0, 5], &vec![true, true, false], &overlays());
    assert!(passes.contains(&Pass::Card(0)));
    assert!(!passes.contains(&Pass::Card(2)));
    assert!(!passes.contains(&Pass::Card(5)));
    assert!(!passes.contains(&Pass::AppCard));
}

#[test]
fn a_quiet_app_tells_what_it_changed() {
    let mut last = None;
    assert_eq!(
        flip_damage(&facts(), &mut last, true, false, 4),
        Damage::Everything
    );
    assert_eq!(
        last,
        Some(Present {
            surface: 1,
            commit: 4
        })
    );
    assert_eq!(
        flip_damage(&facts(), &mut last, true, false, 5),
        Damage::Since(4)
    );
    assert_eq!(
        flip_damage(&facts(), &mut last, true, true, 6),
        Damage::Everything
    );
    assert_eq!(
        flip_damage(&facts(), &mut last, true, false, 7),
        Damage::Since(5)
    );
    let other = RenderFacts {
        app: Some(2),
        ..facts()
    };
    assert_eq!(
        flip_damage(&other, &mut last, true, false, 1),
        Damage::Everything
    );
}

#[test]
fn anything_of_the_shell_rules_partial_damage_out() {
    let quiet = FrameFacts {
        lock_view: LockView::Unlocked,
        window_covers: true,
        has_app: true,
        cards: 0,
        show_home: false,
        osd: false,
        bar_fading: false,
        touch_marks: 0,
        layers_below: 0,
        layers_above: 0,
    };
    assert!(report_partial(&quiet));
    assert!(!report_partial(&FrameFacts {
        lock_view: LockView::Blank,
        ..quiet
    }));
    assert!(!report_partial(&FrameFacts { cards: 1, ..quiet }));
    assert!(!report_partial(&FrameFacts {
        bar_fading: true,
        ..quiet
    }));
    assert!(!report_partial(&FrameFacts {
        layers_above: 1,
        ..quiet
    }));
    assert!(!report_partial(&FrameFacts {
        has_app: false,
        ..quiet
    }));
}

#[test]
fn every_surface_drawn_is_told() {
    assert_eq!(
        send_frame_callbacks(Some(1), &vec![3], &vec![false, false, false, true], &vec![10], &overlays()),
        [
            Drawn::Surface(1),
            Drawn::Window(3),
            Drawn::Surface(10),
            Drawn::Surface(21),
            Drawn::Surface(20),
            Drawn::Surface(22)
        ]
    );
}

#[test]
fn only_the_outer_part_of_a_card_is_rounded() {
    assert_eq!(rounded_parts(3, true), (1, 2));
    assert_eq!(rounded_parts(3, false), (0, 3));
    assert_eq!(rounded_parts(0, true), (0, 0));
}
