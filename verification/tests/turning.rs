//! Turning a fullscreen app, and covering the turn.
use springchick::content_type::{wants_landscape, Type};
use springchick::render::{app_pass_geometry, compose};
use springchick::rotation::{
    desired_rotation, Axis, DeviceOrientation, Fade, FadeStep, Rotation, Settle, Transform,
};
use springchick::time::{Nanos, Share, MILLI, SECOND};

const OUTPUT: (i32, i32) = (1000, 2000);

/// A touch on the output as one on the app.
fn map_input(r: Rotation, x: f32, y: f32, output: (i32, i32)) -> (f32, f32) {
    let along = |a: Axis| {
        let (v, extent) = if a.from_y {
            (y, output.1 as f32)
        } else {
            (x, output.0 as f32)
        };
        if a.mirrored {
            extent - v
        } else {
            v
        }
    };
    let (ax, ay) = r.input_axes();
    (along(ax), along(ay))
}

/// How dark the screen is, eased at both ends.
fn dim(f: &Fade, now: Nanos) -> f32 {
    let Share { part, whole } = f.dim(now);
    let t = part as f32 / whole as f32;
    t * t * (3.0 - 2.0 * t)
}

#[test]
fn portrait_is_identity() {
    assert_eq!(Rotation::Portrait.app_size(OUTPUT), OUTPUT);
    assert_eq!(
        map_input(Rotation::Portrait, 10.0, 20.0, OUTPUT),
        (10.0, 20.0)
    );
}

#[test]
fn landscape_swaps_the_app_size() {
    assert_eq!(Rotation::LeftUp.app_size(OUTPUT), (2000, 1000));
}

#[test]
fn right_up_input_maps_corners_to_corners() {
    let app = Rotation::RightUp.app_size(OUTPUT);
    assert_eq!(
        map_input(Rotation::RightUp, 0.0, 0.0, OUTPUT),
        (0.0, 1000.0)
    );
    assert_eq!(
        map_input(Rotation::RightUp, OUTPUT.0 as f32, 0.0, OUTPUT),
        (0.0, 0.0)
    );
    assert_eq!(
        map_input(
            Rotation::RightUp,
            OUTPUT.0 as f32,
            OUTPUT.1 as f32,
            OUTPUT
        ),
        (app.0 as f32, 0.0)
    );
}

#[test]
fn landscape_input_stays_in_bounds() {
    let app = Rotation::LeftUp.app_size(OUTPUT);
    for (x, y) in [(0.0, 0.0), (999.0, 1999.0), (500.0, 1000.0)] {
        let (ax, ay) = map_input(Rotation::LeftUp, x, y, OUTPUT);
        assert!((0.0..=app.0 as f32).contains(&ax), "x {ax} out of {app:?}");
        assert!((0.0..=app.1 as f32).contains(&ay), "y {ay} out of {app:?}");
    }
}

#[test]
fn left_up_is_the_anticlockwise_quarter_turn() {
    assert_eq!(Rotation::LeftUp.app_size(OUTPUT), (2000, 1000));
    assert_eq!(Rotation::LeftUp.transform(), Transform::Turn270);
    assert_eq!(
        map_input(Rotation::LeftUp, 0.0, OUTPUT.1 as f32, OUTPUT),
        (0.0, 0.0)
    );
    let app = Rotation::LeftUp.app_size(OUTPUT);
    assert_eq!(
        map_input(Rotation::LeftUp, 0.0, 0.0, OUTPUT),
        (app.0 as f32, 0.0)
    );
}

#[test]
fn left_up_input_stays_in_bounds_too() {
    let app = Rotation::RightUp.app_size(OUTPUT);
    for (x, y) in [(0.0, 0.0), (999.0, 1999.0), (500.0, 1000.0)] {
        let (ax, ay) = map_input(Rotation::RightUp, x, y, OUTPUT);
        assert!((0.0..=app.0 as f32).contains(&ax), "x {ax} out of {app:?}");
        assert!((0.0..=app.1 as f32).contains(&ay), "y {ay} out of {app:?}");
    }
}

#[test]
fn the_two_landscapes_are_not_the_same_turn() {
    assert_ne!(Rotation::LeftUp.transform(), Rotation::RightUp.transform());
    assert_ne!(
        map_input(Rotation::LeftUp, 10.0, 20.0, OUTPUT),
        map_input(Rotation::RightUp, 10.0, 20.0, OUTPUT)
    );
}

#[test]
fn only_fullscreen_apps_rotate() {
    assert_eq!(
        desired_rotation(DeviceOrientation::LeftUp, false),
        Rotation::Portrait
    );
    assert_eq!(
        desired_rotation(DeviceOrientation::RightUp, false),
        Rotation::Portrait
    );
}

#[test]
fn a_fullscreen_app_follows_the_device() {
    assert_eq!(
        desired_rotation(DeviceOrientation::LeftUp, true),
        Rotation::LeftUp
    );
    assert_eq!(
        desired_rotation(DeviceOrientation::RightUp, true),
        Rotation::RightUp
    );
}

#[test]
fn an_upright_phone_never_rotates_even_fullscreen() {
    assert_eq!(
        desired_rotation(DeviceOrientation::Normal, true),
        Rotation::Portrait
    );
}

#[test]
fn flat_or_upside_down_does_not_rotate() {
    assert_eq!(
        desired_rotation(DeviceOrientation::Undefined, true),
        Rotation::Portrait
    );
    assert_eq!(
        desired_rotation(DeviceOrientation::BottomUp, true),
        Rotation::Portrait
    );
}

#[test]
fn sensor_strings_parse() {
    assert_eq!(
        DeviceOrientation::from_sensor("normal"),
        DeviceOrientation::Normal
    );
    assert_eq!(
        DeviceOrientation::from_sensor("left-up"),
        DeviceOrientation::LeftUp
    );
    assert_eq!(
        DeviceOrientation::from_sensor("right-up"),
        DeviceOrientation::RightUp
    );
    assert_eq!(
        DeviceOrientation::from_sensor("bottom-up"),
        DeviceOrientation::BottomUp
    );
    assert_eq!(
        DeviceOrientation::from_sensor("undefined"),
        DeviceOrientation::Undefined
    );
    assert_eq!(
        DeviceOrientation::from_sensor("sideways-ish"),
        DeviceOrientation::Undefined
    );
}

const HOLD: u64 = 400;

const T0: Nanos = 5 * SECOND;

fn settle() -> Settle {
    Settle::new(HOLD, DeviceOrientation::Normal)
}

#[test]
fn an_orientation_commits_only_after_it_has_held() {
    let mut s = settle();
    s.observe(DeviceOrientation::LeftUp, T0);
    assert!(s.is_pending());
    assert_eq!(s.poll(T0 + 399 * MILLI), None);
    assert_eq!(s.poll(T0 + 400 * MILLI), Some(DeviceOrientation::LeftUp));
    assert_eq!(s.poll(T0 + 500 * MILLI), None);
    assert!(!s.is_pending());
}

#[test]
fn a_wobble_back_to_where_it_was_never_fires() {
    let mut s = settle();
    s.observe(DeviceOrientation::LeftUp, T0);
    s.observe(DeviceOrientation::Normal, T0 + 100 * MILLI);
    assert!(!s.is_pending());
    assert_eq!(s.poll(T0 + 10 * SECOND), None);
}

#[test]
fn switching_candidate_restarts_the_hold() {
    let mut s = settle();
    s.observe(DeviceOrientation::LeftUp, T0);
    s.observe(DeviceOrientation::RightUp, T0 + 300 * MILLI);
    assert_eq!(s.poll(T0 + 400 * MILLI), None);
    assert_eq!(s.poll(T0 + 700 * MILLI), Some(DeviceOrientation::RightUp));
}

#[test]
fn repeating_the_same_candidate_does_not_restart_the_hold() {
    let mut s = settle();
    s.observe(DeviceOrientation::LeftUp, T0);
    s.observe(DeviceOrientation::LeftUp, T0 + 300 * MILLI);
    assert_eq!(s.poll(T0 + 400 * MILLI), Some(DeviceOrientation::LeftUp));
}

#[test]
fn a_zero_hold_commits_on_the_next_poll() {
    let mut s = Settle::new(0, DeviceOrientation::Normal);
    s.observe(DeviceOrientation::LeftUp, T0);
    assert_eq!(s.poll(T0), Some(DeviceOrientation::LeftUp));
}

const FADE: u64 = 120;

#[test]
fn the_swap_happens_while_the_screen_is_black() {
    let mut f = Fade::new(FADE);
    assert!(!f.begin(T0), "a fade defers the swap");
    assert!(f.is_active());
    assert!(dim(&f, T0) < 0.01);
    assert!(dim(&f, T0 + 60 * MILLI) > 0.4);
    assert_eq!(f.tick(T0 + 60 * MILLI), FadeStep::Nothing);

    let swap = T0 + 120 * MILLI;
    assert_eq!(f.tick(swap), FadeStep::Apply);
    assert_eq!(dim(&f, swap), 1.0);
    assert_eq!(f.tick(swap + 50 * MILLI), FadeStep::Nothing);
    assert_eq!(dim(&f, swap + 50 * MILLI), 1.0);

    let drew = swap + 80 * MILLI;
    f.content_ready(drew);
    assert!(dim(&f, drew + 60 * MILLI) < 0.6);
    assert_eq!(f.tick(drew + 120 * MILLI), FadeStep::Done);
    assert!(!f.is_active());
    assert_eq!(dim(&f, drew + 120 * MILLI), 0.0);
}

#[test]
fn a_client_that_never_redraws_does_not_hold_a_black_screen() {
    let mut f = Fade::new(FADE);
    f.begin(T0);
    let swap = T0 + 120 * MILLI;
    assert_eq!(f.tick(swap), FadeStep::Apply);
    let give_up = swap + Fade::MAX_WAIT;
    assert_eq!(f.tick(give_up), FadeStep::Nothing);
    assert_eq!(f.tick(give_up + 120 * MILLI), FadeStep::Done);
    assert!(!f.is_active());
}

#[test]
fn content_ready_outside_the_dark_is_ignored() {
    let mut f = Fade::new(FADE);
    f.content_ready(T0);
    assert!(!f.is_active());
    f.begin(T0);
    f.content_ready(T0 + 40 * MILLI);
    assert_eq!(f.tick(T0 + 120 * MILLI), FadeStep::Apply);
}

#[test]
fn a_second_turn_mid_fade_is_covered_by_the_same_dip() {
    let mut f = Fade::new(FADE);
    assert!(!f.begin(T0));
    assert!(!f.begin(T0 + 40 * MILLI));
    let swap = T0 + 120 * MILLI;
    assert_eq!(f.tick(swap), FadeStep::Apply);

    f.content_ready(swap);
    assert!(f.begin(swap + 40 * MILLI));
    assert_eq!(dim(&f, swap + 40 * MILLI), 1.0);
    assert!(f.is_active());
}

#[test]
fn a_zero_duration_fade_is_the_old_instant_behaviour() {
    let mut f = Fade::new(0);
    assert!(f.begin(T0), "swap immediately");
    assert!(!f.is_active());
    assert_eq!(dim(&f, T0), 0.0);
}

#[test]
fn darkness_is_an_exact_share() {
    let mut f = Fade::new(FADE);
    f.begin(T0);
    assert_eq!(
        f.dim(T0 + 30 * MILLI),
        Share {
            part: 30 * MILLI,
            whole: 120 * MILLI
        }
    );
    f.set_duration(60);
    assert_eq!(f.dim(T0 + 90 * MILLI), Share { part: 1, whole: 1 });
}

#[test]
fn only_fullscreen_video_or_game_wants_landscape() {
    assert!(wants_landscape(Type::Video, true));
    assert!(wants_landscape(Type::Game, true));
    assert!(!wants_landscape(Type::Video, false));
    assert!(!wants_landscape(Type::Photo, true));
    assert!(!wants_landscape(Type::Untagged, true));
}

#[test]
fn turns_add_up_and_flips_cancel() {
    assert_eq!(
        compose(Transform::Turn90, Transform::Turn270),
        Transform::Normal
    );
    assert_eq!(
        compose(Transform::Turn180, Transform::Turn270),
        Transform::Turn90
    );
    assert_eq!(
        compose(Transform::Flipped90, Transform::Flipped90),
        Transform::Turn180
    );
    assert_eq!(
        compose(Transform::Flipped180, Transform::Turn90),
        Transform::Flipped270
    );
}

#[test]
fn a_turned_app_is_drawn_turned_and_in_its_own_size() {
    assert_eq!(
        app_pass_geometry(OUTPUT, Transform::Normal, Rotation::LeftUp),
        (Transform::Turn270, (2000, 1000))
    );
    assert_eq!(
        app_pass_geometry(OUTPUT, Transform::Turn180, Rotation::Portrait),
        (Transform::Turn180, OUTPUT)
    );
}
