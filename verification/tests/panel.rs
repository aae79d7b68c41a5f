//! The panel: which backend drives it, and when it goes dark.
use springchick::backend::{
    parse_dev_window_size, BackendKind, DEV_WINDOW_HEIGHT, DEV_WINDOW_WIDTH,
};
use springchick::blank::{Blank, Idle, KeyWhileBlanked};
use springchick::time::SECOND;

#[test]
fn dev_window_size_parses_or_falls_back() {
    assert_eq!(parse_dev_window_size(Some("720x1440")), (720, 1440));
    assert_eq!(parse_dev_window_size(Some("1080X2340")), (1080, 2340));
    assert_eq!(
        parse_dev_window_size(Some("garbage")),
        (DEV_WINDOW_WIDTH, DEV_WINDOW_HEIGHT)
    );
    assert_eq!(
        parse_dev_window_size(Some("0x100")),
        (DEV_WINDOW_WIDTH, DEV_WINDOW_HEIGHT)
    );
    assert_eq!(
        parse_dev_window_size(None),
        (DEV_WINDOW_WIDTH, DEV_WINDOW_HEIGHT)
    );
}

#[test]
fn dev_window_size_is_read_as_numbers_are() {
    let default = (DEV_WINDOW_WIDTH, DEV_WINDOW_HEIGHT);
    assert_eq!(parse_dev_window_size(Some(" +720 x 1440 ")), (720, 1440));
    assert_eq!(parse_dev_window_size(Some("-720x1440")), default);
    assert_eq!(parse_dev_window_size(Some("2147483648x1")), default);
    assert_eq!(parse_dev_window_size(Some("2147483647x1")), (2147483647, 1));
    assert_eq!(parse_dev_window_size(Some("1x2x3")), default);
}

#[test]
fn from_value_selects_drm_only_for_drm() {
    assert_eq!(BackendKind::from_value(Some("drm")), BackendKind::Drm);
    assert_eq!(BackendKind::from_value(Some("winit")), BackendKind::Winit);
    assert_eq!(
        BackendKind::from_value(Some("nonsense")),
        BackendKind::Winit
    );
    assert_eq!(BackendKind::from_value(None), BackendKind::Winit);
}

#[test]
fn a_bound_key_wakes_the_screen_instead_of_firing() {
    let mut b = Blank::new();
    assert!(!b.is_blanked());
    b.toggle();
    assert!(b.is_blanked());
    assert_eq!(b.on_key_press(), KeyWhileBlanked::Woke);
    assert!(!b.is_blanked());
    assert_eq!(b.on_key_press(), KeyWhileBlanked::Normal);
}

#[test]
fn changes_are_reported_once() {
    let mut b = Blank::new();
    assert_eq!(b.take_change(), None);
    b.toggle();
    assert_eq!(b.take_change(), Some(true));
    assert_eq!(b.take_change(), None);
    b.on_key_press();
    assert_eq!(b.take_change(), Some(false));
    assert_eq!(b.take_change(), None);
}

#[test]
fn idle_fires_only_after_the_timeout_elapses() {
    let t0 = 7 * SECOND;
    let idle = Idle::new(600, t0);
    assert!(!idle.should_blank(t0 + 599 * SECOND));
    assert!(idle.should_blank(t0 + 600 * SECOND));
    assert!(idle.should_blank(t0 + 601 * SECOND));
}

#[test]
fn activity_resets_the_idle_countdown() {
    let t0 = 7 * SECOND;
    let mut idle = Idle::new(600, t0);
    idle.activity(t0 + 500 * SECOND);
    assert!(!idle.should_blank(t0 + 590 * SECOND));
    assert!(idle.should_blank(t0 + 1100 * SECOND));
}

#[test]
fn zero_timeout_disables_idle_blanking() {
    let t0 = 7 * SECOND;
    let idle = Idle::new(0, t0);
    assert!(!idle.should_blank(t0 + 100_000 * SECOND));
}
