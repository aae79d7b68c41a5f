//! Popups, the home pill and the volume display.
use springchick::bar_hint::{
    BarHint, BarMode, BLINK_DIP, BLINK_HOLD, REVEAL_HOLD, REVEAL_IN,
};
use springchick::frame::{
    active_popups, app_popup_bound, app_popup_space, popup_chain, PopupRect, Space,
};
use springchick::osd::{parse_wpctl_volume, Opacity, Osd};
use springchick::popups::{clamp_origin, popups_to_dismiss};
use springchick::rotation::Rotation;
use springchick::time::{Nanos, Share, MILLI, SECOND};

#[test]
fn clamp_leaves_on_screen_popup_untouched() {
    assert_eq!(
        clamp_origin((100, 200), (300, 400), (1080, 2400)),
        (100, 200)
    );
}

#[test]
fn clamp_shifts_popup_overflowing_right_and_bottom() {
    assert_eq!(
        clamp_origin((900, 2300), (300, 400), (1080, 2400)),
        (780, 2000)
    );
}

#[test]
fn clamp_pins_oversized_popup_to_top_left() {
    assert_eq!(clamp_origin((50, 50), (2000, 3000), (1080, 2400)), (0, 0));
}

#[test]
fn clamp_keeps_rotated_popup_inside_landscape_space() {
    assert_eq!(
        clamp_origin((2300, 900), (300, 400), (2400, 1080)),
        (2100, 680)
    );
}

#[test]
fn dismiss_miss_closes_whole_chain_leaf_first() {
    assert_eq!(popups_to_dismiss(3, None), vec![2, 1, 0]);
}

#[test]
fn dismiss_hit_root_closes_only_descendants() {
    assert_eq!(popups_to_dismiss(3, Some(0)), vec![2, 1]);
}

#[test]
fn dismiss_hit_leaf_closes_nothing() {
    assert_eq!(popups_to_dismiss(3, Some(2)), Vec::<usize>::new());
}

#[test]
fn dismiss_empty_chain_is_noop() {
    assert_eq!(popups_to_dismiss(0, None), Vec::<usize>::new());
}

fn popup(surface: u64, x: i32, y: i32) -> PopupRect {
    PopupRect {
        surface,
        x,
        y,
        w: 300,
        h: 400,
    }
}

#[test]
fn popups_are_kept_on_screen_in_order() {
    let chain = popup_chain(&vec![popup(1, 900, 2300), popup(2, 0, 0)], (1080, 2400));
    assert_eq!(chain, [popup(1, 780, 2000), popup(2, 0, 0)]);
}

#[test]
fn a_turned_app_hides_the_popups_of_the_shell() {
    let layers = vec![popup(2, 0, 0)];
    let upright = active_popups(vec![popup(1, 0, 0)], &layers, Rotation::Portrait);
    assert_eq!(upright.len(), 2);
    let turned = active_popups(vec![popup(1, 0, 0)], &layers, Rotation::LeftUp);
    assert_eq!(turned, [popup(1, 0, 0)]);
}

#[test]
fn a_turned_app_has_the_whole_turned_screen() {
    let usable = Space {
        x: 0,
        y: 90,
        w: 1080,
        h: 2310,
    };
    assert_eq!(
        app_popup_space(Rotation::Portrait, (1080, 2400), usable),
        usable
    );
    assert_eq!(
        app_popup_space(Rotation::RightUp, (1080, 2400), usable),
        Space {
            x: 0,
            y: 0,
            w: 2400,
            h: 1080
        }
    );
    assert_eq!(
        app_popup_bound(Rotation::RightUp, (1080, 2400)),
        (2400, 1080)
    );
}

const T0: Nanos = 9 * SECOND;

fn number(s: Share) -> f32 {
    s.part as f32 / s.whole as f32
}

fn pill(hint: &BarHint, now: Nanos) -> f32 {
    number(hint.alpha(now))
}

#[test]
fn on_home_the_bar_is_never_drawn() {
    let mut hint = BarHint::new();
    hint.set_mode(BarMode::Off, T0);
    assert_eq!(pill(&hint, T0), 0.0);
    hint.touched(T0);
    assert_eq!(pill(&hint, T0 + REVEAL_IN), 0.0);
    assert!(!hint.is_animating(T0));
}

#[test]
fn during_a_drag_the_bar_is_simply_drawn() {
    let mut hint = BarHint::new();
    hint.set_mode(BarMode::Shown, T0);
    assert_eq!(pill(&hint, T0 + 10 * SECOND), 1.0);
    assert!(!hint.is_animating(T0));
}

#[test]
fn arriving_in_an_app_blinks_then_fades_out() {
    let mut hint = BarHint::new();
    hint.set_mode(BarMode::Auto, T0);

    assert_eq!(pill(&hint, T0), 1.0);
    let dip = pill(&hint, T0 + BLINK_HOLD + BLINK_DIP);
    assert!(dip < 0.5, "expected a dip, got {dip}");
    assert_eq!(
        pill(&hint, T0 + BLINK_HOLD + 2 * BLINK_DIP + 10 * MILLI),
        1.0
    );
    assert!(pill(&hint, T0 + BarHint::BLINK_TOTAL) < 0.001);
    let late = T0 + BarHint::BLINK_TOTAL + 5 * SECOND;
    hint.advance(late);
    assert_eq!(pill(&hint, late), 0.0);
    assert!(!hint.is_animating(late));
}

#[test]
fn the_dip_is_an_exact_share() {
    let mut hint = BarHint::new();
    hint.set_mode(BarMode::Auto, T0);
    let deepest = hint.alpha(T0 + BLINK_HOLD + BLINK_DIP);
    assert_eq!(deepest.part * 20, deepest.whole * 3);
    let halfway = hint.alpha(T0 + BLINK_HOLD + BLINK_DIP / 2);
    assert_eq!(halfway.part * 40, halfway.whole * 23);
}

#[test]
fn touching_the_bar_brings_it_back_then_hides_it_again() {
    let mut hint = BarHint::new();
    hint.set_mode(BarMode::Auto, T0);
    let settled = T0 + BarHint::BLINK_TOTAL + SECOND;
    hint.advance(settled);
    assert_eq!(pill(&hint, settled), 0.0);

    hint.touched(settled);
    assert!(pill(&hint, settled + REVEAL_IN) > 0.9, "fades in");
    assert_eq!(pill(&hint, settled + REVEAL_IN + REVEAL_HOLD / 2), 1.0);
    assert!(pill(&hint, settled + BarHint::REVEAL_TOTAL) < 0.001);

    let done = settled + BarHint::REVEAL_TOTAL + 100 * MILLI;
    hint.advance(done);
    assert!(!hint.is_animating(done));
}

#[test]
fn a_drag_ending_back_in_the_app_blinks_again() {
    let mut hint = BarHint::new();
    hint.set_mode(BarMode::Auto, T0);
    let hidden = T0 + BarHint::BLINK_TOTAL + SECOND;
    hint.advance(hidden);
    assert_eq!(pill(&hint, hidden), 0.0);

    hint.set_mode(BarMode::Shown, hidden);
    assert_eq!(pill(&hint, hidden), 1.0);
    hint.set_mode(BarMode::Auto, hidden);
    assert_eq!(pill(&hint, hidden), 1.0);
    assert!(pill(&hint, hidden + BarHint::BLINK_TOTAL) < 0.001);
}

#[test]
fn the_same_mode_does_not_restart_the_blink() {
    let mut hint = BarHint::new();
    hint.set_mode(BarMode::Auto, T0);
    for ms in [10, 200, 800, 1600] {
        hint.set_mode(BarMode::Auto, T0 + ms * MILLI);
    }
    let late = T0 + BarHint::BLINK_TOTAL + 500 * MILLI;
    hint.advance(late);
    assert_eq!(pill(&hint, late), 0.0);
}

#[test]
fn a_touch_mid_blink_takes_over_from_it() {
    let mut hint = BarHint::new();
    hint.set_mode(BarMode::Auto, T0);
    let mid = T0 + BLINK_HOLD + BLINK_DIP;
    hint.touched(mid);
    assert_eq!(pill(&hint, mid + REVEAL_IN + 100 * MILLI), 1.0);
}

fn volume(output: &str) -> Option<(f32, bool)> {
    parse_wpctl_volume(output, |t| t.parse::<f32>().ok().map(f32::to_bits))
        .map(|(level, muted)| (f32::from_bits(level), muted))
}

#[test]
fn parses_a_plain_volume_line() {
    assert_eq!(volume("Volume: 0.45\n"), Some((0.45, false)));
}

#[test]
fn parses_a_muted_volume_line() {
    assert_eq!(volume("Volume: 0.45 [MUTED]\n"), Some((0.45, true)));
}

#[test]
fn parses_amid_other_lines_and_over_100() {
    assert_eq!(
        volume("noise\n  Volume: 1.25\nmore"),
        Some((1.25, false))
    );
}

#[test]
fn rejects_junk() {
    assert_eq!(volume("nope"), None);
    assert_eq!(volume("Volume: abc"), None);
}

#[test]
fn alpha_is_zero_before_first_show() {
    assert_eq!(number(Osd::new().alpha(T0)), 0.0);
}

#[test]
fn alpha_holds_then_fades_then_gone() {
    let mut osd = Osd::new();
    osd.show(0.5f32.to_bits(), false, T0);
    assert_eq!(number(osd.alpha(T0)), 1.0);
    assert_eq!(number(osd.alpha(T0 + 1500 * MILLI)), 1.0);
    let mid = number(osd.alpha(T0 + 1650 * MILLI));
    assert!((0.4..=0.6).contains(&mid), "mid alpha was {mid}");
    assert_eq!(number(osd.alpha(T0 + 1800 * MILLI)), 0.0);
    assert!(!osd.is_active(T0 + 1800 * MILLI));
    assert!(osd.is_active(T0 + 1600 * MILLI));
    assert_eq!(osd.opacity(T0 + 1600 * MILLI), Opacity::Fading(100 * MILLI));
}

#[test]
fn show_restarts_the_timer() {
    let mut osd = Osd::new();
    osd.show(0.5f32.to_bits(), false, T0);
    let late = T0 + 1700 * MILLI;
    assert!(number(osd.alpha(late)) < 1.0);
    osd.show(0.6f32.to_bits(), false, late);
    assert_eq!(number(osd.alpha(late)), 1.0);
    assert_eq!(f32::from_bits(osd.level), 0.6);
}

#[test]
fn a_pill_at_rest_in_an_app_stays_hidden() {
    let mut hint = BarHint::new();
    hint.set_mode(BarMode::Auto, 0);
    let moving = hint;
    hint.advance(BarHint::BLINK_TOTAL - 1);
    assert_eq!((hint.phase, hint.mode), (moving.phase, moving.mode));
    assert!(hint.is_animating(BarHint::BLINK_TOTAL - 1));
    assert!(!hint.is_animating(BarHint::BLINK_TOTAL));
    hint.advance(BarHint::BLINK_TOTAL);
    for later in [0, 1, BarHint::BLINK_TOTAL, 100 * BarHint::BLINK_TOTAL] {
        assert_eq!(hint.alpha(later).part, 0);
        assert!(!hint.is_animating(later));
    }
}
