//! The panel, its mirrors, and the frames that they show.
use springchick::blank::{Blank, Idle};
use springchick::drm_backend::{
    after_open, apply_gamma, capture_end, capture_region_shm, concerns, dpms_value, find_dpms_prop,
    find_output, finish_turn, flips_mirrors, frame_step, group_formats, housekeeping, note_input,
    poll_idle, refresh_outputs, shutdown, take_frame, wait_for, CaptureEnd, DisplayStep, Drm,
    Format, FrameWork, GammaWrite, OpenNext, Property, TurnStep, ACTIVE_TIMEOUT, IDLE_TIMEOUT,
    LONGEST_STEP, MAX_ATTEMPTS,
};
use springchick::frame_stats::FrameStats;
use springchick::gamma_control::{read_ramps, GammaControl, GammaError, GammaUpdate};
use springchick::idle_notify::{Event, IdleNotify};
use springchick::mirror::{fit, refresh, scan, Area, Candidate, Connector, Mirror};
use springchick::output_power::{Grant, OutputPower, PowerMode, SetMode};
use springchick::presentation::{refresh_from_mhz, Refresh};
use springchick::time::{MILLI, SECOND};

fn area(x: i32, y: i32, w: i32, h: i32) -> Area {
    Area { x, y, w, h }
}

#[test]
fn same_aspect_fills() {
    assert_eq!(fit(1080, 2160, 1080, 2160), area(0, 0, 1080, 2160));
    assert_eq!(fit(1080, 2160, 540, 1080), area(0, 0, 540, 1080));
}

#[test]
fn portrait_into_landscape_pillarboxes() {
    assert_eq!(fit(1080, 2160, 1920, 1080), area(690, 0, 540, 1080));
}

#[test]
fn landscape_into_portrait_letterboxes() {
    assert_eq!(fit(1920, 1080, 1080, 1920), area(0, 656, 1080, 608));
}

#[test]
fn degenerate_sizes_are_empty() {
    assert_eq!(fit(0, 0, 1920, 1080), area(0, 0, 0, 0));
    assert_eq!(fit(1080, 2160, 0, 1080), area(0, 0, 0, 0));
}

fn connector(handle: u32, connected: bool, preferred: &[bool], crtcs: &[u32]) -> Connector {
    Connector {
        handle,
        connected,
        preferred: preferred.to_vec(),
        crtcs: crtcs.to_vec(),
    }
}

#[test]
fn no_two_displays_share_a_pipe() {
    let conns = vec![
        connector(1, true, &[false, true], &[10, 11]),
        connector(2, false, &[true], &[11]),
        connector(3, true, &[false, false], &[10, 11]),
        connector(4, true, &[], &[12]),
        connector(5, true, &[true], &[10]),
    ];
    assert_eq!(
        scan(&conns, &vec![], &vec![]),
        [
            Candidate {
                connector: 1,
                crtc: 10,
                mode: 1
            },
            Candidate {
                connector: 3,
                crtc: 11,
                mode: 0
            }
        ]
    );
    assert_eq!(find_output(&conns).unwrap().connector, 1);
    assert!(find_output(&vec![]).is_none());
}

#[test]
fn a_display_that_went_away_is_dropped() {
    let mut mirrors = vec![
        Mirror {
            connector: 2,
            crtc: 11,
            pending_flip: true,
        },
        Mirror {
            connector: 3,
            crtc: 12,
            pending_flip: false,
        },
    ];
    let conns = vec![
        connector(1, true, &[true], &[10]),
        connector(3, true, &[true], &[12]),
        connector(4, true, &[true], &[11, 12]),
    ];
    let new = refresh(&mut mirrors, &vec![1, 3, 4], &conns, 1, 10);
    assert_eq!(mirrors.len(), 1);
    assert_eq!(mirrors[0].connector, 3);
    assert_eq!(
        new,
        [Candidate {
            connector: 4,
            crtc: 11,
            mode: 0
        }]
    );
}

#[test]
fn opening_is_tried_so_often_and_no_more() {
    assert_eq!(after_open(1, true), OpenNext::Opened);
    let mut attempt = 1;
    let mut tries = 1;
    while let OpenNext::Retry(next) = after_open(attempt, false) {
        attempt = next;
        tries += 1;
    }
    assert_eq!(tries, MAX_ATTEMPTS);
}

#[test]
fn power_property_is_found_by_name() {
    let named = |handle, name: &str| Property {
        handle,
        name: Some(name.to_string()),
    };
    let props = vec![
        named(1, "EDID"),
        Property {
            handle: 2,
            name: None,
        },
        named(3, "DPMS"),
        named(4, "DPMS"),
    ];
    assert_eq!(find_dpms_prop(&props), Some(3));
    assert_eq!(find_dpms_prop(&vec![]), None);
    assert_eq!((dpms_value(true), dpms_value(false)), (0, 3));
}

#[test]
fn formats_are_grouped_by_code() {
    let f = |code, modifier| Format { code, modifier };
    let groups = group_formats(&vec![f(1, 10), f(2, 20), f(1, 11), f(2, 21), f(3, 30)]);
    let mut seen: Vec<(u32, Vec<u64>)> =
        groups.into_iter().map(|g| (g.code, g.modifiers)).collect();
    seen.sort();
    assert_eq!(seen, [(1, vec![10, 11]), (2, vec![20, 21]), (3, vec![30])]);
}

fn device(mirrors: &[bool]) -> Drm {
    Drm {
        crtc: 10,
        active: true,
        pending_flip: false,
        mirrors: mirrors
            .iter()
            .enumerate()
            .map(|(i, pending_flip)| Mirror {
                connector: 100 + i as u32,
                crtc: 11 + i as u32,
                pending_flip: *pending_flip,
            })
            .collect(),
    }
}

#[test]
fn one_flip_at_a_time() {
    let mut d = device(&[]);
    assert!(d.may_render(false));
    assert_eq!(d.render(FrameWork::Finish, true, false), FrameWork::Queue);
    assert_eq!(
        d.render(FrameWork::Queue, true, false),
        FrameWork::PresentMirrors
    );
    assert!(!d.may_render(false));
    assert_eq!(
        d.on_vblank(10, false, true),
        [DisplayStep::FrameShown, DisplayStep::Render]
    );
    assert!(d.may_render(false));
    assert_eq!(d.on_vblank(10, false, false), [DisplayStep::FrameShown]);
}

#[test]
fn a_failed_frame_is_given_up() {
    let mut d = device(&[]);
    assert_eq!(d.render(FrameWork::NextBuffer, false, false), FrameWork::End);
    assert_eq!(d.render(FrameWork::Bind, false, false), FrameWork::End);
    assert_eq!(d.render(FrameWork::Draw, false, false), FrameWork::End);
    assert_eq!(
        d.render(FrameWork::Queue, false, false),
        FrameWork::PresentMirrors
    );
    assert!(d.may_render(false));
}

#[test]
fn a_dark_panel_leaves_the_mirrors_their_frames() {
    let mut d = device(&[true, false]);
    assert_eq!(
        d.apply_blanking(Some(true)),
        [DisplayStep::PanelPower(false), DisplayStep::Render]
    );
    assert!(d.may_render(true));
    assert_eq!(d.mirrors_due(), [1]);
    assert_eq!(
        d.render(FrameWork::Finish, true, true),
        FrameWork::PresentMirrors
    );
    d.mirror_queued(1, true);
    assert!(!d.may_render(true));
    assert_eq!(
        d.on_vblank(12, true, true),
        [DisplayStep::MirrorShown(1), DisplayStep::Render]
    );
    assert_eq!(d.on_vblank(11, false, true), [DisplayStep::MirrorShown(0)]);
    assert!(d.on_vblank(99, false, true).is_empty());

    let mut alone = device(&[]);
    assert_eq!(
        alone.apply_blanking(Some(true)),
        [
            DisplayStep::PanelPower(false),
            DisplayStep::MirrorPower(false)
        ]
    );
    assert!(!alone.may_render(true));
    assert!(alone.apply_blanking(None).is_empty());
}

#[test]
fn a_panel_that_lights_up_is_painted() {
    let mut d = device(&[true]);
    d.pending_flip = true;
    assert_eq!(
        d.apply_blanking(Some(false)),
        [
            DisplayStep::PanelPower(true),
            DisplayStep::MirrorPower(true),
            DisplayStep::ResetPanel,
            DisplayStep::ResetMirrors,
            DisplayStep::Render
        ]
    );
    assert!(d.may_render(false));
    assert!(!d.mirrors[0].pending_flip);
}

#[test]
fn another_session_stops_the_frames() {
    let mut d = device(&[true]);
    d.pause();
    assert!(!d.may_render(false));
    assert_eq!(
        d.activate(),
        [
            DisplayStep::ResetPanel,
            DisplayStep::ResetMirrors,
            DisplayStep::Render
        ]
    );
    assert!(d.may_render(false));
}

#[test]
fn the_machine_sleeps_behind_dark_displays() {
    let mut d = device(&[true]);
    let mut blank = Blank::new();
    assert_eq!(
        d.about_to_sleep(&mut blank),
        [
            DisplayStep::PanelPower(false),
            DisplayStep::Render,
            DisplayStep::MirrorPower(false),
            DisplayStep::Acknowledge
        ]
    );
    assert!(blank.is_blanked());
    assert_eq!(blank.take_change(), None);
    assert_eq!(
        d.about_to_sleep(&mut blank),
        [DisplayStep::MirrorPower(false), DisplayStep::Acknowledge]
    );
}

#[test]
fn mirrors_are_flipped_once_one_was_drawn() {
    assert!(flips_mirrors(&vec![false, true]));
    assert!(!flips_mirrors(&vec![false]));
    assert!(!flips_mirrors(&vec![]));
    assert!(device(&[false]).mirroring());
    assert!(!device(&[]).mirroring());
}

#[test]
fn hotplug_concerns_our_device() {
    assert!(concerns(Some(3), 3));
    assert!(!concerns(Some(3), 4));
    assert!(concerns(None, 4));
    assert_eq!(refresh_outputs(0, 1), (true, true));
    assert_eq!(refresh_outputs(1, 1), (true, false));
    assert_eq!(refresh_outputs(1, 0), (false, true));
}

#[test]
fn nothing_is_handed_over_dark() {
    assert_eq!(
        shutdown(true),
        [
            DisplayStep::PanelPower(true),
            DisplayStep::MirrorPower(true),
            DisplayStep::RestoreGamma
        ]
    );
    assert_eq!(shutdown(false).len(), 2);
}

#[test]
fn copies_end_as_they_went() {
    assert_eq!(capture_end(true, true, true, None), CaptureEnd::Success);
    assert_eq!(capture_end(true, false, true, None), CaptureEnd::Unknown);
    assert_eq!(
        capture_end(false, false, false, Some(true)),
        CaptureEnd::Success
    );
    assert_eq!(
        capture_end(false, false, false, Some(false)),
        CaptureEnd::Unknown
    );
    assert_eq!(
        capture_end(false, true, true, None),
        CaptureEnd::BufferConstraints
    );
    assert_eq!(capture_region_shm(false, true, true, true), None);
    assert_eq!(capture_region_shm(true, true, true, true), Some(true));
    assert_eq!(capture_region_shm(true, true, false, true), Some(false));
}

#[test]
fn a_turn_flushes_last() {
    assert_eq!(wait_for(true), ACTIVE_TIMEOUT);
    assert_eq!(wait_for(false), IDLE_TIMEOUT);
    assert_eq!(
        finish_turn(true),
        [TurnStep::Speed(true), TurnStep::Render, TurnStep::Flush]
    );
    assert_eq!(
        finish_turn(false),
        [TurnStep::Speed(false), TurnStep::Flush]
    );
    assert_eq!(housekeeping(true).len(), housekeeping(false).len() + 1);
    assert_eq!(housekeeping(true)[0], TurnStep::DrainControl);
}

#[test]
fn an_inhibitor_leaves_a_whole_timeout() {
    let mut idle = Idle::new(60, 0);
    let mut blank = Blank::new();
    poll_idle(&mut idle, &mut blank, true, 100 * SECOND);
    assert!(!blank.is_blanked());
    poll_idle(&mut idle, &mut blank, false, 159 * SECOND);
    assert!(!blank.is_blanked());
    poll_idle(&mut idle, &mut blank, false, 160 * SECOND);
    assert!(blank.is_blanked());
    poll_idle(&mut idle, &mut blank, false, 170 * SECOND);
    assert!(blank.is_blanked());
}

#[test]
fn input_ends_idleness_for_everyone() {
    let mut idle = Idle::new(60, 0);
    let mut notify = IdleNotify::new(0);
    notify.request(1, 1000, false);
    notify.request(2, 5000, true);
    assert_eq!(notify.refresh(2 * SECOND, false), [Event::Idled(1)]);
    assert!(notify.refresh(2 * SECOND, false).is_empty());
    let mut needs_render = false;
    assert_eq!(
        note_input(&mut needs_render, &mut idle, &mut notify, 3 * SECOND),
        [Event::Resumed(1)]
    );
    assert!(needs_render);
    assert_eq!(idle.last_activity, 3 * SECOND);
    // What follows input alone is not held back.
    assert_eq!(notify.refresh(9 * SECOND, true), [Event::Idled(2)]);
    notify.destroyed(2);
    assert!(notify.activity(10 * SECOND).is_empty());
}

#[test]
fn gamma_tables_are_read_and_restored() {
    let bytes: Vec<u8> = vec![1, 0, 2, 0, 3, 0, 4, 0, 5, 0, 6, 1];
    match read_ramps(&bytes, 2, true) {
        Ok(GammaUpdate::Program(r, g, b)) => {
            assert_eq!(r, [1, 2]);
            assert_eq!(g, [3, 4]);
            assert_eq!(b, [5, 262]);
        }
        other => panic!("unexpected {other:?}"),
    }
    assert!(matches!(
        read_ramps(&bytes, 3, true),
        Err(GammaError::Short)
    ));
    assert!(matches!(
        read_ramps(&bytes, 0, true),
        Err(GammaError::Unsupported)
    ));
    let mut control = GammaControl::new(2);
    assert_eq!(control.get_control(1), None);
    assert_eq!(control.get_control(2), Some(1));
    assert!(control.set_gamma(&bytes, false).is_ok());
    match apply_gamma(control.take_pending(), true) {
        GammaWrite::Program(r, _, _) => assert_eq!(r, [256, 512]),
        other => panic!("unexpected {other:?}"),
    }
    control.destroyed(1);
    assert!(control.take_pending().is_none());
    control.destroyed(2);
    assert!(matches!(
        apply_gamma(control.take_pending(), true),
        GammaWrite::Original
    ));
    assert!(matches!(
        apply_gamma(Some(GammaUpdate::Reset), false),
        GammaWrite::Nothing
    ));
    assert!(matches!(apply_gamma(None, true), GammaWrite::Nothing));
}

#[test]
fn one_client_controls_the_power() {
    let mut power = OutputPower::new();
    assert_eq!(power.get_output_power(1, false, false), Grant::Failed);
    assert_eq!(
        power.get_output_power(1, true, false),
        Grant::Granted { blanked: false }
    );
    assert_eq!(power.get_output_power(2, true, false), Grant::Failed);
    assert_eq!(power.set_mode(2, PowerMode::Off), SetMode::Ignored);
    assert_eq!(power.set_mode(1, PowerMode::Other), SetMode::Invalid);
    assert_eq!(
        power.set_mode(1, PowerMode::Off),
        SetMode::Accepted {
            blanked: true,
            needs_render: false
        }
    );
    assert_eq!(power.sync(true), None);
    assert_eq!(power.sync(false), Some(false));
    power.destroyed(1);
    assert_eq!(power.sync(true), None);
}

#[test]
fn refresh_from_a_90hz_mode() {
    assert_eq!(refresh_from_mhz(90_000), Refresh::Fixed(11_111_111));
}

#[test]
fn refresh_from_a_60hz_mode() {
    assert_eq!(refresh_from_mhz(60_000), Refresh::Fixed(16_666_666));
}

#[test]
fn refresh_without_a_rate_is_unknown() {
    assert_eq!(refresh_from_mhz(0), Refresh::Unknown);
    assert_eq!(refresh_from_mhz(-1), Refresh::Unknown);
}

const BUDGET: u64 = 11_111_000;

fn ms(n: f64) -> u64 {
    (n * MILLI as f64) as u64
}

fn in_ms(ns: u64) -> f64 {
    ns as f64 / MILLI as f64
}

#[test]
fn percentiles_from_known_set() {
    let mut s = FrameStats::new(BUDGET);
    for v in [10.0, 10.0, 10.0, 10.0, 30.0] {
        s.record_frame(ms(v));
    }
    let snap = s.snapshot();
    assert!((in_ms(snap.p50) - 10.0).abs() < 0.5);
    assert!((in_ms(snap.p99) - 30.0).abs() < 0.5);
}

#[test]
fn dropped_counts_over_budget_frames() {
    let mut s = FrameStats::new(BUDGET);
    for v in [5.0, 5.0, 20.0, 20.0] {
        s.record_frame(ms(v));
    }
    assert_eq!(s.snapshot().dropped, 2);
}

#[test]
fn fps_is_inverse_of_mean() {
    let mut s = FrameStats::new(BUDGET);
    for _ in 0..10 {
        s.record_frame(ms(10.0));
    }
    let snap = s.snapshot();
    let fps = snap.samples as f64 * SECOND as f64 / snap.total as f64;
    assert!((fps - 100.0).abs() < 1.0);
}

#[test]
fn ring_buffer_evicts_old_samples() {
    let mut s = FrameStats::with_capacity(BUDGET, 3);
    for v in [100.0, 100.0, 100.0, 10.0, 10.0, 10.0] {
        s.record_frame(ms(v));
    }
    assert!((in_ms(s.snapshot().p50) - 10.0).abs() < 0.5);
    assert_eq!(s.len(), 3);
}

#[test]
fn frame_times_are_reported_in_a_line() {
    let mut s = FrameStats::new(BUDGET);
    assert!(s.is_empty());
    s.record_frame(ms(20.0));
    assert_eq!(
        s.format_line("50", "20.0", "20.0"),
        "fps=50 p50=20.0ms p99=20.0ms dropped=1 n=1"
    );
}

#[test]
fn pictures_are_scaled_in_double_precision() {
    // Half a pixel, but just below it once the quotient was rounded.
    assert_eq!(fit(98, 49, 1, 5), area(0, 2, 1, 0));
    let sizes = [1, 2, 3, 7, 10, 49, 98, 640, 1080, 1920, 2160, 65_537, i32::MAX];
    for sw in sizes {
        for sh in sizes {
            for dw in sizes {
                for dh in sizes {
                    let scale = f64::min(
                        f64::from(dw) / f64::from(sw),
                        f64::from(dh) / f64::from(sh),
                    );
                    let w = (f64::from(sw) * scale).round() as i32;
                    let h = (f64::from(sh) * scale).round() as i32;
                    let expected = area((dw - w) / 2, (dh - h) / 2, w, h);
                    assert_eq!(fit(sw, sh, dw, dh), expected, "{sw}x{sh} on {dw}x{dh}");
                }
            }
        }
    }
    for sw in 1..120 {
        for sh in 1..120 {
            let scale = f64::min(1.0 / f64::from(sw), 5.0 / f64::from(sh));
            let w = (f64::from(sw) * scale).round() as i32;
            let h = (f64::from(sh) * scale).round() as i32;
            assert_eq!((fit(sw, sh, 1, 5).w, fit(sw, sh, 1, 5).h), (w, h));
        }
    }
}

#[test]
fn a_stall_does_not_fling_the_springs() {
    assert_eq!(frame_step(SECOND, SECOND + 11 * MILLI), 11 * MILLI);
    assert_eq!(frame_step(SECOND, SECOND + LONGEST_STEP), LONGEST_STEP);
    assert_eq!(frame_step(SECOND, 60 * SECOND), LONGEST_STEP);
    assert_eq!(LONGEST_STEP, SECOND / 30);
    assert_eq!(frame_step(SECOND, 0), 0);
    let (mut due, mut last) = (true, SECOND);
    assert_eq!(take_frame(&mut due, &mut last, 5 * SECOND), LONGEST_STEP);
    assert_eq!((due, last), (false, 5 * SECOND));
}

#[test]
fn a_frame_that_may_not_be_drawn_stays_asked_for() {
    let mut d = device(&[]);
    let (mut due, mut last) = (true, SECOND);
    d.pending_flip = true;
    let now = SECOND + 11 * MILLI;
    assert_eq!(d.begin_render(&mut due, &mut last, false, now), None);
    assert_eq!((due, last), (true, SECOND));
    d.pending_flip = false;
    assert_eq!(
        d.begin_render(&mut due, &mut last, false, now),
        Some(11 * MILLI)
    );
    assert_eq!((due, last), (false, now));
    due = true;
    assert_eq!(d.begin_render(&mut due, &mut last, true, now), None);
    assert!(due);
}
