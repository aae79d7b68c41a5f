//! Screenshots, copies of the screen, the control socket and the sensor.
use springchick::capture::{copy_rows, shm_target, Fourcc, ShmFormat, ShmTarget};
use springchick::catalog_watch::{after_wait, take, WaitEnd, WatchStep};
use springchick::debug_input::{
    idle, Control, DebugCmd, KeyLookup, Motion, Situation, Step, Tick, TOUCH_HOLD_MS,
};
use springchick::ipc::{read_reply, request_line, socket_path, Exit};
use springchick::rotation::DeviceOrientation;
use springchick::screenshot::{encode_png, offer, to_clipboard, MIME};
use springchick::sensor::{Cmd, Received, Sensor, Worker, WorkerStep};
use springchick::text::{decimal_of, read_i32, read_u32};
use springchick::time::{MILLI, SECOND};

#[test]
fn encodes_a_png() {
    let png = encode_png(&[0xff; 16], 2, 2).unwrap();
    assert_eq!(&png[..8], b"\x89PNG\r\n\x1a\n");
}

#[test]
fn rejects_short_input() {
    assert!(encode_png(&[0xff; 4], 2, 2).is_none());
}

#[test]
fn a_picture_reads_back() {
    let pixels: Vec<u8> = (0..16).collect();
    let file = encode_png(&pixels, 2, 2).unwrap();
    let decoder = png::Decoder::new(&file[..]);
    let mut reader = decoder.read_info().unwrap();
    let mut out = vec![0; reader.output_buffer_size()];
    let info = reader.next_frame(&mut out).unwrap();
    assert_eq!((info.width, info.height), (2, 2));
    assert_eq!(info.color_type, png::ColorType::Rgba);
    assert_eq!(out, pixels);
}

#[test]
fn a_picture_is_offered_to_the_clipboard() {
    let o = to_clipboard(&[7; 16], 2, 2).unwrap();
    assert_eq!(o.mime, MIME);
    assert_eq!(o.bytes, encode_png(&[7; 16], 2, 2).unwrap());
    assert!(to_clipboard(&[7; 3], 2, 2).is_none());
    assert!(offer(None).is_none());
    assert!(encode_png(&[], 0, 0).is_none());
}

#[test]
fn rows_are_copied_with_the_stride_of_the_client() {
    let target = shm_target(ShmFormat::Argb8888, 1, 2, 6).unwrap();
    assert_eq!(
        target,
        ShmTarget {
            w: 1,
            h: 2,
            stride: 6,
            fourcc: Fourcc::Argb8888
        }
    );
    let pixels: Vec<u8> = (1..=8).collect();
    let mut pool = vec![0; 13];
    assert!(copy_rows(&pixels, &mut pool, 1, &target));
    assert_eq!(pool, [0, 1, 2, 3, 4, 0, 0, 5, 6, 7, 8, 0, 0]);
    let mut small = vec![0; 12];
    assert!(!copy_rows(&pixels, &mut small, 1, &target));
    assert_eq!(small, vec![0; 12]);
    assert!(shm_target(ShmFormat::Other, 1, 2, 6).is_none());
}

#[test]
fn the_socket_is_where_the_environment_says() {
    let some = |s: &str| Some(s.to_string());
    assert_eq!(socket_path(&some("/a"), &some("/b"), &some("/r")), "/a");
    assert_eq!(socket_path(&None, &some("/b"), &some("/r")), "/b");
    assert_eq!(
        socket_path(&None, &None, &some("/r")),
        "/r/springchick-ipc.sock"
    );
    assert_eq!(
        socket_path(&None, &None, &None),
        "/tmp/springchick-ipc.sock"
    );
}

#[test]
fn requests_are_lines_and_replies_decide() {
    assert_eq!(
        request_line(&vec!["tap".to_string(), "1".to_string(), "2".to_string()]),
        Some("tap 1 2\n".to_string())
    );
    assert_eq!(request_line(&vec![]), None);
    assert_eq!(
        read_reply("ok done\n"),
        (Some("ok done".to_string()), Exit::Success)
    );
    assert_eq!(
        read_reply("err range\n"),
        (Some("err range".to_string()), Exit::Failure)
    );
    assert_eq!(read_reply("\n"), (None, Exit::Failure));
    assert_eq!(
        [
            Exit::Success.code(),
            Exit::Failure.code(),
            Exit::Misuse.code()
        ],
        [0, 1, 2]
    );
}

#[test]
fn the_accelerometer_is_claimed_once() {
    let mut sensor = Sensor::new();
    assert_eq!(sensor.set_wanted(false), None);
    assert_eq!(sensor.set_wanted(true), Some(Cmd::Wanted(true)));
    assert_eq!(sensor.set_wanted(true), None);
    assert_eq!(
        sensor.latest(&vec![DeviceOrientation::LeftUp, DeviceOrientation::Normal]),
        Some(DeviceOrientation::Normal)
    );
    assert_eq!(sensor.latest(&vec![]), None);

    let mut worker = Worker::new();
    let wanted = Received::Cmd(Cmd::Wanted(true));
    assert_eq!(worker.on_received(wanted), WorkerStep::Claim);
    assert!(!worker.on_claimed(false));
    assert_eq!(worker.on_received(wanted), WorkerStep::Claim);
    assert!(worker.on_claimed(true));
    assert_eq!(worker.on_received(wanted), WorkerStep::Listen);
    assert!(worker.must_release());
    assert_eq!(
        worker.on_received(Received::Cmd(Cmd::Wanted(false))),
        WorkerStep::Release
    );
    assert!(!worker.must_release());
    assert_eq!(
        worker.on_received(Received::Disconnected),
        WorkerStep::Leave
    );
}

#[test]
fn changes_of_the_catalog_are_taken_once() {
    let mut dirty = true;
    assert!(take(&mut dirty));
    assert!(!take(&mut dirty));
    assert_eq!(after_wait(WaitEnd::Changed), WatchStep::Settle);
    assert_eq!(after_wait(WaitEnd::Interrupted), WatchStep::Wait);
    assert_eq!(after_wait(WaitEnd::Failed), WatchStep::Stop);
}

#[test]
fn numbers_are_written_and_read() {
    assert_eq!(decimal_of(0), "0");
    assert_eq!(decimal_of(18446744073709551615), "18446744073709551615");
    assert_eq!(read_u32("4294967295"), Some(4294967295));
    assert_eq!(read_u32("4294967296"), None);
    assert_eq!(read_u32(""), None);
    let chars: Vec<char> = "-2147483648".chars().collect();
    assert_eq!(read_i32(&chars), Some(-2147483648));
}

fn situation() -> Situation {
    Situation {
        now: SECOND,
        locked: false,
        cursor_visible: false,
        idle: false,
        key: KeyLookup::UnknownKeysym,
        known_app: false,
        layers: String::new(),
    }
}

fn tick(ms: u128) -> Tick {
    Tick {
        now: SECOND + ms * MILLI,
        locked: false,
        quiet: true,
    }
}

#[test]
fn a_swipe_presses_glides_and_lifts() {
    let mut c = Control::new();
    let swipe = DebugCmd::Swipe {
        from: (1, 2),
        to: (3, 4),
        dur_ms: 100,
    };
    assert!(c.dispatch(&swipe, &situation()).reply.is_none());
    let first = c.drain(&tick(0)).unwrap();
    assert_eq!(first.steps[..2], [Step::Motion(1, 2), Step::Press]);
    let mid = c.drain(&tick(50)).unwrap();
    assert!(mid.steps.contains(&Step::Glide(50)));
    let last = c.drain(&tick(100)).unwrap();
    assert_eq!(last.steps.last(), Some(&Step::Release));
    assert_eq!(last.reply.as_deref(), Some("ok\n"));
    assert!(c.active_gesture.is_none());
}

#[test]
fn a_touch_is_held_for_a_moment() {
    let mut c = Control::new();
    let out = c.dispatch(&DebugCmd::Touch(1, 2), &situation());
    assert!(out.steps.contains(&Step::TouchDown(1, 2)));
    assert!(out.reply.is_none());
    let hold = TOUCH_HOLD_MS as u128;
    assert!(c
        .drain(&tick(hold - 1))
        .map_or(true, |o| o.reply.is_none()));
    let up = c.drain(&tick(hold)).unwrap();
    assert!(up.steps.contains(&Step::TouchUp));
    assert_eq!(up.reply.as_deref(), Some("ok\n"));
}

#[test]
fn settle_answers_at_rest_or_in_time() {
    let mut c = Control::new();
    let out = c.dispatch(&DebugCmd::Settle { timeout_ms: 10 }, &situation());
    assert!(out.reply.is_none());
    let late = c
        .drain(&Tick {
            quiet: false,
            ..tick(10)
        })
        .unwrap();
    assert!(late.reply.unwrap().starts_with("err"));
    let calm = Situation {
        idle: true,
        ..situation()
    };
    let out = c.dispatch(&DebugCmd::Settle { timeout_ms: 10 }, &calm);
    assert_eq!(out.reply.as_deref(), Some("ok\n"));
}

#[test]
fn a_locked_session_takes_no_swipe() {
    let mut c = Control::new();
    let locked = Situation {
        locked: true,
        ..situation()
    };
    let out = c.dispatch(&DebugCmd::Tap(1, 2), &locked);
    assert!(!out.steps.contains(&Step::Press));
}

#[test]
fn a_turn_that_waits_is_no_rest() {
    let still = Motion {
        ui: false,
        grid_settled: true,
        turn_pending: false,
        fading: false,
        pointer_down: false,
    };
    let c = Control::new();
    assert!(idle(&c, &still));
    assert!(!idle(
        &c,
        &Motion {
            turn_pending: true,
            ..still
        }
    ));
}
