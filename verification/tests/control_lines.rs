//! The lines that the control socket understands.
use springchick::debug_input::{is_idle, parse_line, refusal, Coord, DebugCmd};
use springchick::rotation::DeviceOrientation;

const W: f32 = 1224.0;
const H: f32 = 2700.0;

fn read(line: &str) -> Result<DebugCmd, String> {
    parse_line(line, W.to_bits(), H.to_bits(), |t| {
        t.parse::<f32>().ok().map(f32::to_bits)
    })
}

fn at(v: f32) -> Coord {
    v.to_bits()
}

#[test]
fn idle_only_when_all_quiet() {
    assert!(is_idle(false, false, false));
    assert!(!is_idle(true, false, false));
    assert!(!is_idle(false, true, false));
    assert!(!is_idle(false, false, true));
}

#[test]
fn parses_down() {
    assert_eq!(read("down 10 20"), Ok(DebugCmd::Down(at(10.0), at(20.0))));
}

#[test]
fn parses_move_up_tap() {
    assert_eq!(read("move 5 6"), Ok(DebugCmd::Move(at(5.0), at(6.0))));
    assert_eq!(read("up"), Ok(DebugCmd::Up));
    assert_eq!(read("tap 100 200"), Ok(DebugCmd::Tap(at(100.0), at(200.0))));
}

#[test]
fn parses_swipe_with_and_without_duration() {
    assert_eq!(
        read("swipe 1 2 3 4 500"),
        Ok(DebugCmd::Swipe {
            from: (at(1.0), at(2.0)),
            to: (at(3.0), at(4.0)),
            dur_ms: 500
        })
    );
    assert_eq!(
        read("swipe 1 2 3 4"),
        Ok(DebugCmd::Swipe {
            from: (at(1.0), at(2.0)),
            to: (at(3.0), at(4.0)),
            dur_ms: 200
        })
    );
}

#[test]
fn parses_touch() {
    assert_eq!(read("touch 10 20"), Ok(DebugCmd::Touch(at(10.0), at(20.0))));
    assert!(read("touch 10").is_err());
    assert!(read("touch -1 20").is_err());
    assert!(read("touch 10 20 30").is_err());
}

#[test]
fn parses_held_key_verbs() {
    assert_eq!(
        read("keydown Super_L").unwrap(),
        DebugCmd::KeyHold {
            name: "Super_L".into(),
            down: true
        }
    );
    assert_eq!(
        read("keyup Super_L").unwrap(),
        DebugCmd::KeyHold {
            name: "Super_L".into(),
            down: false
        }
    );
    assert!(read("keydown").is_err());
    assert!(read("keyup Super_L extra").is_err());
}

#[test]
fn parses_key_with_and_without_hold() {
    assert_eq!(
        read("key XF86PowerOff"),
        Ok(DebugCmd::Key {
            name: "XF86PowerOff".into(),
            hold_ms: 0
        })
    );
    assert_eq!(
        read("key XF86PowerOff 600"),
        Ok(DebugCmd::Key {
            name: "XF86PowerOff".into(),
            hold_ms: 600
        })
    );
    assert!(read("key").is_err());
    assert!(read("key A 600 extra").is_err());
}

#[test]
fn parses_settle_with_and_without_timeout() {
    assert_eq!(
        read("settle 1000"),
        Ok(DebugCmd::Settle { timeout_ms: 1000 })
    );
    assert_eq!(read("settle"), Ok(DebugCmd::Settle { timeout_ms: 2000 }));
}

#[test]
fn parses_launch() {
    assert_eq!(
        read("launch org.gnome.Maps"),
        Ok(DebugCmd::Launch {
            app_id: "org.gnome.Maps".into(),
            new_window: false,
        })
    );
    assert_eq!(
        read("launch foot new"),
        Ok(DebugCmd::Launch {
            app_id: "foot".into(),
            new_window: true,
        })
    );
    assert!(read("launch").is_err());
    assert!(read("launch foot copy").is_err());
}

#[test]
fn parses_layers() {
    assert_eq!(read("layers"), Ok(DebugCmd::Layers));
    assert!(read("layers all").is_err());
}

#[test]
fn parses_quit() {
    assert_eq!(read("quit"), Ok(DebugCmd::Quit));
    assert!(read("quit now").is_err());
}

#[test]
fn parses_reload() {
    assert_eq!(read("reload"), Ok(DebugCmd::Reload));
    assert!(read("reload now").is_err());
}

#[test]
fn parses_orientation() {
    assert_eq!(
        read("orientation left-up"),
        Ok(DebugCmd::Orientation(DeviceOrientation::LeftUp))
    );
    assert!(read("orientation sideways").is_err());
    assert!(read("orientation").is_err());
}

#[test]
fn coord_bounds_are_inclusive() {
    assert_eq!(read("down 0 0"), Ok(DebugCmd::Down(at(0.0), at(0.0))));
    assert_eq!(
        read("down 1224 2700"),
        Ok(DebugCmd::Down(at(1224.0), at(2700.0)))
    );
}

#[test]
fn out_of_range_coords_rejected() {
    assert_eq!(read("down -1 0"), Err("range".into()));
    assert_eq!(read("down 1225 0"), Err("range".into()));
    assert_eq!(read("down 0 2701"), Err("range".into()));
    assert!(read("swipe 0 0 9999 0").is_err());
}

#[test]
fn numbers_that_are_none_are_out_of_range() {
    assert_eq!(read("down NaN 0"), Err("range".into()));
    assert_eq!(read("down inf 0"), Err("range".into()));
    assert_eq!(read("down -0 0"), Ok(DebugCmd::Down(at(-0.0), at(0.0))));
}

#[test]
fn bad_input_rejected() {
    assert!(read("").unwrap_err().starts_with("parse"));
    assert!(read("wobble 1 2").unwrap_err().starts_with("parse"));
    assert!(read("down 1").unwrap_err().starts_with("parse"));
    assert!(read("down x y").unwrap_err().starts_with("parse"));
    assert!(read("up extra").unwrap_err().starts_with("parse"));
}

#[test]
fn a_refused_line_is_answered() {
    assert_eq!(refusal("range"), "err range\n");
}
