//! Hardware keys.
use springchick::blank::Blank;
use springchick::keybinds::{
    action_name, candidate_paths, env_override, keycode_for_keysym, load_config, mod_mask,
    on_key_event, poll, reap, resolve, run_action, swallowed_by_wake, volume_args, Action,
    ActionStep, ConfigBinding, Filter, Loaded, ModMask, ModifiersState, Press, PressOutcome,
    ReadFile, VolumeChange, SINK,
};

fn binding(key: &str, press: Press, command: &str) -> ConfigBinding {
    ConfigBinding {
        key: key.to_string(),
        mods: ModMask::none(),
        press,
        action: Action::Command(command.to_string()),
    }
}

#[test]
fn unresolvable_names_are_dropped_not_fatal() {
    let cfg = vec![binding("Nonsense", Press::Short, "true")];
    assert!(resolve(cfg, |_| None).is_empty());
}

#[test]
fn names_that_resolve_keep_their_order_and_press() {
    let cfg = vec![
        binding("B", Press::Long, "two"),
        binding("Nonsense", Press::Short, "no"),
        binding("A", Press::Short, "one"),
    ];
    let out = resolve(cfg, |name| match name {
        "A" => Some(1),
        "B" => Some(2),
        _ => None,
    });
    let seen: Vec<(u32, Press)> = out.iter().map(|b| (b.keysym, b.press)).collect();
    assert_eq!(seen, [(2, Press::Long), (1, Press::Short)]);
}

#[test]
fn lock_modifiers_are_ignored() {
    let mods = ModifiersState {
        ctrl: false,
        alt: false,
        shift: false,
        caps_lock: true,
        logo: false,
        num_lock: true,
    };
    assert_eq!(mod_mask(&mods), ModMask::none());
    let held = ModifiersState { logo: true, ..mods };
    assert!(mod_mask(&held).logo);
}

#[test]
fn env_override_short_circuits_on_missing_var() {
    let env = |_: &str| None;
    assert_eq!(env_override(env), None);
}

#[test]
fn env_override_uses_springchick_config_only() {
    let env = |k: &str| match k {
        "SPRINGCHICK_CONFIG" => Some("/tmp/x.toml".to_string()),
        _ => None,
    };
    assert_eq!(env_override(env), Some("/tmp/x.toml".to_string()));
}

#[test]
fn candidate_paths_orders_xdg_then_etc() {
    let env = |k: &str| match k {
        "XDG_CONFIG_HOME" => Some("/home/u/.config".to_string()),
        _ => None,
    };
    assert_eq!(
        candidate_paths(env),
        vec![
            "/home/u/.config/springchick/config.toml".to_string(),
            "/etc/springchick/config.toml".to_string(),
        ]
    );
}

#[test]
fn candidate_paths_falls_back_to_home_for_xdg() {
    let env = |k: &str| match k {
        "HOME" => Some("/home/u".to_string()),
        _ => None,
    };
    assert_eq!(
        candidate_paths(env),
        vec![
            "/home/u/.config/springchick/config.toml".to_string(),
            "/etc/springchick/config.toml".to_string(),
        ]
    );
}

#[test]
fn candidate_paths_omits_xdg_when_neither_var_set() {
    let env = |_: &str| None;
    assert_eq!(
        candidate_paths(env),
        vec!["/etc/springchick/config.toml".to_string()],
    );
}

#[test]
fn the_first_file_that_is_there_is_read() {
    let reads = vec![
        ReadFile::Missing,
        ReadFile::Text("a".to_string()),
        ReadFile::Text("b".to_string()),
    ];
    assert!(matches!(load_config(&reads), Loaded::Text(t) if t == "a"));
    assert!(matches!(
        load_config(&vec![ReadFile::Missing]),
        Loaded::Defaults
    ));
    assert!(matches!(load_config(&vec![]), Loaded::Defaults));
}

#[test]
fn a_press_on_a_dark_panel_only_wakes_it() {
    let mut blank = Blank::new();
    blank.toggle();
    assert!(swallowed_by_wake(true, &mut blank));
    assert!(!blank.is_blanked());
    assert!(!swallowed_by_wake(true, &mut blank));
    blank.toggle();
    assert!(!swallowed_by_wake(false, &mut blank));
    assert!(blank.is_blanked());
}

#[test]
fn a_bound_key_never_reaches_the_app() {
    assert!(matches!(
        on_key_event(PressOutcome::Forward),
        (Filter::Forward, None)
    ));
    assert!(matches!(
        on_key_event(PressOutcome::Swallow),
        (Filter::Intercept, None)
    ));
    assert!(matches!(
        on_key_event(PressOutcome::Fire(Action::Home)),
        (Filter::Intercept, Some(Action::Home))
    ));
}

#[test]
fn the_lowest_keycode_with_the_symbol_is_taken() {
    assert_eq!(keycode_for_keysym(|k| k == 100 || k == 200), Some(100));
    assert_eq!(keycode_for_keysym(|k| k == 7), None);
    assert_eq!(keycode_for_keysym(|_| false), None);
}

#[test]
fn actions_become_steps() {
    assert!(matches!(run_action(Action::CloseApp), ActionStep::CloseFrontApp));
    assert!(matches!(run_action(Action::Home), ActionStep::ReturnHome));
    assert!(matches!(
        run_action(Action::VolumeMute),
        ActionStep::AdjustVolume(VolumeChange::Mute)
    ));
    let steps = poll(vec![
        Action::ToggleDisplay,
        Action::Command("x".to_string()),
    ]);
    assert!(matches!(steps[0], ActionStep::ToggleDisplay));
    assert!(matches!(&steps[1], ActionStep::Spawn(c) if c == "x"));
    assert_eq!(steps.len(), 2);
}

#[test]
fn finished_children_are_reaped() {
    let mut children = vec![10, 11, 12];
    reap(&mut children, &vec![true, false, true]);
    assert_eq!(children, [11]);
}

#[test]
fn volume_is_set_through_the_sink() {
    assert_eq!(
        volume_args(VolumeChange::Mute),
        ["set-mute", SINK, "toggle"]
    );
    assert!(volume_args(VolumeChange::Up).contains(&SINK.to_string()));
    assert_ne!(
        volume_args(VolumeChange::Up),
        volume_args(VolumeChange::Down)
    );
    assert_ne!(
        action_name(&Action::VolumeUp),
        action_name(&Action::VolumeDown)
    );
}
