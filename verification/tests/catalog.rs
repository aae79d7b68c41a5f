//! Desktop entries and what they launch.
use springchick::catalog::{
    is_desktop_file, join_path, knows_id, launch_command, list_of, locale_candidates,
    parse_desktop, parse_desktop_in, resolve_program, scan_apps, show_in_this_desktop, stem_of,
    terminal_prefix, unescape_value, xdg_data_dirs, AppEntry, DesktopEnv,
};
use springchick::exec_line::{parse_exec, parse_exec_with, ExecContext};

const SAMPLE: &str =
    "[Desktop Entry]\nType=Application\nName=Maps\nExec=gnome-maps %U\nIcon=org.gnome.Maps\n";

fn unset(_: &str) -> Option<String> {
    None
}

/// What is installed on the machine that the tests speak of.
fn installed(program: &str) -> bool {
    program == "/bin/sh"
}

fn parse(path: &str, contents: &str) -> Option<AppEntry> {
    parse_desktop(path, contents, unset, installed)
}

fn unescape(s: &str) -> String {
    let chars: Vec<char> = s.chars().collect();
    unescape_value(&chars).into_iter().collect()
}

fn env_for(locale: &str, desktops: &[&str]) -> DesktopEnv {
    DesktopEnv {
        locales: locale_candidates(locale),
        desktops: desktops.iter().map(|d| d.to_string()).collect(),
    }
}

fn parse_in(path: &str, contents: &str, env: &DesktopEnv) -> Option<AppEntry> {
    parse_desktop_in(path, contents, env, installed)
}

#[test]
fn parses_basic_entry() {
    let e = parse("/x/org.gnome.Maps.desktop", SAMPLE).unwrap();
    assert_eq!(e.id, "org.gnome.Maps");
    assert_eq!(e.name, "Maps");
    assert_eq!(e.exec_line, "gnome-maps %U");
    assert_eq!(e.icon, "org.gnome.Maps");
}

#[test]
fn skips_nodisplay() {
    let hidden = format!("{SAMPLE}NoDisplay=true\n");
    assert!(parse("/x/a.desktop", &hidden).is_none());
}

#[test]
fn skips_non_application() {
    let link = "[Desktop Entry]\nType=Link\nName=X\nURL=http://x\n";
    assert!(parse("/x/a.desktop", link).is_none());
}

#[test]
fn parse_exec_strips_field_codes() {
    assert_eq!(parse_exec("gnome-maps %U"), ["gnome-maps"]);
    assert_eq!(parse_exec("firefox %u %F"), ["firefox"]);
    assert_eq!(
        parse_exec("env VAR=1 app %f --flag"),
        ["env", "VAR=1", "app", "--flag"]
    );
    assert_eq!(parse_exec("%i%c%k app"), ["app"]);
    assert_eq!(parse_exec("foot"), ["foot"]);
    assert_eq!(parse_exec("app --arg val"), ["app", "--arg", "val"]);
}

#[test]
fn parse_exec_unquotes_arguments() {
    assert_eq!(
        parse_exec(r#""/nix/store/x y/bin/app" --run "https://h/?a=1&b=2""#),
        ["/nix/store/x y/bin/app", "--run", "https://h/?a=1&b=2"]
    );
    assert_eq!(
        parse_exec(r#"app "two words" tail"#),
        ["app", "two words", "tail"]
    );
    assert_eq!(parse_exec(r#"app """#), ["app", ""]);
}

#[test]
fn parse_exec_accepts_single_quotes() {
    assert_eq!(
        parse_exec("'/nix/store/x y/bin/app' --run 'https://h/?a=1&b=2'"),
        ["/nix/store/x y/bin/app", "--run", "https://h/?a=1&b=2"]
    );
    assert_eq!(parse_exec("app 'two words'"), ["app", "two words"]);
    assert_eq!(parse_exec(r"app 'a\b'"), ["app", r"a\b"]);
    assert_eq!(parse_exec(r#"app 'say "hi"'"#), ["app", r#"say "hi""#]);
    assert_eq!(parse_exec(r#"app "it's""#), ["app", "it's"]);
}

#[test]
fn parse_exec_handles_escapes() {
    assert_eq!(parse_exec(r#"app "a\"b""#), [r#"app"#, r#"a"b"#]);
    assert_eq!(parse_exec(r#"app "a\\b""#), [r"app", r"a\b"]);
    assert_eq!(parse_exec(r#"app "p\$v""#), ["app", "p$v"]);
    assert_eq!(parse_exec(r#"app "C:\x""#), [r"app", r"C:\x"]);
}

#[test]
fn parse_exec_keeps_percent_encoding_in_quoted_urls() {
    assert_eq!(
        parse_exec(r#"app "https://h/a%20b?x=1""#),
        ["app", "https://h/a%20b?x=1"]
    );
    assert_eq!(parse_exec("app 50%%"), ["app", "50%"]);
}

#[test]
fn expands_icon_name_and_desktop_file_codes() {
    let ctx = ExecContext {
        icon: "org.gnome.Maps",
        name: "Maps of the World",
        desktop_file: "/x/org.gnome.Maps.desktop",
    };
    assert_eq!(
        parse_exec_with("app %i", &ctx),
        ["app", "--icon", "org.gnome.Maps"]
    );
    assert_eq!(
        parse_exec_with("app %c", &ctx),
        ["app", "Maps of the World"]
    );
    assert_eq!(
        parse_exec_with("app %k", &ctx),
        ["app", "/x/org.gnome.Maps.desktop"]
    );
    assert_eq!(
        parse_exec_with("app %i %c", &ExecContext::default()),
        ["app"]
    );
}

#[test]
fn unescapes_string_values() {
    let entry = parse(
        "/x/a.desktop",
        "[Desktop Entry]\nType=Application\nName=Foo\\sBar\nExec=app\\sname\nIcon=i\n",
    )
    .unwrap();
    assert_eq!(entry.name, "Foo Bar");
    assert_eq!(entry.exec_line, "app name");
    assert_eq!(unescape(r"a\\b"), r"a\b");
    assert_eq!(unescape(r"line\nbreak"), "line\nbreak");
    assert_eq!(unescape(r"C:\x"), r"C:\x");
}

#[test]
fn locale_fallback_order_follows_spec() {
    assert_eq!(
        locale_candidates("sr_RS@latin.UTF-8"),
        ["sr_RS@latin", "sr_RS", "sr@latin", "sr"]
    );
    assert_eq!(locale_candidates("nb_NO.UTF-8"), ["nb_NO", "nb"]);
    assert_eq!(locale_candidates("de"), ["de"]);
    assert!(locale_candidates("").is_empty());
}

#[test]
fn picks_best_localized_name() {
    let contents = "[Desktop Entry]\nType=Application\nExec=x\n\
                    Name=Files\nName[nb]=Filer\nName[nb_NO]=Filer NO\nName[de]=Dateien\n";
    let parse = |locale: &str| {
        parse_in(
            "/x/a.desktop",
            contents,
            &env_for(locale, &["springchick"]),
        )
        .unwrap()
        .name
    };

    assert_eq!(parse("nb_NO.UTF-8"), "Filer NO");
    assert_eq!(parse("nb"), "Filer");
    assert_eq!(parse("de_DE.UTF-8"), "Dateien");
    assert_eq!(parse(""), "Files");
    assert_eq!(parse("fr_FR"), "Files");
}

#[test]
fn localized_name_wins_regardless_of_line_order() {
    let contents = "[Desktop Entry]\nType=Application\nExec=x\nName[nb]=Filer\nName=Files\n";
    let entry = parse_in("/x/a.desktop", contents, &env_for("nb", &[])).unwrap();
    assert_eq!(entry.name, "Filer");
}

#[test]
fn only_show_in_filters_by_current_desktop() {
    let contents = "[Desktop Entry]\nType=Application\nName=A\nExec=x\nOnlyShowIn=GNOME;KDE;\n";
    let shown =
        |desktops: &[&str]| parse_in("/x/a.desktop", contents, &env_for("", desktops)).is_some();
    assert!(!shown(&["springchick"]));
    assert!(shown(&["GNOME"]));
    assert!(shown(&["springchick", "KDE"]));
}

#[test]
fn not_show_in_excludes_listed_desktops() {
    let contents = "[Desktop Entry]\nType=Application\nName=A\nExec=x\nNotShowIn=GNOME;\n";
    let shown =
        |desktops: &[&str]| parse_in("/x/a.desktop", contents, &env_for("", desktops)).is_some();
    assert!(shown(&["springchick"]));
    assert!(!shown(&["GNOME"]));
}

#[test]
fn parses_terminal_path_and_dbus_keys() {
    let contents = "[Desktop Entry]\nType=Application\nName=Top\nExec=htop\n\
                    Terminal=true\nPath=/var/log\nDBusActivatable=true\n";
    let entry = parse("/x/top.desktop", contents).unwrap();
    assert!(entry.terminal);
    assert_eq!(entry.path, Some("/var/log".to_string()));
    assert!(entry.dbus_activatable);
    assert_eq!(entry.desktop_file, "/x/top.desktop");
}

#[test]
fn dbus_activatable_entry_may_omit_exec() {
    let with_exec = "[Desktop Entry]\nType=Application\nName=A\nDBusActivatable=true\n";
    let entry = parse("/x/a.desktop", with_exec).unwrap();
    assert!(entry.exec_line.is_empty());
    let command = launch_command(&entry, &None, installed).unwrap();
    assert_eq!(command.argv, ["gio", "launch", "/x/a.desktop"]);

    let no_exec = "[Desktop Entry]\nType=Application\nName=A\n";
    assert!(parse("/x/a.desktop", no_exec).is_none());
}

#[test]
fn hides_entries_whose_tryexec_is_missing() {
    let missing = "[Desktop Entry]\nType=Application\nName=A\nExec=x\n\
                   TryExec=/nonexistent/springchick-test-binary\n";
    assert!(parse("/x/a.desktop", missing).is_none());

    let present = "[Desktop Entry]\nType=Application\nName=A\nExec=x\nTryExec=/bin/sh\n";
    assert!(parse("/x/a.desktop", present).is_some());
}

#[test]
fn show_in_defaults_to_visible() {
    assert!(show_in_this_desktop(&None, &None, &vec![]));
}

#[test]
fn launch_command_carries_working_directory() {
    let entry = AppEntry {
        exec_line: "app --flag".into(),
        path: Some("/var/log".into()),
        ..Default::default()
    };
    let command = launch_command(&entry, &None, installed).unwrap();
    assert_eq!(command.argv, ["app", "--flag"]);
    assert_eq!(command.cwd, Some("/var/log".to_string()));
}

#[test]
fn terminal_apps_are_wrapped_in_a_terminal() {
    let entry = AppEntry {
        exec_line: "htop".into(),
        terminal: true,
        ..Default::default()
    };
    // With a terminal emulator the program must not come first, but must still
    // be what is run.
    let command = launch_command(&entry, &None, |p| p == "foot").unwrap();
    assert_ne!(command.argv.first().map(String::as_str), Some("htop"));
    assert_eq!(command.argv.last().map(String::as_str), Some("htop"));
    // Without one there is nothing to launch.
    assert!(launch_command(&entry, &None, |_| false).is_none());
}

#[test]
fn parse_exec_handles_empty_input() {
    assert!(parse_exec("").is_empty());
    assert!(parse_exec("   ").is_empty());
    assert!(parse_exec("%U").is_empty());
}

#[test]
fn terminal_variable_comes_first() {
    let wanted = Some("kitty".to_string());
    assert_eq!(
        terminal_prefix(&wanted, |_| true),
        Some(vec!["kitty".to_string()])
    );
    // An emulator that is not known is given the usual word.
    assert_eq!(
        terminal_prefix(&Some("ghostty".to_string()), |_| true),
        Some(vec!["ghostty".to_string(), "-e".to_string()])
    );
    // One that is not installed gives way to one that is.
    assert_eq!(
        terminal_prefix(&wanted, |p| p == "wezterm"),
        Some(vec![
            "wezterm".to_string(),
            "start".to_string(),
            "--".to_string()
        ])
    );
    assert!(terminal_prefix(&None, |_| false).is_none());
}

#[test]
fn paths_are_joined_and_taken_apart() {
    assert_eq!(join_path("/a", "b"), "/a/b");
    assert_eq!(join_path("/a/", "b"), "/a/b");
    assert_eq!(join_path("/a", "/b"), "/b");
    assert_eq!(join_path("", "b"), "b");
    assert_eq!(
        stem_of("/x/org.gnome.Maps.desktop"),
        Some("org.gnome.Maps".to_string())
    );
    assert_eq!(stem_of("/x/.hidden"), Some(".hidden".to_string()));
    assert!(is_desktop_file("/x/a.desktop"));
    assert!(!is_desktop_file("/x/a.desktop.bak"));
    assert!(!is_desktop_file("/x/desktop"));
}

#[test]
fn data_directories_come_from_the_environment() {
    assert_eq!(
        xdg_data_dirs(&None, &Some("/home/u".into()), &Some("/a:/b".into())),
        ["/home/u/.local/share", "/a", "/b"]
    );
    assert_eq!(
        xdg_data_dirs(&Some("/d".into()), &Some("/home/u".into()), &Some("/a".into())),
        ["/d", "/a"]
    );
}

#[test]
fn lists_drop_empty_pieces() {
    assert_eq!(list_of("GNOME;;KDE;", ';'), ["GNOME", "KDE"]);
    assert!(list_of("", ';').is_empty());
}

#[test]
fn the_first_of_two_entries_with_one_id_stays() {
    let one = parse("/a/app.desktop", SAMPLE);
    let two = parse(
        "/b/app.desktop",
        "[Desktop Entry]\nType=Application\nName=Other\nExec=x\n",
    );
    let apps = scan_apps(vec![one, None, two, parse("/b/more.desktop", SAMPLE)]);
    let names: Vec<(&str, &str)> = apps
        .iter()
        .map(|a| (a.id.as_str(), a.name.as_str()))
        .collect();
    assert_eq!(names, [("app", "Maps"), ("more", "Maps")]);
    assert!(knows_id(&apps, "more"));
    assert!(!knows_id(&apps, "none"));
}

#[test]
fn programs_are_found_on_the_path() {
    let dirs = vec!["/bin".to_string(), "/usr/bin".to_string()];
    let there = |p: &str| p == "/usr/bin/foot" || p == "/opt/x";
    assert_eq!(
        resolve_program("foot", &dirs, there),
        Some("/usr/bin/foot".to_string())
    );
    assert_eq!(
        resolve_program("/opt/x", &dirs, there),
        Some("/opt/x".to_string())
    );
    assert!(resolve_program("/opt/y", &dirs, there).is_none());
    assert!(resolve_program("", &dirs, there).is_none());
    assert!(resolve_program("x", &dirs, there).is_none());
}

#[test]
fn environment_decides_locale_and_desktop() {
    let contents =
        "[Desktop Entry]\nType=Application\nExec=x\nName=Files\nName[de]=Dateien\nOnlyShowIn=GNOME;\n";
    let var = |name: &str| match name {
        "LANG" => Some("de_DE.UTF-8".to_string()),
        "XDG_CURRENT_DESKTOP" => Some("GNOME".to_string()),
        _ => None,
    };
    assert_eq!(
        parse_desktop("/x/a.desktop", contents, var, installed)
            .unwrap()
            .name,
        "Dateien"
    );
    assert!(parse_desktop("/x/a.desktop", contents, unset, installed).is_none());
}

#[test]
fn other_groups_never_change_the_entry() {
    let entry = "[Desktop Entry]\nType=Application\nName=Maps\nExec=maps\n";
    let path = "/usr/share/applications/maps.desktop";
    let env = DesktopEnv::default();
    let alone = parse_desktop_in(path, entry, &env, |_| true).unwrap();
    for end in ["", "\r"] {
        let longer = format!(
            "{entry}{end}\n[Desktop Action new]\nName=New\nExec=other\nNoDisplay=true\n[X]\nHidden=true\n"
        );
        let with = parse_desktop_in(path, &longer, &env, |_| true).unwrap();
        assert_eq!(with, alone);
    }
}

#[test]
fn an_escaped_space_is_a_space() {
    let chars: Vec<char> = "\\s a\\sb\\\\s".chars().collect();
    let read: String = unescape_value(&chars).into_iter().collect();
    assert_eq!(read, "  a b\\s");
}

#[test]
fn a_quoted_line_is_split_into_its_arguments() {
    assert_eq!(
        parse_exec("\"a b\" \"%u\" \"c\\\"d\""),
        ["a b", "%u", "c\"d"]
    );
}
