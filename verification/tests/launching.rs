//! Launching apps, and whose window is whose.
use std::cell::RefCell;

use springchick::catalog::{AppEntry, LaunchCommand};
use springchick::launcher::{
    after_spawn, next_scope, plan, scope_name, spawn_app, spawn_exec, SpawnNext, APP_SLICE,
};
use springchick::provenance::{ancestry, ancestry_with, match_ancestry, parse_ppid, MAX_DEPTH};
use springchick::resources::{
    apply, args, cpu_ranges, lists_cpuset, little_cluster, resolve_allowed_cpus, unit_from_cgroup,
    AppCgroup, Resources, Tier,
};
use springchick::session::publish_wayland_display;

#[test]
fn scope_names_are_unique_and_systemd_safe() {
    let a = scope_name("org.gnome.Fractal", 42, 0);
    assert_eq!(a, "springchick-42-0-org.gnome.Fractal.scope");
    assert_ne!(a, scope_name("org.gnome.Fractal", 42, 1));
    assert_ne!(a, scope_name("org.gnome.Fractal", 43, 0));
}

#[test]
fn scope_name_sanitizes_app_id() {
    assert_eq!(
        scope_name("weird id/with@chars", 1, 2),
        "springchick-1-2-weird_id_with_chars.scope"
    );
}

#[test]
fn scopes_are_numbered_only_where_they_are_used() {
    let mut seq = 5;
    assert_eq!(next_scope(false, "a", 1, &mut seq), None);
    assert_eq!(seq, 5);
    assert_eq!(
        next_scope(true, "a", 1, &mut seq),
        Some("springchick-1-5-a.scope".to_string())
    );
    assert_eq!(seq, 6);
}

fn command(argv: &[&str]) -> LaunchCommand {
    LaunchCommand {
        argv: argv.iter().map(|a| a.to_string()).collect(),
        cwd: Some("/var".to_string()),
    }
}

#[test]
fn a_scope_only_wraps_what_is_run() {
    let bare = plan(&command(&["app", "-x"]), "wayland-1", "tok", None).unwrap();
    assert_eq!(bare.program, "app");
    assert_eq!(bare.args, ["-x"]);
    assert_eq!(bare.cwd.as_deref(), Some("/var"));
    let names: Vec<(&str, &str)> = bare
        .set
        .iter()
        .map(|v| (v.name.as_str(), v.value.as_str()))
        .collect();
    assert!(names.contains(&("WAYLAND_DISPLAY", "wayland-1")));
    assert!(names.contains(&("XDG_ACTIVATION_TOKEN", "tok")));
    assert!(names.contains(&("DESKTOP_STARTUP_ID", "tok")));
    assert!(bare.unset.contains(&"DISPLAY".to_string()));
    assert!(bare.unset.contains(&"QT_IM_MODULE".to_string()));

    let scoped = plan(&command(&["app", "-x"]), "wayland-1", "tok", Some("s.scope")).unwrap();
    assert_eq!(scoped.program, "systemd-run");
    assert_eq!(scoped.args[scoped.args.len() - 2..], ["app", "-x"]);
    assert!(scoped.args.iter().any(|a| a.contains(APP_SLICE)));
    assert!(scoped.args.iter().any(|a| a.contains("s.scope")));

    assert!(plan(&command(&[]), "w", "t", None).is_none());
}

#[test]
fn an_app_in_a_scope_can_fall_back() {
    let entry = AppEntry {
        exec_line: "app".into(),
        ..Default::default()
    };
    let launch = spawn_app(&entry, &None, |_| true, "w", "t", Some("s.scope")).unwrap();
    assert_eq!(launch.first.program, "systemd-run");
    assert_eq!(launch.fallback.unwrap().program, "app");
    let bare = spawn_exec("app one", &None, |_| true, "w", "t").unwrap();
    assert_eq!(bare.first.args, ["one"]);
    assert!(bare.fallback.is_none());
    assert!(spawn_exec("", &None, |_| true, "w", "t").is_none());

    assert_eq!(after_spawn(true, false, true), SpawnNext::Running);
    assert_eq!(after_spawn(false, false, true), SpawnNext::Retry);
    assert_eq!(after_spawn(false, true, true), SpawnNext::Failed);
    assert_eq!(after_spawn(false, false, false), SpawnNext::Failed);
}

#[test]
fn parses_ppid_from_status() {
    let status = "Name:\tfoot\nUmask:\t0022\nState:\tS (sleeping)\nTgid:\t42\nPid:\t42\nPPid:\t17\nTracerPid:\t0\n";
    assert_eq!(parse_ppid(status), Some(17));
}

#[test]
fn missing_ppid_is_none() {
    assert_eq!(parse_ppid("Name:\tfoot\nPid:\t42\n"), None);
    assert_eq!(parse_ppid(""), None);
}

/// A process tree of `(child, parent)` links.
fn tree(links: &[(i32, i32)]) -> impl Fn(i32) -> Option<i32> + '_ {
    move |pid| links.iter().find(|(c, _)| *c == pid).map(|(_, p)| *p)
}

#[test]
fn walks_up_to_max_depth() {
    let links = [(10, 9), (9, 8), (8, 7), (7, 6), (6, 5), (5, 4), (4, 3)];
    let chain = ancestry_with(10, 3, tree(&links));
    assert_eq!(chain, vec![10, 9, 8, 7]);
}

#[test]
fn stops_at_init() {
    let links = [(10, 9), (9, 1)];
    assert_eq!(ancestry_with(10, MAX_DEPTH, tree(&links)), vec![10, 9]);
    assert_eq!(ancestry(10, tree(&links)), vec![10, 9]);
}

#[test]
fn stops_when_process_is_gone() {
    let links = [(10, 9)];
    assert_eq!(ancestry_with(10, MAX_DEPTH, tree(&links)), vec![10, 9]);
}

#[test]
fn direct_child_matches() {
    assert_eq!(match_ancestry(&[100, 200], &[200]), Some(1));
}

#[test]
fn grandchild_matches_through_ancestry() {
    assert_eq!(match_ancestry(&[100], &[400, 300, 100]), Some(0));
}

#[test]
fn nearest_launch_ancestor_wins() {
    assert_eq!(match_ancestry(&[100, 300], &[400, 300, 100]), Some(1));
}

#[test]
fn unrelated_client_matches_nothing() {
    assert_eq!(match_ancestry(&[100, 200], &[400, 300]), None);
}

#[test]
fn no_launches_matches_nothing() {
    assert_eq!(match_ancestry(&[], &[400, 300]), None);
}

const V2: &str =
    "0::/user.slice/user-1000.slice/user@1000.service/app.slice/springchick-42-0-foot.scope\n";

#[test]
fn reads_scope_from_cgroup_v2_line() {
    let app = unit_from_cgroup(V2).expect("a scope");
    assert_eq!(app.unit, "springchick-42-0-foot.scope");
    assert!(app.path.starts_with("/user.slice/"));
}

#[test]
fn reads_a_scope_we_did_not_create() {
    let body = "0::/user.slice/user-1000.slice/user@1000.service/app.slice/app-flatpak-org.gnome.Fractal.Devel-3308067827.scope\n";
    assert_eq!(
        unit_from_cgroup(body).map(|a| a.unit).as_deref(),
        Some("app-flatpak-org.gnome.Fractal.Devel-3308067827.scope")
    );
}

#[test]
fn services_are_not_tiered() {
    let body = "0::/user.slice/user-1000.slice/user@1000.service/app.slice/wvkbd.service\n";
    assert!(unit_from_cgroup(body).is_none());
}

#[test]
fn ignores_cgroup_v1_lines() {
    let body = "1:name=systemd:/user.slice/whatever.scope\n";
    assert!(unit_from_cgroup(body).is_none());
}

#[test]
fn empty_cgroup_body_is_none() {
    assert!(unit_from_cgroup("").is_none());
}

fn limits(bg_cpu_quota: &str) -> Resources {
    Resources {
        enable: true,
        fg_cpu_weight: 200,
        bg_cpu_weight: 20,
        bg_memory_high: "512M".into(),
        bg_cpu_quota: bg_cpu_quota.into(),
        bg_allowed_cpus: "auto".into(),
    }
}

#[test]
fn foreground_clears_the_background_ceiling() {
    let res = limits("30%");
    let fg = args("a.scope", Tier::Foreground, &res);
    assert!(fg.contains(&"CPUWeight=200".to_string()));
    assert!(fg.contains(&"MemoryHigh=infinity".to_string()));
    assert!(fg.contains(&"CPUQuota=".to_string()));
    let bg = args("a.scope", Tier::Background, &res);
    assert!(bg.contains(&"CPUWeight=20".to_string()));
    assert!(bg.contains(&"MemoryHigh=512M".to_string()));
    assert!(bg.contains(&"CPUQuota=30%".to_string()));
    assert!(bg.contains(&"--runtime".to_string()));
}

#[test]
fn little_cluster_on_a_three_tier_phone() {
    let caps = [
        (0, 382),
        (1, 382),
        (2, 382),
        (3, 382),
        (4, 889),
        (5, 889),
        (6, 889),
        (7, 1024),
    ];
    assert_eq!(little_cluster(&caps), Some(vec![0, 1, 2, 3]));
    assert_eq!(cpu_ranges(&little_cluster(&caps).unwrap()), "0-3");
}

#[test]
fn no_little_cluster_without_asymmetry() {
    assert_eq!(little_cluster(&[(0, 1024), (1, 1024)]), None);
    assert_eq!(little_cluster(&[]), None);
}

#[test]
fn little_cluster_handles_scattered_numbering() {
    let caps = [(0, 1024), (1, 400), (2, 1024), (3, 400), (4, 400)];
    assert_eq!(little_cluster(&caps), Some(vec![1, 3, 4]));
    assert_eq!(cpu_ranges(&[1, 3, 4]), "1,3-4");
}

#[test]
fn cpu_ranges_formats_singles_and_runs() {
    assert_eq!(cpu_ranges(&[0]), "0");
    assert_eq!(cpu_ranges(&[0, 1, 2, 3]), "0-3");
    assert_eq!(cpu_ranges(&[0, 2, 4]), "0,2,4");
    assert_eq!(cpu_ranges(&[0, 1, 4, 5, 7]), "0-1,4-5,7");
    assert_eq!(cpu_ranges(&[]), "");
}

#[test]
fn allowed_cpus_off_disables_pinning() {
    assert_eq!(resolve_allowed_cpus("off", &[]), None);
    assert_eq!(resolve_allowed_cpus("0-3", &[]), Some("0-3".to_string()));
}

#[test]
fn allowed_cpus_auto_pins_to_the_little_cluster() {
    let caps = [(0, 400), (1, 400), (2, 1024)];
    assert_eq!(
        resolve_allowed_cpus("auto", &caps),
        Some("0-1".to_string())
    );
    assert_eq!(resolve_allowed_cpus("auto", &[(0, 1024)]), None);
}

#[test]
fn background_quota_of_infinity_is_sent_empty() {
    let bg = args("a.scope", Tier::Background, &limits("infinity"));
    assert!(bg.contains(&"CPUQuota=".to_string()));
}

#[test]
fn pinning_is_a_second_call_and_needs_the_controller() {
    let app = AppCgroup {
        unit: "a.scope".into(),
        path: "/user.slice".into(),
    };
    let res = limits("30%");
    let both = apply(&app, Tier::Background, &res, Some("0-3"), true);
    assert_eq!(both.len(), 2);
    assert!(both[1].contains(&"AllowedCPUs=0-3".to_string()));
    assert_eq!(apply(&app, Tier::Background, &res, Some("0-3"), false).len(), 1);
    assert_eq!(apply(&app, Tier::Background, &res, None, true).len(), 1);
    assert!(lists_cpuset("cpu cpuset memory\n"));
    assert!(!lists_cpuset("cpu memory\n"));
}

#[test]
fn the_display_is_published_to_the_session_only() {
    assert!(publish_wayland_display(false).is_empty());
    assert!(!publish_wayland_display(true).is_empty());
}

#[test]
fn only_members_of_the_chain_are_asked_about() {
    let asked = RefCell::new(Vec::new());
    let links = [(10, 9), (9, 8), (8, 1)];
    let chain = ancestry_with(10, MAX_DEPTH, |p| {
        asked.borrow_mut().push(p);
        tree(&links)(p)
    });
    assert_eq!(chain, [10, 9, 8]);
    assert_eq!(*asked.borrow(), [10, 9, 8]);
}

#[test]
fn written_cpus_read_back() {
    let cpus = [0, 1, 4, 5, 7, 9, 10, 11];
    let text = cpu_ranges(&cpus);
    let mut read: Vec<u32> = Vec::new();
    for piece in text.split(',') {
        let (a, b) = piece.split_once('-').unwrap_or((piece, piece));
        read.extend(a.parse::<u32>().unwrap()..=b.parse::<u32>().unwrap());
    }
    assert_eq!(read, cpus);
    assert_eq!(text.split(',').count(), 4);
}
