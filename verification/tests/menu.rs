//! The menu of an icon.
use springchick::icon_menu::{
    close_all, confirm_items, flatpak_ref, is_flatpak, items_for, run_menu_action, InstalledApp,
    MenuAction, MenuItem, MenuStep,
};

fn labels(items: &[MenuItem]) -> Vec<&str> {
    items.iter().map(|i| i.label.as_str()).collect()
}

#[test]
fn a_stopped_app_can_only_be_started_or_removed() {
    assert_eq!(
        labels(&items_for(&[], false, false)),
        ["New window", "Remove"]
    );
}

#[test]
fn a_single_window_gets_a_plain_open() {
    let items = items_for(&[(3, "some terminal".into())], false, false);
    assert_eq!(labels(&items), ["Open", "New window", "Close", "Remove"]);
    assert_eq!(items[0].action, MenuAction::Open(3));
}

#[test]
fn several_windows_are_listed_by_title_in_mru_order() {
    let items = items_for(&[(7, "notes.md".into()), (2, "~/src".into())], false, false);
    assert_eq!(
        labels(&items),
        ["notes.md", "~/src", "New window", "Close all", "Remove"]
    );
    assert_eq!(items[0].action, MenuAction::Open(7));
    assert_eq!(items[1].action, MenuAction::Open(2));
}

#[test]
fn untitled_windows_fall_back_to_their_position() {
    let items = items_for(&[(7, String::new()), (2, String::new())], false, false);
    assert_eq!(labels(&items)[..2], ["Window 1", "Window 2"]);
}

#[test]
fn only_flatpak_apps_offer_uninstall() {
    assert_eq!(
        labels(&items_for(&[], true, false)),
        ["New window", "Remove", "Uninstall"]
    );
    assert!(!labels(&items_for(&[], false, false)).contains(&"Uninstall"));
}

#[test]
fn a_library_member_offers_add_to_home_instead_of_remove() {
    let items = items_for(&[], false, true);
    assert_eq!(labels(&items), ["New window", "Add to Home"]);
    assert!(!items.iter().any(|i| i.action.is_destructive()));
}

#[test]
fn uninstall_needs_a_second_tap() {
    let confirm = confirm_items("Maps");
    assert_eq!(labels(&confirm), ["Delete Maps?"]);
    assert_eq!(confirm[0].action, MenuAction::UninstallConfirm);
    assert!(MenuAction::Uninstall.is_destructive());
}

fn installed() -> Vec<InstalledApp> {
    vec![
        InstalledApp {
            id: "maps".into(),
            name: "Maps".into(),
            flatpak: Some("org.gnome.Maps".into()),
        },
        InstalledApp {
            id: "foot".into(),
            name: "Foot".into(),
            flatpak: None,
        },
    ]
}

#[test]
fn a_package_is_known_by_its_app() {
    let apps = installed();
    assert_eq!(flatpak_ref(&apps, "maps"), Some("org.gnome.Maps".to_string()));
    assert!(is_flatpak(&apps, "maps"));
    assert!(!is_flatpak(&apps, "foot"));
    assert!(!is_flatpak(&apps, "none"));
}

#[test]
fn tapping_uninstall_only_asks() {
    let steps = run_menu_action(&installed(), "maps", &vec![4, 5], MenuAction::Uninstall);
    assert!(!steps.iter().any(|s| matches!(s, MenuStep::RunFlatpak(_))));
    assert!(steps.iter().any(|s| match s {
        MenuStep::Reopen(items) => labels(items) == ["Delete Maps?"],
        _ => false,
    }));
}

#[test]
fn confirming_closes_and_deletes() {
    let steps = run_menu_action(
        &installed(),
        "maps",
        &vec![4, 5],
        MenuAction::UninstallConfirm,
    );
    let closed: Vec<usize> = steps
        .iter()
        .filter_map(|s| match s {
            MenuStep::Detach(t) => Some(*t),
            _ => None,
        })
        .collect();
    assert_eq!(closed, [4, 5]);
    assert!(steps.iter().any(|s| match s {
        MenuStep::RunFlatpak(words) => words.contains(&"org.gnome.Maps".to_string()),
        _ => false,
    }));
}

#[test]
fn closing_all_detaches_each_window() {
    let mut steps = Vec::new();
    close_all(&mut steps, &vec![9, 1]);
    assert!(matches!(steps[0], MenuStep::Detach(9)));
    assert!(matches!(steps[1], MenuStep::Detach(1)));
    assert_eq!(steps.len(), 2);
}
