//! How the library sorts apps into folders.
use springchick::catalog::AppEntry;
use springchick::folders::{folder_for, folder_name, folder_override, folders, Folder, OVERRIDE_COUNT};

fn app(id: &str, name: &str, cats: &[&str]) -> AppEntry {
    AppEntry {
        id: id.into(),
        name: name.into(),
        categories: cats.iter().map(|s| s.to_string()).collect(),
        ..Default::default()
    }
}

#[test]
fn overrides_name_a_real_folder() {
    let all: Vec<&str> = (0..11).map(folder_name).collect();
    for i in 0..OVERRIDE_COUNT {
        let (id, name) = folder_override(i);
        assert!(
            all.contains(&name),
            "override for {id} names unknown folder {name}"
        );
    }
}

#[test]
fn main_category_wins_in_listed_order() {
    assert_eq!(
        folder_for(&app("a", "A", &["Utility", "AudioVideo"])),
        "Media"
    );
    assert_eq!(
        folder_for(&app("b", "B", &["Network", "Development"])),
        "Development"
    );
    assert_eq!(
        folder_for(&app("c", "C", &["Office", "Viewer", "Graphics"])),
        "Office"
    );
}

#[test]
fn override_beats_declared_categories() {
    let mut e = app("Music Assistant", "Music Assistant", &["Development"]);
    assert_eq!(folder_for(&e), "Media");
    e.id = "not-overridden".into();
    assert_eq!(folder_for(&e), "Development");
}

#[test]
fn unknown_or_missing_categories_fall_to_other() {
    assert_eq!(folder_for(&app("a", "A", &[])), "Other");
    assert_eq!(folder_for(&app("b", "B", &["TextEditor", "Qt"])), "Other");
}

#[test]
fn folders_drop_empties_and_sort_by_name() {
    let f = folders(&[
        app("z", "Zebra", &["Utility"]),
        app("a", "Apple", &["Utility"]),
        app("n", "Net", &["Network"]),
    ]);
    assert_eq!(
        f,
        vec![
            Folder {
                name: "Network",
                apps: vec!["n".into()]
            },
            Folder {
                name: "Utility",
                apps: vec!["a".into(), "z".into()]
            },
        ]
    );
}

#[test]
fn folders_are_in_fixed_display_order() {
    let f = folders(&[
        app("s", "S", &["Settings"]),
        app("m", "M", &["Audio"]),
        app("o", "O", &[]),
    ]);
    let names: Vec<_> = f.iter().map(|f| f.name).collect();
    assert_eq!(names, ["Media", "Settings", "Other"]);
}

#[test]
fn every_app_is_in_exactly_one_folder() {
    let apps = [
        app("a", "A", &["Game"]),
        app("b", "B", &[]),
        app("c", "C", &["Audio", "Game"]),
        app("d", "D", &["Game"]),
    ];
    let mut held: Vec<String> = folders(&apps).into_iter().flat_map(|f| f.apps).collect();
    held.sort();
    assert_eq!(held, ["a", "b", "c", "d"]);
}

#[test]
fn the_order_of_the_scan_does_not_show() {
    let apps = || {
        vec![
            app("b", "Same", &["Game"]),
            app("a", "Same", &["Game"]),
            app("m", "Music", &["Audio"]),
            app("z", "Alone", &[]),
        ]
    };
    let mut turned = apps();
    turned.reverse();
    let expected = folders(&apps());
    assert_eq!(expected[1].apps, ["a", "b"]);
    assert_eq!(folders(&turned), expected);
    turned.swap(0, 2);
    assert_eq!(folders(&turned), expected);
}
