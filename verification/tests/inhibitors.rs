//! What holds off idle.
use std::cell::RefCell;

use springchick::idle_inhibit::{inhibited_by, IdleInhibit};

/// Surfaces of apps, and of the shell's own bars.
const APP: u64 = 1;
const BG_APP: u64 = 2;
const BAR: u64 = 3;
const UNMAPPED_BAR: u64 = 4;

fn mapped_layer(s: u64) -> bool {
    s == BAR
}

#[test]
fn nothing_inhibiting_is_not_inhibited() {
    assert!(!inhibited_by(&vec![], Some(APP), mapped_layer));
}

#[test]
fn foreground_app_inhibitor_counts() {
    assert!(inhibited_by(&vec![APP], Some(APP), mapped_layer));
}

#[test]
fn backgrounded_app_inhibitor_does_not_count() {
    assert!(!inhibited_by(&vec![BG_APP], Some(APP), mapped_layer));
}

#[test]
fn mapped_layer_inhibitor_counts() {
    assert!(inhibited_by(&vec![BAR], Some(APP), mapped_layer));
}

#[test]
fn mapped_layer_inhibitor_counts_with_no_app() {
    assert!(inhibited_by(&vec![BAR], None, mapped_layer));
}

#[test]
fn unmapped_layer_inhibitor_does_not_count() {
    assert!(!inhibited_by(&vec![UNMAPPED_BAR], Some(APP), mapped_layer));
}

#[test]
fn no_foreground_app_ignores_app_inhibitors() {
    assert!(!inhibited_by(&vec![APP, BG_APP], None, mapped_layer));
}

#[test]
fn dead_surfaces_are_dropped_and_inhibitors_taken_back() {
    let mut i = IdleInhibit::new();
    i.inhibit(APP);
    i.inhibit(APP);
    assert_eq!(i.surfaces, [APP]);
    assert!(i.is_inhibited(Some(APP), |_| true, mapped_layer));
    assert!(!i.is_inhibited(Some(APP), |s| s != APP, mapped_layer));
    assert!(i.surfaces.is_empty());
    i.inhibit(BAR);
    i.uninhibit(BAR);
    assert!(!i.is_inhibited(None, |_| true, mapped_layer));
}

#[test]
fn only_surfaces_with_an_inhibitor_are_asked_about() {
    let asked = RefCell::new(Vec::new());
    let note = |s: u64| {
        asked.borrow_mut().push(s);
        false
    };
    assert!(inhibited_by(&vec![APP, BG_APP], Some(APP), note));
    assert!(asked.borrow().is_empty());
    assert!(!inhibited_by(&vec![BG_APP], Some(APP), note));
    assert_eq!(*asked.borrow(), [BG_APP]);
    asked.borrow_mut().clear();
    let mut all = IdleInhibit::new();
    all.inhibit(APP);
    all.inhibit(BG_APP);
    assert!(!all.is_inhibited(None, |s| s == APP, note));
    assert_eq!(*asked.borrow(), [APP]);
}
