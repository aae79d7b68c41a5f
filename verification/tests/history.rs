//! The most recent apps and the walk through them.
use springchick::app_history::AppHistory;

#[test]
fn push_foreground_moves_to_front() {
    let mut h = AppHistory::new();
    h.push_foreground(1);
    h.push_foreground(2);
    h.push_foreground(3);
    assert_eq!(h.stack, vec![3, 2, 1]);
}

#[test]
fn push_existing_moves_to_front() {
    let mut h = AppHistory::new();
    h.push_foreground(1);
    h.push_foreground(2);
    h.push_foreground(1);
    assert_eq!(h.stack, vec![1, 2]);
}

#[test]
fn deck_order_of_a_single_app_is_that_app() {
    let mut h = AppHistory::new();
    h.push_foreground(1);
    assert_eq!(h.deck_order(), vec![1]);
}

#[test]
fn quick_switch_walks_without_reordering() {
    let mut h = AppHistory::new();
    h.push_foreground(1);
    h.push_foreground(2);
    h.push_foreground(3);

    assert_eq!(h.quick_switch(1), Some(2));
    assert_eq!(h.quick_switch(1), Some(1));
    assert_eq!(h.quick_switch(1), None);
    assert_eq!(h.quick_switch(1), None);
    assert_eq!(h.quick_switch(-1), Some(2));
    assert_eq!(h.stack, vec![3, 2, 1]);
}

#[test]
fn quick_switch_rejects_at_front() {
    let mut h = AppHistory::new();
    h.push_foreground(1);
    h.push_foreground(2);
    h.push_foreground(3);
    assert_eq!(h.quick_switch(-1), None);
    assert_eq!(h.quick_switch(1), Some(2));
    assert_eq!(h.quick_switch(-1), Some(3));
    assert_eq!(h.quick_switch(-1), None);
}

#[test]
fn push_foreground_resets_cursor() {
    let mut h = AppHistory::new();
    h.push_foreground(1);
    h.push_foreground(2);
    h.push_foreground(3);
    h.quick_switch(1);
    h.push_foreground(9);
    assert_eq!(h.quick_switch(1), Some(3));
}

#[test]
fn deck_order_puts_current_first_after_browse() {
    let mut h = AppHistory::new();
    h.push_foreground(1);
    h.push_foreground(2);
    h.push_foreground(3);
    assert_eq!(h.deck_order(), vec![3, 2, 1]);
    h.quick_switch(1);
    assert_eq!(h.deck_order(), vec![2, 3, 1]);
}

#[test]
fn remove_cleans_up() {
    let mut h = AppHistory::new();
    h.push_foreground(1);
    h.push_foreground(2);
    h.remove(2);
    assert_eq!(h.stack, vec![1]);
}

#[test]
fn peeking_moves_nothing() {
    let mut h = AppHistory::new();
    h.push_foreground(1);
    h.push_foreground(2);
    assert_eq!(h.peek(1), Some(1));
    assert_eq!(h.peek(-1), None);
    assert_eq!(h.deck_order(), vec![2, 1]);
    assert_eq!(h.quick_switch(1), Some(1));
    assert_eq!(h.peek(-1), Some(2));
}

#[test]
fn a_walk_can_be_undone_either_way() {
    let mut h = AppHistory::new();
    for id in [1, 2, 3] {
        h.push_foreground(id);
    }
    assert_eq!(h.quick_switch(1), Some(2));
    assert_eq!(h.quick_switch(-1), Some(3));
    h.quick_switch(1);
    h.quick_switch(1);
    assert_eq!(h.quick_switch(-1), Some(2));
    assert_eq!(h.quick_switch(1), Some(1));
}
