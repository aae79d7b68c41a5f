//! The order of search results.
use springchick::search::{rank, rank_lowered, Candidate};
use springchick::sorting::{sorted_order, SortKey};

/// An app that was launched so many times just now. A score orders as the
/// non-negative number it is the bits of.
fn launched(id: &str, name: &str, times: u32) -> Candidate {
    Candidate {
        id: id.to_string(),
        name: name.to_string(),
        score: f64::from(times).to_bits(),
    }
}

fn catalog(items: &[(&str, &str)]) -> Vec<Candidate> {
    items.iter().map(|(id, name)| launched(id, name, 0)).collect()
}

#[test]
fn empty_query_orders_by_frecency_and_caps() {
    let cat = vec![
        launched("a", "Alpha", 0),
        launched("b", "Bravo", 2),
        launched("c", "Charlie", 1),
    ];
    assert_eq!(rank(&cat, "", 5), vec!["b", "c", "a"]);
    assert_eq!(rank(&cat, "", 2), vec!["b", "c"]);
}

#[test]
fn query_filters_by_name_substring_case_insensitive() {
    let cat = catalog(&[("fx", "Firefox"), ("ff", "Foot"), ("gm", "GNOME Maps")]);
    let out = rank(&cat, "fo", 8);
    assert_eq!(out.len(), 2);
    assert!(out.contains(&"fx".to_string()));
    assert!(out.contains(&"ff".to_string()));
}

#[test]
fn tie_break_is_stable_by_name() {
    let cat = catalog(&[("z", "Zed"), ("a", "Able"), ("m", "Mid")]);
    assert_eq!(rank(&cat, "", 5), vec!["a", "m", "z"]);
}

#[test]
fn never_launched_apps_are_included() {
    let cat = catalog(&[("a", "Alpha")]);
    assert_eq!(rank(&cat, "", 5), vec!["a"]);
    assert_eq!(rank(&cat, "alp", 5), vec!["a"]);
}

#[test]
fn what_is_typed_is_trimmed_and_lowered() {
    let cat = catalog(&[("m", "Maps"), ("f", "Files")]);
    assert_eq!(rank(&cat, "  MAP ", 5), vec!["m"]);
    assert!(rank(&cat, "xyz", 5).is_empty());
    assert!(rank(&cat, "", 0).is_empty());
    // Beyond ASCII as well: names are compared in lower case.
    let cat = catalog(&[("o", "\u{d6}PNV")]);
    assert_eq!(rank(&cat, "\u{f6}p", 5), vec!["o"]);
}

#[test]
fn ids_break_the_last_tie() {
    let cat = catalog(&[("b", "Same"), ("a", "Same")]);
    assert_eq!(rank(&cat, "", 5), vec!["a", "b"]);
}

#[test]
fn lowered_names_are_matched_as_they_are() {
    let cat = catalog(&[("u", "UPPER"), ("l", "lower")]);
    let query: Vec<char> = "lo".chars().collect();
    assert_eq!(rank_lowered(&cat, &query, 5), vec!["l"]);
    let query: Vec<char> = "up".chars().collect();
    assert!(rank_lowered(&cat, &query, 5).is_empty());
}

#[test]
fn smaller_numbers_come_first_and_equal_keys_stay_in_order() {
    let key = |number: u64, first: &str| SortKey {
        number,
        first: first.to_string(),
        second: String::new(),
    };
    let order = sorted_order(&vec![key(1, "b"), key(2, "z"), key(1, "a"), key(1, "b")]);
    assert_eq!(order, [2, 0, 3, 1]);
}
