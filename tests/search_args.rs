use indigo_docs::search::{collection_filter, search_subcommand, str_equal};

#[test]
fn mode_maps_to_subcommand() {
    assert_eq!(search_subcommand("keyword"), "search");
    assert_eq!(search_subcommand("semantic"), "vsearch");
    assert_eq!(search_subcommand("hybrid"), "query");
    assert_eq!(search_subcommand("other"), "query");
}

#[test]
fn collection_scoping() {
    assert_eq!(collection_filter(&None), None);
    assert_eq!(collection_filter(&Some(String::new())), None);
    assert_eq!(collection_filter(&Some("all".to_string())), None);
    assert_eq!(collection_filter(&Some("hq".to_string())), Some("hq".to_string()));
}

#[test]
fn string_equality() {
    assert!(str_equal("abc", "abc"));
    assert!(!str_equal("abc", "abd"));
    assert!(!str_equal("ab", "abc"));
}
