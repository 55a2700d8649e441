use api_drift::distance::edit_distance;
use api_drift::text::{join_strings, leaf_of, parent_of, take_chars};

#[test]
fn edit_distance_exact_values() {
    assert_eq!(edit_distance("", ""), 0);
    assert_eq!(edit_distance("kitten", "sitting"), 3);
    assert_eq!(edit_distance("sitting", "kitten"), 3);
    assert_eq!(edit_distance("abc", ""), 3);
    assert_eq!(edit_distance("pub fn colour(x: u8)", "pub fn color(x: u16)"), 3);
}

#[test]
fn edit_distance_is_capped_at_nine() {
    assert_eq!(edit_distance("aaaaaaaaaaaa", "bbbbbbbbbbbb"), 9);
    assert_eq!(edit_distance("abcdefgh", "zzzzzzzz"), 8);
}

#[test]
fn parent_and_leaf() {
    assert_eq!(parent_of("a::b::c"), "a::b");
    assert_eq!(leaf_of("a::b::c"), "c");
    assert_eq!(parent_of("plain"), "");
    assert_eq!(leaf_of("plain"), "plain");
}

#[test]
fn join_and_take() {
    let parts = vec!["a".to_owned(), "b".to_owned(), "c".to_owned()];
    assert_eq!(join_strings(&parts, ", "), "a, b, c");
    assert_eq!(join_strings(&vec![], ", "), "");
    assert_eq!(take_chars("héllo wörld", 4), "héll");
    assert_eq!(take_chars("ab", 16), "ab");
}

#[test]
fn edit_distance_above_eight_without_cutoff_is_exact() {
    // No row ever exceeds 8 everywhere: the distance itself comes back.
    assert_eq!(edit_distance("a", "bbbbbbbbbbbb"), 12);
    assert_eq!(edit_distance("bbbbbbbbbbbb", "a"), 12);
}

#[test]
fn edit_distance_is_symmetric() {
    for (a, b) in [("abcd", "bcda"), ("pub fn f(x: u8)", "pub fn g(y: u16)"), ("", "xyz"), ("flaw", "lawn")] {
        assert_eq!(edit_distance(a, b), edit_distance(b, a));
    }
    assert_eq!(edit_distance("flaw", "lawn"), 2);
}
