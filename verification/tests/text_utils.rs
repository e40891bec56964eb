use repohost::text::str_eq;
use repohost::text::str_le;

#[test]
fn lexicographic_order_on_strings() {
    assert!(str_le("a", "b"));
    assert!(!str_le("b", "a"));
    assert!(str_le("abc", "abd"));
    assert!(str_le("ab", "abc"));
    assert!(!str_le("abc", "ab"));
    assert!(str_le("", "x"));
    assert!(str_le("same", "same"));
    assert!(str_le("Z", "a"));
}

#[test]
fn character_equality_on_strings() {
    assert!(str_eq("", ""));
    assert!(str_eq("abc", "abc"));
    assert!(!str_eq("abc", "abd"));
    assert!(!str_eq("abc", "ab"));
    assert!(!str_eq("ab", "abc"));
}
