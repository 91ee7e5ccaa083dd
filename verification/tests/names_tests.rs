use lkjmcrs::names::{names_under_prefix, sorted_names, str_le};

fn strings(items: &[&str]) -> Vec<String> {
    items.iter().map(|s| s.to_string()).collect()
}

#[test]
fn names_sort_by_code_points() {
    assert_eq!(
        sorted_names(strings(&["spawnish", "base", "Zeta", "alpha", "base"])),
        strings(&["Zeta", "alpha", "base", "base", "spawnish"])
    );
    assert_eq!(sorted_names(Vec::new()), Vec::<String>::new());
    assert_eq!(sorted_names(strings(&["ab", "a", "abc"])), strings(&["a", "ab", "abc"]));
}

#[test]
fn text_order_is_lexicographic() {
    assert!(str_le("a", "b"));
    assert!(str_le("a", "a"));
    assert!(str_le("", "a"));
    assert!(!str_le("b", "a"));
    assert!(str_le("ab", "b"));
    assert!(!str_le("ab", "a"));
}

#[test]
fn names_are_listed_under_their_prefix() {
    let keys = strings(&["u1/spawnish", "u2/base", "u1/base", "u1", "u1/"]);
    assert_eq!(names_under_prefix(&keys, "u1/"), strings(&["", "base", "spawnish"]));
    assert_eq!(names_under_prefix(&keys, "u3/"), Vec::<String>::new());
}
