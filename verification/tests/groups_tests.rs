use tgdoc::groups::{lt_chars, sorted_order, SortedGroups};

fn chars(s: &str) -> Vec<char> {
    s.chars().collect()
}

#[test]
fn text_order() {
    assert!(lt_chars(&chars("abc"), &chars("abd")));
    assert!(lt_chars(&chars("ab"), &chars("abc")));
    assert!(!lt_chars(&chars("b"), &chars("abc")));
    assert!(!lt_chars(&chars("same"), &chars("same")));
    assert!(lt_chars(&chars("Z"), &chars("a")));
}

#[test]
fn groups_sorted_by_key_values_in_order() {
    let mut g: SortedGroups<u32> = SortedGroups::new();
    g.insert(chars("2025"), 1);
    g.insert(chars("2023"), 2);
    g.insert(chars("2025"), 3);
    g.insert(chars("2024"), 4);
    assert_eq!(g.len(), 3);
    assert_eq!(g.key(0), &chars("2023"));
    assert_eq!(g.key(1), &chars("2024"));
    assert_eq!(g.key(2), &chars("2025"));
    assert_eq!(g.values(2), &vec![1, 3]);
    assert_eq!(g.get(&chars("2025")), Some(&vec![1, 3]));
    assert_eq!(g.get(&chars("1999")), None);
}

#[test]
fn stable_sorted_order() {
    let names = vec![chars("b"), chars("a"), chars("c"), chars("a")];
    assert_eq!(sorted_order(&names), vec![1, 3, 0, 2]);
    let none: Vec<Vec<char>> = vec![];
    assert!(sorted_order(&none).is_empty());
}
