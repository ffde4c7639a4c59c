use tgdoc::pattern::{captures, replace_all_exec, split_captures, test_match, TemplatePart};
use tgdoc::pages::h3_to_slug;
use tgdoc::text::{find_sub_in, to_string};

#[test]
fn slugs_lower_case_and_filter_unicode() {
    assert_eq!(h3_to_slug("ÄBC Déf-ΣΑ"), "äbc-déf-σα");
    assert_eq!(h3_to_slug("x٣! 7"), "x٣-7");
    assert_eq!(h3_to_slug("a--b"), "a--b");
}

#[test]
fn strings_from_characters() {
    let v: Vec<char> = "abç".chars().collect();
    assert_eq!(to_string(&v), "abç");
    assert_eq!(to_string(&Vec::new()), "");
}

#[test]
fn first_occurrence() {
    let v: Vec<char> = "x/src/telegram/src/telegram".chars().collect();
    assert_eq!(find_sub_in(&v, "src/telegram"), Some(2));
    assert_eq!(find_sub_in(&v, "nope"), None);
    assert_eq!(find_sub_in(&v, ""), Some(0));
}

#[test]
fn regex_captures_and_matches() {
    let c = captures(r"(\d+)-(\d+)", "a 12-34 b").expect("match");
    assert_eq!(c, vec![Some("12-34".to_string()), Some("12".to_string()), Some("34".to_string())]);
    assert!(captures(r"x(y)?", "x").unwrap()[1].is_none());
    assert!(test_match(r"^-+$", "----"));
    assert!(!test_match(r"^-+$", "-- -"));
    assert!(captures("(", "x").is_none());
}

#[test]
fn regex_replacement_with_groups() {
    let t = vec![TemplatePart::Lit("`".to_string()), TemplatePart::Group(1), TemplatePart::Lit("`".to_string())];
    assert_eq!(replace_all_exec(r":attr:`([^`]+)`", "a :attr:`x` b :attr:`y`", &t), "a `x` b `y`");
}

#[test]
fn regex_split_with_captures() {
    let (gaps, caps) = split_captures(r"(\d)", "a1b2c").expect("valid pattern");
    assert_eq!(gaps, vec!["a".to_string(), "b".to_string(), "c".to_string()]);
    assert_eq!(caps.len(), 2);
    assert_eq!(caps[1][1], Some("2".to_string()));
}
