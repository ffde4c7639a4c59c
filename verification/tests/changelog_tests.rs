use tgdoc::changelog::{
    collect_changelog, collect_toml_sections, parse_legacy_rst, plan_changelog, render_changelog_entry,
    year_of_exec, ChangelogEntry, ChangelogError,
};
use tgdoc::groups::SortedGroups;

const LEGACY: &str = "Changelog\n=========\n\nVersion 21.11.1\n===============\n*Released 2025-03-01*\n\nBug Fixes\n---------\n- Fix a bug\n  continued line\n* Another fix\n\nVersion 21.11\n=============\n\nNew Features, & More\n--------------------\n- Feature one\n\nVersion 20.0\n============\n";

fn chars(s: &str) -> Vec<char> {
    s.chars().collect()
}

fn values(g: &SortedGroups<String>, i: usize) -> Vec<String> {
    g.values(i).clone()
}

fn key(g: &SortedGroups<String>, i: usize) -> String {
    g.key(i).iter().collect()
}

fn entry(version: &str, date: &str, items: &[(&str, &str)]) -> ChangelogEntry {
    let mut sections = SortedGroups::new();
    for (k, v) in items {
        sections.insert(chars(k), v.to_string());
    }
    ChangelogEntry { version: version.to_string(), date: date.to_string(), sections }
}

#[test]
fn legacy_releases() {
    let es = parse_legacy_rst(LEGACY);
    assert_eq!(es.len(), 2);
    assert_eq!(es[0].version, "21.11.1");
    assert_eq!(es[0].date, "2025-03-01");
    assert_eq!(es[0].sections.len(), 1);
    assert_eq!(key(&es[0].sections, 0), "bug-fixes");
    assert_eq!(values(&es[0].sections, 0), vec!["Fix a bug".to_string(), "Another fix".to_string()]);
    assert_eq!(es[1].version, "21.11");
    assert_eq!(es[1].date, "");
    assert_eq!(key(&es[1].sections, 0), "new-features--more");
    assert_eq!(values(&es[1].sections, 0), vec!["Feature one".to_string()]);
}

#[test]
fn legacy_bullets_before_a_heading_go_to_other() {
    let es = parse_legacy_rst("Version 1.0\n- early item\n");
    assert_eq!(es.len(), 1);
    assert_eq!(key(&es[0].sections, 0), "other");
    assert_eq!(values(&es[0].sections, 0), vec!["early item".to_string()]);
}

#[test]
fn toml_fragments_grouped_by_section() {
    let files = vec![
        ("b.toml".to_string(), "features = \"  Add thing  \"\nother = 3\n".to_string()),
        ("a.toml".to_string(), "bugfixes = \"Fix\"\nhighlights = \"\"\n".to_string()),
        ("notes.txt".to_string(), "garbage [".to_string()),
    ];
    let g = match collect_toml_sections(&files) {
        Ok(g) => g,
        Err(_) => panic!("fragments parse"),
    };
    assert_eq!(g.len(), 2);
    assert_eq!(key(&g, 0), "bugfixes");
    assert_eq!(values(&g, 0), vec!["Fix".to_string()]);
    assert_eq!(key(&g, 1), "features");
    assert_eq!(values(&g, 1), vec!["Add thing".to_string()]);
}

#[test]
fn toml_items_keep_file_order() {
    let files = vec![
        ("2.toml".to_string(), "other = \"second\"".to_string()),
        ("1.toml".to_string(), "other = \"first\"".to_string()),
    ];
    let g = match collect_toml_sections(&files) {
        Ok(g) => g,
        Err(_) => panic!("fragments parse"),
    };
    assert_eq!(values(&g, 0), vec!["first".to_string(), "second".to_string()]);
}

#[test]
fn bad_toml_is_an_error() {
    let files = vec![("x.toml".to_string(), "a = [".to_string())];
    assert!(matches!(collect_toml_sections(&files), Err(ChangelogError::Toml(_))));
}

#[test]
fn whole_changelog() {
    let dirs = vec![
        ("22.1_2025-05-02".to_string(), vec![("x.toml".to_string(), "features = \"New\"".to_string())]),
        ("misc".to_string(), vec![]),
        ("21.12_2025-01-01".to_string(), vec![("y.toml".to_string(), "bugfixes = \"Old\"".to_string())]),
    ];
    let es = match collect_changelog(&dirs, Some(LEGACY)) {
        Ok(es) => es,
        Err(_) => panic!("changelog reads"),
    };
    let versions: Vec<&str> = es.iter().map(|e| e.version.as_str()).collect();
    assert_eq!(versions, vec!["21.11.1", "21.11", "21.12", "22.1"]);
    assert_eq!(es[3].date, "2025-05-02");
    assert_eq!(key(&es[3].sections, 0), "features");
    let without_legacy = match collect_changelog(&dirs, None) {
        Ok(es) => es,
        Err(_) => panic!("changelog reads"),
    };
    assert_eq!(without_legacy.len(), 2);
}

#[test]
fn changelog_error_from_a_fragment() {
    let dirs = vec![("1.0_2020-01-01".to_string(), vec![("x.toml".to_string(), "= nope".to_string())])];
    assert!(matches!(collect_changelog(&dirs, None), Err(ChangelogError::Toml(_))));
}

#[test]
fn release_page() {
    let e = entry("22.1", "2025-05-02", &[("bugfixes", "Fix"), ("features", "Add thing\nmore")]);
    assert_eq!(
        render_changelog_entry(&e, "ptb"),
        "---\ntitle: \"PTB v22.1\"\ndate: 2025-05-02\nsource: https://github.com/python-telegram-bot/python-telegram-bot/blob/master/CHANGES.rst\ntags:\n  - ptb\n  - changelog\n---\n\n# PTB v22.1\n\n*Released: 2025-05-02*\n\n## New Features\n\n- Add thing\n  more\n\n## Bug Fixes\n\n- Fix\n\n"
    );
}

#[test]
fn release_page_without_date() {
    let e = entry("1.0", "", &[("unknown-section", "x")]);
    assert_eq!(
        render_changelog_entry(&e, "ptb"),
        "---\ntitle: \"PTB v1.0\"\ndate: unknown\nsource: https://github.com/python-telegram-bot/python-telegram-bot/blob/master/CHANGES.rst\ntags:\n  - ptb\n  - changelog\n---\n\n# PTB v1.0\n\n"
    );
}

#[test]
fn years_are_first_four_bytes() {
    assert_eq!(year_of_exec("2025-05-02"), chars("2025"));
    assert_eq!(year_of_exec(""), chars("misc"));
    assert_eq!(year_of_exec("202"), chars("misc"));
    assert_eq!(year_of_exec("x€yz"), chars("x€"));
    assert_eq!(year_of_exec("ab€"), chars("misc"));
}

#[test]
fn changelog_files() {
    let es = vec![
        entry("21.12", "2025-01-01", &[("bugfixes", "Old")]),
        entry("22.1", "2025-05-02", &[("features", "New")]),
        entry("20.0", "2024-12-01", &[]),
    ];
    let files = plan_changelog(&es, "ptb");
    let paths: Vec<&str> = files.iter().map(|f| f.0.as_str()).collect();
    assert_eq!(
        paths,
        vec![
            "changelog/2025/v21.12.md",
            "changelog/2025/v22.1.md",
            "changelog/2024/v20.0.md",
            "changelog/2024/index.md",
            "changelog/2025/index.md",
            "changelog/index.md",
        ]
    );
    assert_eq!(
        files[4].1,
        "---\ntitle: PTB Changelog 2025\nsource: https://github.com/python-telegram-bot/python-telegram-bot/blob/master/CHANGES.rst\ntags:\n  - ptb\n  - changelog\n---\n\n# PTB Changelog 2025\n\n- [[ptb/changelog/2025/v22.1|PTB v22.1]] - 2025-05-02\n- [[ptb/changelog/2025/v21.12|PTB v21.12]] - 2025-01-01\n"
    );
    assert_eq!(
        files[5].1,
        "---\ntitle: PTB Changelog\nsource: https://github.com/python-telegram-bot/python-telegram-bot/blob/master/CHANGES.rst\ntags:\n  - ptb\n  - changelog\n---\n\n# PTB Changelog\n\n- [[ptb/changelog/2025/index|2025]]\n- [[ptb/changelog/2024/index|2024]]\n"
    );
}
