use tgdoc::anchor_index::AnchorIndex;
use tgdoc::html::parse_document;
use tgdoc::pages::{
    build_changelog_index, build_index, build_site_index, build_year_index, changelog_frontmatter, date_to_iso, dry_listing,
    extract_version, h3_to_slug, page_defs, page_to_md, page_urls, plan_site, resolve_anchor_path,
    split_by_h3, split_changelog, PageDef, SplitMode,
};

fn chars(s: &str) -> Vec<char> {
    s.chars().collect()
}

#[test]
fn slug_keeps_letters_digits_and_dashes() {
    assert_eq!(h3_to_slug("Getting Updates!"), "getting-updates");
    assert_eq!(h3_to_slug("Über uns"), "über-uns");
    assert_eq!(h3_to_slug("a_b.c"), "abc");
}

#[test]
fn iso_dates() {
    assert_eq!(date_to_iso("March 1, 2026"), "2026-03-01");
    assert_eq!(date_to_iso("  May 31, 2024 "), "2024-05-31");
    assert_eq!(date_to_iso("November, 2015"), "2015-11-01");
    assert_eq!(date_to_iso("July 2015"), "2015-07-01");
    assert_eq!(date_to_iso("March xx, 2020"), "2020-03-01");
    assert_eq!(date_to_iso("Someday"), "Someday");
}

#[test]
fn version_from_first_paragraph() {
    assert_eq!(extract_version("Bot API 7.1 is out"), Some("Bot API 7.1".to_string()));
    assert_eq!(extract_version("see Bot API  9.5 now"), Some("Bot API  9.5".to_string()));
    assert_eq!(extract_version("nothing here"), None);
}

#[test]
fn anchor_paths_by_split_mode() {
    let api = PageDef { url: "/bots/api", out: "api", split_by: SplitMode::ByH3 { dir: "api" }, tags: vec!["bot-api"] };
    let hs = vec![
        (3u8, "getting-updates".to_string(), "Getting updates".to_string()),
        (4u8, "update".to_string(), "Update".to_string()),
        (3u8, "available types".to_string(), "Available types".to_string()),
        (4u8, "user".to_string(), "User".to_string()),
    ];
    assert_eq!(resolve_anchor_path(&api, "user", &hs), "api/available-types");
    assert_eq!(resolve_anchor_path(&api, "update", &hs), "api/getting-updates");
    assert_eq!(resolve_anchor_path(&api, "missing", &hs), "api/index");
    let before_h3 = vec![
        (4u8, "authorizing-your-bot".to_string(), "Authorizing your bot".to_string()),
        (3u8, "getting-updates".to_string(), "Getting updates".to_string()),
    ];
    assert_eq!(resolve_anchor_path(&api, "authorizing-your-bot", &before_h3), "api/intro");
    let single = PageDef { url: "/bots", out: "bots.md", split_by: SplitMode::Single, tags: vec!["bots"] };
    assert_eq!(resolve_anchor_path(&single, "anything", &hs), "bots");
    let cl = PageDef {
        url: "/bots/api-changelog",
        out: "changelog",
        split_by: SplitMode::Changelog { dir: "changelog" },
        tags: vec!["changelog"],
    };
    let chs = vec![
        (3u8, "recent".to_string(), "Recent changes".to_string()),
        (3u8, "2024".to_string(), "2024".to_string()),
        (4u8, "march-31-2024".to_string(), "March 31, 2024".to_string()),
    ];
    assert_eq!(resolve_anchor_path(&cl, "march-31-2024", &chs), "changelog/2024/index");
    assert_eq!(resolve_anchor_path(&cl, "recent", &chs), "changelog/index/index");
    assert_eq!(resolve_anchor_path(&cl, "gone", &chs), "changelog/index");
}

#[test]
fn split_page_by_h3() {
    let html = "<div id=\"dev_page_content\"><p>Intro text</p><h3><a name=\"getting-updates\"></a>Getting updates</h3><p>We support</p><h3 id=\"x y\">Other</h3><ul><li>a</li></ul></div>";
    let idx = AnchorIndex::new();
    let secs = split_by_h3(html, &idx, "api");
    assert_eq!(
        secs,
        vec![
            ("intro".to_string(), "Introduction".to_string(), "Intro text\n\n".to_string()),
            ("getting-updates".to_string(), "Getting updates".to_string(), "# Getting updates\n\nWe support\n\n".to_string()),
            ("x-y".to_string(), "Other".to_string(), "# Other\n\n- a\n\n".to_string()),
        ]
    );
}

#[test]
fn split_page_without_content_root() {
    let idx = AnchorIndex::new();
    assert!(split_by_h3("<p>nothing</p>", &idx, "api").is_empty());
    assert!(split_changelog("<p>nothing</p>", &idx, "changelog").is_empty());
}

#[test]
fn split_changelog_entries() {
    let html = "<div id=\"dev_page_content\"><h3>Recent changes</h3><h3>2024</h3><h4><a name=\"march-31-2024\"></a>March 31, 2024</h4><p><strong>Bot API 7.2</strong></p><ul><li>Added x</li></ul><h4>May, 2023</h4><p>Minor fixes</p></div>";
    let idx = AnchorIndex::new();
    let es = split_changelog(html, &idx, "changelog");
    assert_eq!(es.len(), 2);
    assert_eq!(es[0].year, "2024");
    assert_eq!(es[0].slug, "BotAPI-7.2");
    assert_eq!(es[0].version, "Bot API 7.2");
    assert_eq!(es[0].date, "2024-03-31");
    assert_eq!(es[0].content, "# Bot API 7.2\n\n**Bot API 7.2**\n\n\n- Added x\n\n");
    assert_eq!(es[1].year, "2024");
    assert_eq!(es[1].slug, "2023-05-01");
    assert_eq!(es[1].version, "May, 2023");
    assert_eq!(es[1].date, "2023-05-01");
    assert_eq!(es[1].content, "# May, 2023\n\nMinor fixes\n\n");
}

#[test]
fn section_index_file() {
    let secs = vec![
        ("intro".to_string(), "Introduction".to_string(), String::new()),
        ("getting-updates".to_string(), "Getting updates".to_string(), String::new()),
    ];
    let idx = build_index("api", &secs, "https://core.telegram.org/bots/api", &["bot-api"]);
    assert_eq!(
        idx,
        "---\ntitle: api - Index\nsource: https://core.telegram.org/bots/api\ntags:\n  - bot-api\n---\n\n# api\n\n- [[api/intro|Introduction]]\n- [[api/getting-updates|Getting updates]]\n"
    );
}

#[test]
fn changelog_frontmatter_has_date() {
    assert_eq!(
        changelog_frontmatter("Bot API 7.2", "2024-03-31", "https://x#7-2"),
        "---\ntitle: \"Bot API 7.2\"\ndate: 2024-03-31\nsource: https://x#7-2\ntags:\n  - changelog\n---\n\n"
    );
}

#[test]
fn changelog_indexes() {
    let idx = AnchorIndex::new();
    let es = split_changelog(
        "<div id=\"dev_page_content\"><h3>2024</h3><h4>March 31, 2024</h4><p>Bot API 7.2</p></div>",
        &idx,
        "changelog",
    );
    let year = build_year_index("changelog", &chars("2024"), &es, &vec![0usize], "https://u");
    assert_eq!(
        year,
        "---\ntitle: Changelog 2024\nsource: https://u\ntags:\n  - changelog\n---\n\n# Changelog 2024\n\n- [[changelog/2024/BotAPI-7.2|Bot API 7.2]] - 2024-03-31\n"
    );
    let top = build_changelog_index("changelog", &vec![chars("2023"), chars("2024")], "https://u");
    assert_eq!(
        top,
        "---\ntitle: Changelog\nsource: https://u\ntags:\n  - changelog\n---\n\n# Changelog\n\n- [[changelog/2024/index|2024]]\n- [[changelog/2023/index|2023]]\n"
    );
}

#[test]
fn single_page_markdown() {
    let idx = AnchorIndex::new();
    let md = page_to_md(
        "<html><body><h1> FAQ </h1><div id=\"dev_page_content\"><p>Q?</p></div></body></html>",
        &idx,
        "faq",
        "https://core.telegram.org/bots/faq",
        &["faq"],
    );
    assert_eq!(md, "---\ntitle: FAQ\nsource: https://core.telegram.org/bots/faq\ntags:\n  - faq\n---\n\nQ?\n\n");
    let md2 = page_to_md("<p>x</p>", &idx, "faq", "S", &[]);
    assert_eq!(md2, "---\ntitle: faq\nsource: S\ntags:\n\n---\n\n[content not found]");
}

#[test]
fn page_table_and_urls() {
    let pages = page_defs();
    assert_eq!(pages.len(), 12);
    let urls = page_urls(&pages, "https://core.telegram.org");
    assert_eq!(urls[0], "https://core.telegram.org/bots/api");
    assert_eq!(urls[11], "https://core.telegram.org/widgets/login");
}

#[test]
fn site_plan_for_split_page() {
    let pages = vec![PageDef { url: "/bots/webapps", out: "webapps", split_by: SplitMode::ByH3 { dir: "webapps" }, tags: vec!["webapps"] }];
    let htmls = vec![
        "<div id=\"dev_page_content\"><h3><a name=\"init\"></a>Init</h3><p>See <a href=\"#init\">Init</a></p></div>".to_string(),
    ];
    let files = plan_site(&pages, &htmls, "tg-bot-api", "out");
    assert_eq!(files.len(), 2);
    assert_eq!(files[0].0, "out/webapps/init.md");
    assert_eq!(
        files[0].1,
        "---\ntitle: Init\nsource: https://core.telegram.org/bots/webapps\ntags:\n  - webapps\n---\n\n# Init\n\nSee [[#Init]]\n\n"
    );
    assert_eq!(files[1].0, "out/webapps/index.md");
    let dry = dry_listing(&pages, &htmls);
    assert_eq!(dry, vec!["\n=== /bots/webapps ===".to_string(), "  [h3] #init Init".to_string()]);
}

#[test]
fn anchors_point_into_the_source_tree() {
    let pages = vec![PageDef { url: "/bots/api", out: "api", split_by: SplitMode::ByH3 { dir: "api" }, tags: vec!["bot-api"] }];
    let docs = vec![parse_document(
        "<div id=\"dev_page_content\"><h3><a name=\"available-methods\"></a>Available methods</h3><h4><a name=\"sendmessage\"></a>sendMessage</h4></div>",
    )];
    let idx = build_site_index(&pages, &docs, "tg-bot-api");
    assert_eq!(
        idx.resolve("#sendMessage", "api/getting-updates"),
        Some("[[tg-bot-api/api/available-methods#sendMessage]]".to_string())
    );
}

#[test]
fn release_anchors_point_at_release_files() {
    let pages = vec![PageDef {
        url: "/bots/api-changelog",
        out: "changelog",
        split_by: SplitMode::Changelog { dir: "changelog" },
        tags: vec!["changelog"],
    }];
    let docs = vec![parse_document(
        "<div id=\"dev_page_content\"><h3>2024</h3><h4><a name=\"march-31-2024\"></a>March 31, 2024</h4><p>Bot API 7.2</p><h4 id=\"may-2023\">May, 2023</h4><p>Fixes</p></div>",
    )];
    let idx = build_site_index(&pages, &docs, "tg-bot-api");
    assert_eq!(
        idx.resolve("#march-31-2024", "x"),
        Some("[[tg-bot-api/changelog/2024/BotAPI-7.2#Bot API 7.2]]".to_string())
    );
    assert_eq!(
        idx.resolve("#may-2023", "x"),
        Some("[[tg-bot-api/changelog/2024/2023-05-01#May, 2023]]".to_string())
    );
}

#[test]
fn same_page_links_stay_local() {
    let pages = vec![PageDef { url: "/bots/faq", out: "faq.md", split_by: SplitMode::Single, tags: vec!["faq"] }];
    let htmls = vec![
        "<div id=\"dev_page_content\"><h3 id=\"why\">Why</h3><p>See <a href=\"#why\">Why</a></p></div>".to_string(),
    ];
    let files = plan_site(&pages, &htmls, "tg-bot-api", "out");
    assert_eq!(files[0].0, "out/faq.md");
    assert!(files[0].1.ends_with("### Why\n\nSee [[#Why]]\n\n"));
}
