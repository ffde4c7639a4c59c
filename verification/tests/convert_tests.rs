use tgdoc::anchor_index::AnchorIndex;
use tgdoc::convert::{content_root, element_to_md, extract_headings, frontmatter, node_to_md};
use tgdoc::html::{parse_document, HtmlNode, NodeKind};

fn find<'a>(n: &'a HtmlNode, name: &str) -> Option<&'a HtmlNode> {
    if let NodeKind::Element(tag, _) = &n.kind {
        if tag == name {
            return Some(n);
        }
    }
    for c in &n.children {
        if let Some(x) = find(c, name) {
            return Some(x);
        }
    }
    None
}

fn md_of(html: &str, tag: &str, index: &AnchorIndex, base: &str) -> String {
    let doc = parse_document(html);
    let el = find(&doc, tag).expect("element present");
    element_to_md(el, index, base)
}

#[test]
fn frontmatter_lists_tags() {
    let fm = frontmatter("Bot API", "https://core.telegram.org/bots/api", &["bot-api", "types"]);
    assert_eq!(
        fm,
        "---\ntitle: Bot API\nsource: https://core.telegram.org/bots/api\ntags:\n  - bot-api\n  - types\n---\n\n"
    );
}

#[test]
fn frontmatter_without_tags() {
    let fm = frontmatter("T", "S", &[]);
    assert_eq!(fm, "---\ntitle: T\nsource: S\ntags:\n\n---\n\n");
}

#[test]
fn paragraph_with_bold() {
    let idx = AnchorIndex::new();
    let md = md_of("<p>Hello <b>world</b></p>", "p", &idx, "api/x");
    assert_eq!(md, "Hello **world**\n\n");
}

#[test]
fn empty_paragraph_gives_nothing() {
    let idx = AnchorIndex::new();
    let md = md_of("<div><p>   </p></div>", "p", &idx, "api/x");
    assert_eq!(md, "");
}

#[test]
fn heading_levels() {
    let idx = AnchorIndex::new();
    assert_eq!(md_of("<h3>  Getting updates </h3>", "h3", &idx, "b"), "### Getting updates\n\n");
    assert_eq!(md_of("<h2>Types</h2>", "h2", &idx, "b"), "## Types\n\n");
}

#[test]
fn heading_skips_anchor_icon() {
    let idx = AnchorIndex::new();
    let md = md_of(
        "<h4><a class=\"anchor\" name=\"message\" href=\"#message\"><i class=\"anchor-icon\"></i></a>Message</h4>",
        "h4",
        &idx,
        "b",
    );
    assert_eq!(md, "#### Message\n\n");
}

#[test]
fn unordered_list() {
    let idx = AnchorIndex::new();
    let md = md_of("<ul><li>one</li><li>two</li></ul>", "ul", &idx, "b");
    assert_eq!(md, "- one\n- two\n\n");
}

#[test]
fn ordered_list_numbers_items() {
    let idx = AnchorIndex::new();
    let md = md_of("<ol><li>first</li><li>second</li></ol>", "ol", &idx, "b");
    assert_eq!(md, "1. first\n2. second\n\n");
}

#[test]
fn pre_with_language() {
    let idx = AnchorIndex::new();
    let md = md_of("<pre><code class=\"language-json\">{\"ok\": true}\n</code></pre>", "pre", &idx, "b");
    assert_eq!(md, "```json\n{\"ok\": true}\n```\n\n");
}

#[test]
fn inline_code() {
    let idx = AnchorIndex::new();
    assert_eq!(md_of("<p><code>chat_id</code></p>", "code", &idx, "b"), "`chat_id`");
}

#[test]
fn table_with_header_and_rows() {
    let idx = AnchorIndex::new();
    let html = "<table><tr><th>Field</th><th>Type</th></tr><tr><td>id</td><td>Integer</td></tr><tr><td>a|b</td></tr></table>";
    let md = md_of(html, "table", &idx, "b");
    assert_eq!(md, "| Field | Type |\n| --- | --- |\n| id | Integer |\n| a\\|b |  |\n\n");
}

#[test]
fn link_resolves_through_index() {
    let mut idx = AnchorIndex::new();
    idx.register("message", "api/available-types", "Message");
    let md = md_of("<p><a href=\"#message\">Message</a></p>", "a", &idx, "api/methods");
    assert_eq!(md, "[[api/available-types#Message]]");
    let md2 = md_of("<p><a href=\"/bots/api#message\">this object</a></p>", "a", &idx, "api/methods");
    assert_eq!(md2, "[this object]([[api/available-types#Message]])");
    let same = md_of("<p><a href=\"#message\">Message</a></p>", "a", &idx, "api/available-types");
    assert_eq!(same, "[[#Message]]");
}

#[test]
fn external_link_kept() {
    let idx = AnchorIndex::new();
    let md = md_of("<p><a href=\"https://example.com\">site</a></p>", "a", &idx, "b");
    assert_eq!(md, "[site](https://example.com)");
    let unknown = md_of("<p><a href=\"#nowhere\">x</a></p>", "a", &idx, "b");
    assert_eq!(unknown, "[x](#nowhere)");
}

#[test]
fn image_and_rule() {
    let idx = AnchorIndex::new();
    assert_eq!(md_of("<p><img alt=\"logo\" src=\"/a.png\"></p>", "img", &idx, "b"), "![logo](/a.png)");
    assert_eq!(md_of("<div><hr></div>", "hr", &idx, "b"), "\n---\n\n");
}

#[test]
fn blockquote_prefixes_lines() {
    let idx = AnchorIndex::new();
    let md = md_of("<blockquote><p>Note one</p><p>two</p></blockquote>", "blockquote", &idx, "b");
    assert_eq!(md, "> Note one\n> \n> two\n\n");
}

#[test]
fn headings_in_document_order() {
    let hs = extract_headings(
        "<h2 id=\"types\">Types</h2><h3><a name=\"user\"></a>User</h3><h4 id=\"x\"></h4><h4 id=\"chat\">Chat</h4>",
    );
    assert_eq!(
        hs,
        vec![
            (2u8, "types".to_string(), "Types".to_string()),
            (3u8, "user".to_string(), "User".to_string()),
            (4u8, "chat".to_string(), "Chat".to_string()),
        ]
    );
}

#[test]
fn content_root_and_node_to_md() {
    let doc = parse_document("<body><div class=\"x\"><p>no</p></div><div id=\"dev_page_content\"><p>yes</p></div></body>");
    let body = find(&doc, "body").unwrap();
    let root = content_root(&body.children).expect("content root");
    let idx = AnchorIndex::new();
    assert_eq!(node_to_md(root, &idx, "b"), "yes\n\n");
}

#[test]
fn svg_xlink_href_is_not_a_plain_href() {
    let idx = AnchorIndex::new();
    let doc = parse_document("<svg><a xlink:href=\"https://example.com\">t</a></svg>");
    let a = find(&doc, "a").expect("element present");
    if let NodeKind::Element(_, attrs) = &a.kind {
        assert_eq!(attrs.len(), 1);
        assert_eq!(attrs[0].0.as_deref(), Some("xlink"));
        assert_eq!(attrs[0].1, "http://www.w3.org/1999/xlink");
        assert_eq!(attrs[0].2, "href");
    } else {
        panic!("not an element");
    }
    assert_eq!(element_to_md(a, &idx, "b"), "t");
    let plain = md_of("<svg><a href=\"https://example.com\">t</a></svg>", "a", &idx, "b");
    assert_eq!(plain, "[t](https://example.com)");
}

#[test]
fn content_root_by_one_class_among_several() {
    let doc = parse_document("<body><p>skip</p><div class=\"a page-body b\"><p>in</p></div></body>");
    let body = find(&doc, "body").unwrap();
    let root = content_root(&body.children).expect("content root");
    let idx = AnchorIndex::new();
    assert_eq!(node_to_md(root, &idx, "b"), "in\n\n");
}
