//! The core.telegram.org pages: how each page is split into Markdown files.
use vstd::prelude::*;
use crate::anchor_index::{spec_target, AnchorIndex};
use crate::convert::{
    attr_or_empty, is_elem_named, block_list, headings_of, headings_in, content_root, element_to_md, first_content_in, first_desc, first_in_exec,
    frontmatter, get_attr, get_attr_or_empty, is_named, md, node_attr, node_text, node_to_md,
    spec_frontmatter, strs_view, text_of,
};
use crate::html::{all_parse_to, parse_document, parse_documents, parses_to, HtmlNode, KindView, NodeKind};
use crate::groups::{spec_group_all, SortedGroups};
use crate::pattern::{captures, first_captures, group, group_of};
use crate::text::{
    all_ascii_digits, all_digits, chars_of, decimal, eq_chars, find_char, find_in, has_prefix,
    is_alphanumeric, lowercase, parse_u32, parse_u32_in, push_chars, push_decimal, push_str,
    replace_char, replace_char_in, slice, spec_is_alphanumeric, spec_lowercase, starts_with_str,
    to_string, trim, trim_chars, lemma_chars_deep_view, push_repeat, repeat_char, blank, replace_str, replace_str_in, is_blank, join, join_in, push_piece, push_deep, trim_end_matches, trim_end_matches_str, trim_start_matches,
    trim_start_matches_str,
};

verus! {

/// How a page is split into files.
pub enum SplitMode {
    /// One file as-is.
    Single,
    /// Split by h3 sections, each into a file of the directory `dir`.
    ByH3 { dir: &'static str },
    /// Split the changelog by year (h3 = year, h4 = entry) under the directory `dir`.
    Changelog { dir: &'static str },
}

/// The view of a split mode.
pub ghost enum SplitView {
    Single,
    ByH3(Seq<char>),
    Changelog(Seq<char>),
}

impl View for SplitMode {
    type V = SplitView;

    open spec fn view(&self) -> SplitView {
        match self {
            SplitMode::Single => SplitView::Single,
            SplitMode::ByH3 { dir } => SplitView::ByH3(dir@),
            SplitMode::Changelog { dir } => SplitView::Changelog(dir@),
        }
    }
}

/// One page of the site: its URL path, its output name, how it is split, and its tags.
pub struct PageDef {
    pub url: &'static str,
    pub out: &'static str,
    pub split_by: SplitMode,
    pub tags: Vec<&'static str>,
}

/// The characters of an id that a slug keeps: alphanumeric characters and `-`.
pub open spec fn keep_slug(s: Seq<char>) -> Seq<char>
    decreases s.len(),
{
    if s.len() == 0 {
        Seq::empty()
    } else {
        keep_slug(s.drop_last()) + if spec_is_alphanumeric(s.last()) || s.last() == '-' {
            seq![s.last()]
        } else {
            Seq::empty()
        }
    }
}

/// The slug of an h3 id: lowercased, spaces made `-`, then only alphanumerics and `-` kept.
pub open spec fn spec_h3_slug(id: Seq<char>) -> Seq<char> {
    keep_slug(replace_char(spec_lowercase(id), ' ', "-"@))
}

proof fn lemma_keep_slug_chars(s: Seq<char>)
    ensures
        forall|i: int| 0 <= i < keep_slug(s).len() ==> spec_is_alphanumeric(#[trigger] keep_slug(s)[i]) || keep_slug(s)[i] == '-',
    decreases s.len(),
{
    if s.len() > 0 {
        lemma_keep_slug_chars(s.drop_last());
        let a = keep_slug(s.drop_last());
        assert forall|i: int| 0 <= i < keep_slug(s).len() implies spec_is_alphanumeric(#[trigger] keep_slug(s)[i]) || keep_slug(s)[i] == '-' by {
            if i < a.len() {
                assert(keep_slug(s)[i] == a[i]);
            }
        }
    }
}

/// h3 id -> slug for file name.
pub fn h3_to_slug(id: &str) -> (r: String)
    ensures
        r@ == spec_h3_slug(id@),
        forall|i: int| 0 <= i < r@.len() ==> spec_is_alphanumeric(#[trigger] r@[i]) || r@[i] == '-',
{
    let low = lowercase(id);
    let dashed = replace_char_in(&chars_of(low.as_str()), ' ', "-");
    let mut out: Vec<char> = Vec::new();
    let mut i: usize = 0;
    while i < dashed.len()
        invariant
            i <= dashed.len(),
            out@ == keep_slug(dashed@.take(i as int)),
        decreases dashed.len() - i,
    {
        proof {
            assert(dashed@.take(i + 1).drop_last() =~= dashed@.take(i as int));
            assert(dashed@.take(i + 1).last() == dashed@[i as int]);
        }
        let c = dashed[i];
        if is_alphanumeric(c) || c == '-' {
            let ghost before = out@;
            out.push(c);
            proof {
                assert(out@ =~= before + seq![c]);
            }
        }
        i = i + 1;
    }
    proof {
        assert(dashed@.take(dashed.len() as int) =~= dashed@);
        lemma_keep_slug_chars(dashed@);
    }
    to_string(&out)
}

/// The h3 section that an anchor lies in, scanning the headings from the current section `cur`:
/// the slug of the last h3 heading at or before the heading with the anchor as id.
pub open spec fn h3_section_of(hs: Seq<(u8, Seq<char>, Seq<char>)>, anchor: Seq<char>, cur: Seq<char>) -> Option<Seq<char>>
    decreases hs.len(),
{
    if hs.len() == 0 {
        None
    } else {
        let cur2 = if hs[0].0 == 3 { spec_h3_slug(hs[0].1) } else { cur };
        if hs[0].1 == anchor {
            Some(cur2)
        } else {
            h3_section_of(hs.drop_first(), anchor, cur2)
        }
    }
}

/// The changelog year that an anchor lies in: the text of the last all-digit h3 heading at or
/// before the heading with the anchor as id.
pub open spec fn year_of(hs: Seq<(u8, Seq<char>, Seq<char>)>, anchor: Seq<char>, cur: Seq<char>) -> Option<Seq<char>>
    decreases hs.len(),
{
    if hs.len() == 0 {
        None
    } else {
        let cur2 = if hs[0].0 == 3 && all_digits(hs[0].2) { hs[0].2 } else { cur };
        if hs[0].1 == anchor {
            Some(cur2)
        } else {
            year_of(hs.drop_first(), anchor, cur2)
        }
    }
}

/// The output doc path of an anchor given the page's split mode. On a page split by h3, a
/// heading before the first h3 lies in the introduction section (`dir/intro`), the file
/// that holds the content before the first h3.
/// On the changelog, a heading lies under its year's index; the index then points the
/// release headings at their release files (`register_entries`).
pub open spec fn spec_anchor_path(mode: SplitView, out: Seq<char>, hs: Seq<(u8, Seq<char>, Seq<char>)>, anchor: Seq<char>) -> Seq<char> {
    match mode {
        SplitView::Single => trim_end_matches(out, ".md"@),
        SplitView::ByH3(dir) => dir + "/"@ + match h3_section_of(hs, anchor, "intro"@) {
            Some(c) => c,
            None => "index"@,
        },
        SplitView::Changelog(dir) => match year_of(hs, anchor, "index"@) {
            Some(y) => dir + "/"@ + y + "/index"@,
            None => dir + "/index"@,
        },
    }
}

/// Determine the output doc path for an anchor given the page's split mode.
pub fn resolve_anchor_path(page: &PageDef, anchor: &str, all_headings: &Vec<(u8, String, String)>) -> (r: String)
    ensures
        r@ == spec_anchor_path(page.split_by@, page.out@, all_headings.deep_view(), anchor@),
{
    let ghost hs = all_headings.deep_view();
    let a = chars_of(anchor);
    match &page.split_by {
        SplitMode::Single => {
            let o = chars_of(page.out);
            to_string(&trim_end_matches_str(&o, ".md"))
        },
        SplitMode::ByH3 { dir } => {
            let mut cur = chars_of("intro");
            let mut i: usize = 0;
            proof {
                assert(hs.skip(0) =~= hs);
            }
            while i < all_headings.len()
                invariant
                    i <= all_headings.len(),
                    hs == all_headings.deep_view(),
                    a@ == anchor@,
                    page.split_by@ == SplitView::ByH3(dir@),
                    h3_section_of(hs, anchor@, "intro"@) == h3_section_of(hs.skip(i as int), anchor@, cur@),
                decreases all_headings.len() - i,
            {
                let (level, id, _) = &all_headings[i];
                proof {
                    assert(hs.skip(i as int)[0] == hs[i as int]);
                    assert(hs[i as int] == (*level, id@, all_headings@[i as int].2@));
                    assert(hs.skip(i as int).drop_first() =~= hs.skip(i + 1));
                }
                if *level == 3 {
                    let sl = h3_to_slug(id.as_str());
                    cur = chars_of(sl.as_str());
                }
                let idv = chars_of(id.as_str());
                if eq_chars(&idv, &a) {
                    let mut out: Vec<char> = Vec::new();
                    push_str(&mut out, dir);
                    push_str(&mut out, "/");
                    push_chars(&mut out, &cur);
                    return to_string(&out);
                }
                i = i + 1;
            }
            let mut out: Vec<char> = Vec::new();
            push_str(&mut out, dir);
            push_str(&mut out, "/");
            push_str(&mut out, "index");
            proof {
                assert(hs.skip(i as int).len() == 0);
            }
            to_string(&out)
        },
        SplitMode::Changelog { dir } => {
            let mut cur = chars_of("index");
            let mut i: usize = 0;
            proof {
                assert(hs.skip(0) =~= hs);
            }
            while i < all_headings.len()
                invariant
                    i <= all_headings.len(),
                    hs == all_headings.deep_view(),
                    a@ == anchor@,
                    page.split_by@ == SplitView::Changelog(dir@),
                    year_of(hs, anchor@, "index"@) == year_of(hs.skip(i as int), anchor@, cur@),
                decreases all_headings.len() - i,
            {
                let (level, id, text) = &all_headings[i];
                proof {
                    assert(hs.skip(i as int)[0] == hs[i as int]);
                    assert(hs[i as int] == (*level, id@, text@));
                    assert(hs.skip(i as int).drop_first() =~= hs.skip(i + 1));
                }
                let tv = chars_of(text.as_str());
                if *level == 3 && all_ascii_digits(&tv) {
                    cur = tv;
                }
                let idv = chars_of(id.as_str());
                if eq_chars(&idv, &a) {
                    let mut out: Vec<char> = Vec::new();
                    push_str(&mut out, dir);
                    push_str(&mut out, "/");
                    push_chars(&mut out, &cur);
                    push_str(&mut out, "/index");
                    return to_string(&out);
                }
                i = i + 1;
            }
            let mut out: Vec<char> = Vec::new();
            push_str(&mut out, dir);
            push_str(&mut out, "/index");
            proof {
                assert(hs.skip(i as int).len() == 0);
            }
            to_string(&out)
        },
    }
}

/// Two digits at least, zero-padded (`format!("{:02}", n)`).
pub open spec fn two_digits(n: nat) -> Seq<char> {
    if n < 10 { seq!['0'] + decimal(n) } else { decimal(n) }
}

/// The English month names with their numbers.
pub open spec fn month_table() -> Seq<(Seq<char>, Seq<char>)> {
    seq![
        ("January"@, "01"@), ("February"@, "02"@), ("March"@, "03"@),
        ("April"@, "04"@), ("May"@, "05"@), ("June"@, "06"@),
        ("July"@, "07"@), ("August"@, "08"@), ("September"@, "09"@),
        ("October"@, "10"@), ("November"@, "11"@), ("December"@, "12"@),
    ]
}

/// The ISO date of what follows a month name: "1, 2026" gives "2026-MM-01", "2026" gives
/// "2026-MM-01", with the day read as a number (1 when it is not one).
pub open spec fn date_rest(after: Seq<char>, num: Seq<char>) -> Seq<char> {
    let rest = trim(trim_start_matches(trim(after), ","@));
    match find_char(rest, ',') {
        Some(i) => {
            let day = match parse_u32(trim(rest.take(i))) {
                Some(d) => d,
                None => 1u32,
            };
            trim(rest.skip(i + 1)) + "-"@ + num + "-"@ + two_digits(day as nat)
        },
        None => trim(rest) + "-"@ + num + "-01"@,
    }
}

/// The date of a text that starts with one of the month names of `months`, else the text.
pub open spec fn date_from(t: Seq<char>, months: Seq<(Seq<char>, Seq<char>)>) -> Seq<char>
    decreases months.len(),
{
    if months.len() == 0 {
        t
    } else if has_prefix(t, months[0].0) {
        date_rest(t.skip(months[0].0.len() as int), months[0].1)
    } else {
        date_from(t, months.drop_first())
    }
}

/// h4 date text like "March 1, 2026" as ISO "2026-03-01".
pub open spec fn spec_date_to_iso(text: Seq<char>) -> Seq<char> {
    date_from(trim(text), month_table())
}

fn push_two_digits(out: &mut Vec<char>, n: u32)
    ensures
        final(out)@ == old(out)@ + two_digits(n as nat),
{
    if n < 10 {
        out.push('0');
    }
    push_decimal(out, n as usize);
}

fn month_vec() -> (r: Vec<(&'static str, &'static str)>)
    ensures
        r@.map_values(|p: (&str, &str)| (p.0@, p.1@)) == month_table(),
{
    let r = vec![
        ("January", "01"), ("February", "02"), ("March", "03"),
        ("April", "04"), ("May", "05"), ("June", "06"),
        ("July", "07"), ("August", "08"), ("September", "09"),
        ("October", "10"), ("November", "11"), ("December", "12"),
    ];
    proof {
        assert(r@.map_values(|p: (&str, &str)| (p.0@, p.1@)) =~= month_table());
    }
    r
}

fn date_rest_exec(after: &Vec<char>, num: &str) -> (r: Vec<char>)
    ensures
        r@ == date_rest(after@, num@),
{
    let rest = trim_chars(&trim_start_matches_str(&trim_chars(after), ","));
    let mut out: Vec<char> = Vec::new();
    match find_in(&rest, ',') {
        Some(i) => {
            let day = match parse_u32_in(&trim_chars(&slice(&rest, 0, i))) {
                Some(d) => d,
                None => 1u32,
            };
            push_chars(&mut out, &trim_chars(&slice(&rest, i + 1, rest.len())));
            push_str(&mut out, "-");
            push_str(&mut out, num);
            push_str(&mut out, "-");
            push_two_digits(&mut out, day);
            proof {
                assert(rest@.take(i as int) =~= rest@.subrange(0, i as int));
                assert(rest@.skip(i + 1) =~= rest@.subrange(i + 1, rest@.len() as int));
            }
        },
        None => {
            push_chars(&mut out, &trim_chars(&rest));
            push_str(&mut out, "-");
            push_str(&mut out, num);
            push_str(&mut out, "-01");
        },
    }
    out
}

/// Convert h4 date text like "March 1, 2026" to ISO "2026-03-01".
pub fn date_to_iso(text: &str) -> (r: String)
    ensures
        r@ == spec_date_to_iso(text@),
{
    let t = trim_chars(&chars_of(text));
    let months = month_vec();
    let ghost mt = month_table();
    let mut i: usize = 0;
    proof {
        assert(mt.skip(0) =~= mt);
    }
    while i < months.len()
        invariant
            i <= months.len(),
            months@.map_values(|p: (&str, &str)| (p.0@, p.1@)) == mt,
            mt == month_table(),
            t@ == trim(text@),
            date_from(t@, mt) == date_from(t@, mt.skip(i as int)),
        decreases months.len() - i,
    {
        let (name, num) = months[i];
        proof {
            assert(mt.skip(i as int)[0] == mt[i as int]);
            assert(mt[i as int] == (name@, num@));
            assert(mt.skip(i as int).drop_first() =~= mt.skip(i + 1));
        }
        if starts_with_str(&t, name) {
            let n = chars_of(name);
            let after = slice(&t, n.len(), t.len());
            proof {
                assert(after@ =~= t@.skip(name@.len() as int));
            }
            return to_string(&date_rest_exec(&after, num));
        }
        i = i + 1;
    }
    to_string(&t)
}

/// "Bot API X.Y" as found in the first paragraph text of a changelog entry, if any.
pub open spec fn spec_extract_version(first_p: Seq<char>) -> Option<Seq<char>> {
    match first_captures("Bot API\\s+(\\d+\\.\\d+)"@, first_p) {
        Some(c) => Some(group(c, 0)),
        None => None,
    }
}

/// Extract "Bot API X.Y" from the first paragraph text of a section.
pub fn extract_version(first_p: &str) -> (r: Option<String>)
    ensures
        match r {
            Some(v) => spec_extract_version(first_p@) == Some(v@),
            None => spec_extract_version(first_p@) is None,
        },
{
    match captures("Bot API\\s+(\\d+\\.\\d+)", first_p) {
        Some(c) => Some(to_string(&group_of(&c, 0))),
        None => None,
    }
}

/// The Markdown file of a single page: frontmatter (title from its first h1, else `doc_base`)
/// and the Markdown of its content root.
pub open spec fn spec_page_to_md(doc: HtmlNode, m: Map<Seq<char>, Seq<char>>, doc_base: Seq<char>, source_url: Seq<char>, tags: Seq<Seq<char>>) -> Seq<char> {
    spec_page_md(doc, m, doc_base, doc_base, source_url, tags)
}

/// A page as one Markdown document: frontmatter titled by its first h1 (else `title_base`),
/// then its content, links resolved as seen from the page `link_base`.
pub open spec fn spec_page_md(doc: HtmlNode, m: Map<Seq<char>, Seq<char>>, title_base: Seq<char>, link_base: Seq<char>, source_url: Seq<char>, tags: Seq<Seq<char>>) -> Seq<char> {
    let title = match first_desc(doc, "h1"@, None) {
        Some(h) => text_of(h),
        None => title_base,
    };
    let body = match first_content_in(doc.children@) {
        Some(root) => block_list(root.children@, m, link_base),
        None => "[content not found]"@,
    };
    spec_frontmatter(trim(title), source_url, tags) + body
}

/// Convert a full page to a single Markdown string.
pub fn page_doc_to_md(doc: &HtmlNode, index: &AnchorIndex, doc_base: &str, source_url: &str, tags: &[&str]) -> (r: String)
    ensures
        r@ == spec_page_to_md(*doc, index@, doc_base@, source_url@, strs_view(tags@)),
{
    page_doc_md(doc, index, doc_base, doc_base, source_url, tags)
}

/// A page as one Markdown document, titled by its first h1 (else `title_base`), links seen
/// from the page `link_base`.
pub fn page_doc_md(doc: &HtmlNode, index: &AnchorIndex, title_base: &str, link_base: &str, source_url: &str, tags: &[&str]) -> (r: String)
    ensures
        r@ == spec_page_md(*doc, index@, title_base@, link_base@, source_url@, strs_view(tags@)),
{
    let title = match first_in_exec(&doc.children, "h1", None) {
        Some(h) => node_text(h),
        None => chars_of(title_base),
    };
    let t = to_string(&trim_chars(&title));
    let fm = frontmatter(t.as_str(), source_url, tags);
    let mut out = chars_of(fm.as_str());
    match content_root(&doc.children) {
        Some(root) => {
            let body = node_to_md(root, index, link_base);
            push_str(&mut out, body.as_str());
        },
        None => push_str(&mut out, "[content not found]"),
    }
    to_string(&out)
}

/// The state of the split of a page into h3 sections: the finished sections, and the id,
/// title and Markdown pieces of the current one.
pub ghost struct H3State {
    pub sections: Seq<(Seq<char>, Seq<char>, Seq<Seq<char>>)>,
    pub id: Seq<char>,
    pub title: Seq<char>,
    pub buf: Seq<Seq<char>>,
}

/// The id of an h3 heading: its `id`, else the `name` of its first `<a name>`, else empty.
pub open spec fn h3_raw_id(c: HtmlNode) -> Seq<char> {
    match node_attr(c, "id"@) {
        Some(i) => i,
        None => match first_desc(c, "a"@, Some("name"@)) {
            Some(a) => attr_or_empty(a, "name"@),
            None => Seq::empty(),
        },
    }
}

/// One child of the content root in the split by h3: an h3 starts a new section, other
/// elements add their Markdown (links seen from `dir/<section id>`), text that is not blank is kept.
pub open spec fn h3_step(st: H3State, c: HtmlNode, m: Map<Seq<char>, Seq<char>>, dir: Seq<char>) -> H3State {
    match c.kind@ {
        KindView::Element(name, _) => if name == "h3"@ {
            let secs = if st.buf.len() > 0 { st.sections.push((st.id, st.title, st.buf)) } else { st.sections };
            let raw = h3_raw_id(c);
            let id = if raw.len() == 0 { "section"@ } else { spec_h3_slug(raw) };
            let title = trim(text_of(c));
            H3State { sections: secs, id: id, title: title, buf: seq!["# "@ + title + "\n"@] }
        } else {
            H3State { sections: st.sections, id: st.id, title: st.title, buf: st.buf.push(md(c, m, dir + "/"@ + st.id)) }
        },
        KindView::Text(t) => if is_blank(t) {
            st
        } else {
            H3State { sections: st.sections, id: st.id, title: st.title, buf: st.buf.push(t) }
        },
        KindView::Other => st,
    }
}

pub open spec fn h3_fold(s: Seq<HtmlNode>, m: Map<Seq<char>, Seq<char>>, dir: Seq<char>) -> H3State
    decreases s.len(),
{
    if s.len() == 0 {
        H3State { sections: Seq::empty(), id: "intro"@, title: "Introduction"@, buf: Seq::empty() }
    } else {
        h3_step(h3_fold(s.drop_last(), m, dir), s.last(), m, dir)
    }
}

/// The sections of a page split by h3: (slug, title, Markdown content).
pub open spec fn spec_split_by_h3(doc: HtmlNode, m: Map<Seq<char>, Seq<char>>, dir: Seq<char>) -> Seq<(Seq<char>, Seq<char>, Seq<char>)> {
    match first_content_in(doc.children@) {
        Some(root) => {
            let st = h3_fold(root.children@, m, dir);
            let secs = if st.buf.len() > 0 { st.sections.push((st.id, st.title, st.buf)) } else { st.sections };
            secs.map_values(|x: (Seq<char>, Seq<char>, Seq<Seq<char>>)| (x.0, x.1, join(x.2, "\n"@)))
        },
        None => Seq::empty(),
    }
}

fn h3_id_of(c: &HtmlNode) -> (r: Vec<char>)
    ensures
        r@ == h3_raw_id(*c),
{
    match get_attr(c, "id") {
        Some(v) => v,
        None => match first_in_exec(&c.children, "a", Some("name")) {
            Some(a) => get_attr_or_empty(a, "name"),
            None => Vec::new(),
        },
    }
}

/// Split page by h3 sections, return Vec<(slug, title, markdown_content)>.
pub fn split_doc_by_h3(doc: &HtmlNode, index: &AnchorIndex, dir: &str) -> (r: Vec<(String, String, String)>)
    ensures
        r.deep_view() == spec_split_by_h3(*doc, index@, dir@),
{
    let root = match content_root(&doc.children) {
        Some(r) => r,
        None => {
            let e: Vec<(String, String, String)> = Vec::new();
            proof {
                assert(e.deep_view() =~= Seq::<(Seq<char>, Seq<char>, Seq<char>)>::empty());
            }
            return e;
        },
    };
    let kids = &root.children;
    let mut sections: Vec<(Vec<char>, Vec<char>, Vec<Vec<char>>)> = Vec::new();
    let mut id = chars_of("intro");
    let mut title = chars_of("Introduction");
    let mut buf: Vec<Vec<char>> = Vec::new();
    let mut i: usize = 0;
    proof {
        assert(sections.deep_view() =~= Seq::<(Seq<char>, Seq<char>, Seq<Seq<char>>)>::empty());
        assert(buf.deep_view() =~= Seq::<Seq<char>>::empty());
    }
    while i < kids.len()
        invariant
            i <= kids.len(),
            (H3State { sections: sections.deep_view(), id: id@, title: title@, buf: buf.deep_view() })
                == h3_fold(kids@.take(i as int), index@, dir@),
        decreases kids.len() - i,
    {
        proof {
            assert(kids@.take(i + 1).drop_last() =~= kids@.take(i as int));
            assert(kids@.take(i + 1).last() == kids@[i as int]);
        }
        let c = &kids[i];
        match &c.kind {
            NodeKind::Element(_, _) => {
                if is_named(c, "h3") {
                    if buf.len() > 0 {
                        let b = buf;
                        buf = Vec::new();
                        let ghost before = sections.deep_view();
                        let id2 = slice(&id, 0, id.len());
                        let title2 = slice(&title, 0, title.len());
                        proof {
                            assert(id@.subrange(0, id@.len() as int) =~= id@);
                            assert(title@.subrange(0, title@.len() as int) =~= title@);
                            lemma_chars_deep_view(id2);
                            lemma_chars_deep_view(title2);
                        }
                        push_deep(&mut sections, (id2, title2, b));
                    }
                    let raw = h3_id_of(c);
                    if raw.len() == 0 {
                        id = chars_of("section");
                    } else {
                        let sl = h3_to_slug(to_string(&raw).as_str());
                        id = chars_of(sl.as_str());
                    }
                    title = trim_chars(&node_text(c));
                    let mut line: Vec<char> = Vec::new();
                    push_str(&mut line, "# ");
                    push_chars(&mut line, &title);
                    push_str(&mut line, "\n");
                    buf = Vec::new();
                    push_piece(&mut buf, line);
                    proof {
                        assert(buf.deep_view() =~= seq!["# "@ + title@ + "\n"@]);
                    }
                } else {
                    let mut base: Vec<char> = Vec::new();
                    push_str(&mut base, dir);
                    push_str(&mut base, "/");
                    push_chars(&mut base, &id);
                    let bs = to_string(&base);
                    let piece = element_to_md(c, index, bs.as_str());
                    push_piece(&mut buf, chars_of(piece.as_str()));
                }
            },
            NodeKind::Text(t) => {
                let tv = chars_of(t.as_str());
                if !blank(&tv) {
                    push_piece(&mut buf, tv);
                }
            },
            NodeKind::Other => {},
        }
        i = i + 1;
    }
    proof {
        assert(kids@.take(kids.len() as int) =~= kids@);
    }
    if buf.len() > 0 {
        proof {
            lemma_chars_deep_view(id);
            lemma_chars_deep_view(title);
        }
        push_deep(&mut sections, (id, title, buf));
    }
    let ghost secs = sections.deep_view();
    let mut out: Vec<(String, String, String)> = Vec::new();
    let mut k: usize = 0;
    while k < sections.len()
        invariant
            k <= sections.len(),
            secs == sections.deep_view(),
            out.deep_view() =~= secs.take(k as int).map_values(|x: (Seq<char>, Seq<char>, Seq<Seq<char>>)| (x.0, x.1, join(x.2, "\n"@))),
        decreases sections.len() - k,
    {
        let (a, b, c) = &sections[k];
        proof {
            lemma_chars_deep_view(*a);
            lemma_chars_deep_view(*b);
            assert(secs[k as int] == (a@, b@, c.deep_view()));
        }
        let entry = (to_string(a), to_string(b), to_string(&join_in(c, "\n")));
        push_deep(&mut out, entry);
        proof {
            assert(secs.take(k + 1).map_values(|x: (Seq<char>, Seq<char>, Seq<Seq<char>>)| (x.0, x.1, join(x.2, "\n"@))) =~= secs.take(k as int).map_values(|x: (Seq<char>, Seq<char>, Seq<Seq<char>>)| (x.0, x.1, join(x.2, "\n"@))).push((a@, b@, join(c.deep_view(), "\n"@))));
        }
        k = k + 1;
    }
    proof {
        assert(secs.take(sections.len() as int) =~= secs);
    }
    out
}

/// A single changelog release entry.
pub struct ChangelogEntry {
    /// Year, e.g. "2026"
    pub year: String,
    /// File slug, e.g. "BotAPI-9.5"
    pub slug: String,
    /// Human version title, e.g. "Bot API 9.5"
    pub version: String,
    /// ISO date for frontmatter, e.g. "2026-03-01"
    pub date: String,
    /// Markdown body
    pub content: String,
    /// The anchor of the entry's date heading (its `id`, else the name of its `<a name>`)
    pub id: String,
}

pub ghost struct EntryView {
    pub year: Seq<char>,
    pub slug: Seq<char>,
    pub version: Seq<char>,
    pub date: Seq<char>,
    pub content: Seq<char>,
    pub id: Seq<char>,
}

impl View for ChangelogEntry {
    type V = EntryView;

    open spec fn view(&self) -> EntryView {
        EntryView { year: self.year@, slug: self.slug@, version: self.version@, date: self.date@, content: self.content@, id: self.id@ }
    }
}

/// The entries with the entry being built added, if it has a date heading: its date in ISO
/// form, its version (the "Bot API X.Y" of its first paragraph, else the date heading), its
/// slug ("BotAPI-X.Y", else the ISO date) and its Markdown pieces joined by lines.
pub open spec fn flush_entry(entries: Seq<EntryView>, year: Seq<char>, date_text: Seq<char>, version: Option<Seq<char>>, buf: Seq<Seq<char>>, id: Seq<char>) -> Seq<EntryView> {
    if date_text.len() == 0 {
        entries
    } else {
        let date = spec_date_to_iso(date_text);
        let ver = match version {
            Some(v) => v,
            None => date_text,
        };
        let slug = if has_prefix(ver, "Bot API"@) {
            "BotAPI-"@ + trim(trim_start_matches(ver, "Bot API"@))
        } else {
            replace_char(date, '-', "-"@)
        };
        entries.push(EntryView { year: year, slug: slug, version: ver, date: date, content: join(buf, "\n"@), id: id })
    }
}

/// The state of the split of the changelog: finished entries, the current year, and the date
/// heading, Markdown pieces, whether its first paragraph was seen, and version of the current entry.
pub ghost struct ClState {
    pub entries: Seq<EntryView>,
    pub year: Seq<char>,
    pub date_text: Seq<char>,
    pub buf: Seq<Seq<char>>,
    pub first_p_seen: bool,
    pub version: Option<Seq<char>>,
    pub id: Seq<char>,
}

/// One child of the content root in the split of the changelog: a year h3 closes the entry
/// and starts a year, an h4 starts an entry, a paragraph or other element inside an entry adds
/// its Markdown (links seen from `dir/<year>`; the first paragraph names the version), and text
/// that is not blank inside an entry is kept.
pub open spec fn cl_step(st: ClState, c: HtmlNode, m: Map<Seq<char>, Seq<char>>, dir: Seq<char>) -> ClState {
    match c.kind@ {
        KindView::Element(name, _) => if name == "h3"@ {
            let text = trim(text_of(c));
            if text.len() == 4 && all_digits(text) {
                ClState {
                    entries: flush_entry(st.entries, st.year, st.date_text, st.version, st.buf, st.id),
                    year: text,
                    date_text: Seq::empty(),
                    buf: Seq::empty(),
                    first_p_seen: false,
                    version: None,
                    id: Seq::empty(),
                }
            } else {
                st
            }
        } else if name == "h4"@ {
            let dt = trim(text_of(c));
            ClState {
                entries: flush_entry(st.entries, st.year, st.date_text, st.version, st.buf, st.id),
                year: st.year,
                date_text: dt,
                buf: seq!["# "@ + dt + "\n"@],
                first_p_seen: false,
                version: None,
                id: h3_raw_id(c),
            }
        } else if st.date_text.len() > 0 {
            let piece = md(c, m, dir + "/"@ + st.year);
            if name == "p"@ && !st.first_p_seen {
                match spec_extract_version(text_of(c)) {
                    Some(v) => ClState {
                        entries: st.entries,
                        year: st.year,
                        date_text: st.date_text,
                        buf: (if st.buf.len() > 0 { st.buf.update(0, "# "@ + v + "\n"@) } else { st.buf }).push(piece),
                        first_p_seen: true,
                        version: Some(v),
                        id: st.id,
                    },
                    None => ClState {
                        entries: st.entries,
                        year: st.year,
                        date_text: st.date_text,
                        buf: st.buf.push(piece),
                        first_p_seen: true,
                        version: st.version,
                        id: st.id,
                    },
                }
            } else {
                ClState {
                    entries: st.entries,
                    year: st.year,
                    date_text: st.date_text,
                    buf: st.buf.push(piece),
                    first_p_seen: st.first_p_seen,
                    version: st.version,
                    id: st.id,
                }
            }
        } else {
            st
        },
        KindView::Text(t) => if !is_blank(t) && st.date_text.len() > 0 {
            ClState {
                entries: st.entries,
                year: st.year,
                date_text: st.date_text,
                buf: st.buf.push(t),
                first_p_seen: st.first_p_seen,
                version: st.version,
                id: st.id,
            }
        } else {
            st
        },
        KindView::Other => st,
    }
}

pub open spec fn cl_fold(s: Seq<HtmlNode>, m: Map<Seq<char>, Seq<char>>, dir: Seq<char>) -> ClState
    decreases s.len(),
{
    if s.len() == 0 {
        ClState {
            entries: Seq::empty(),
            year: "misc"@,
            date_text: Seq::empty(),
            buf: Seq::empty(),
            first_p_seen: false,
            version: None,
            id: Seq::empty(),
        }
    } else {
        cl_step(cl_fold(s.drop_last(), m, dir), s.last(), m, dir)
    }
}

/// The per-release entries of the changelog page.
pub open spec fn spec_split_changelog(doc: HtmlNode, m: Map<Seq<char>, Seq<char>>, dir: Seq<char>) -> Seq<EntryView> {
    match first_content_in(doc.children@) {
        Some(root) => {
            let st = cl_fold(root.children@, m, dir);
            flush_entry(st.entries, st.year, st.date_text, st.version, st.buf, st.id)
        },
        None => Seq::empty(),
    }
}

/// The views of a list of changelog entries.
pub open spec fn entries_view(es: Seq<ChangelogEntry>) -> Seq<EntryView> {
    es.map_values(|e: ChangelogEntry| e@)
}

fn flush_exec(entries: &mut Vec<ChangelogEntry>, year: &Vec<char>, date_text: &Vec<char>, version: &Option<Vec<char>>, buf: &Vec<Vec<char>>, id: &Vec<char>)
    ensures
        entries_view(final(entries)@) == flush_entry(entries_view(old(entries)@), year@, date_text@,
            match version { Some(v) => Some(v@), None => None }, buf.deep_view(), id@),
{
    if date_text.len() == 0 {
        return;
    }
    let dts = to_string(date_text);
    let date = date_to_iso(dts.as_str());
    let dv = chars_of(date.as_str());
    let ver = match version {
        Some(v) => slice(v, 0, v.len()),
        None => slice(date_text, 0, date_text.len()),
    };
    proof {
        assert(date_text@.subrange(0, date_text@.len() as int) =~= date_text@);
        match version {
            Some(v) => { assert(v@.subrange(0, v@.len() as int) =~= v@); },
            None => {},
        }
    }
    let slug = if starts_with_str(&ver, "Bot API") {
        let mut s: Vec<char> = Vec::new();
        push_str(&mut s, "BotAPI-");
        push_chars(&mut s, &trim_chars(&trim_start_matches_str(&ver, "Bot API")));
        s
    } else {
        replace_char_in(&dv, '-', "-")
    };
    let entry = ChangelogEntry {
        year: to_string(year),
        slug: to_string(&slug),
        version: to_string(&ver),
        date: date,
        content: to_string(&join_in(buf, "\n")),
        id: to_string(id),
    };
    let ghost before = entries@;
    entries.push(entry);
    proof {
        assert(entries@.drop_last() == before);
        assert(entries_view(entries@) =~= entries_view(before).push(entry@));
    }
}

/// Split changelog into per-release entries.
pub fn split_doc_changelog(doc: &HtmlNode, index: &AnchorIndex, dir: &str) -> (r: Vec<ChangelogEntry>)
    ensures
        entries_view(r@) == spec_split_changelog(*doc, index@, dir@),
{
    let root = match content_root(&doc.children) {
        Some(r) => r,
        None => {
            let e: Vec<ChangelogEntry> = Vec::new();
            proof {
                assert(entries_view(e@) =~= Seq::<EntryView>::empty());
            }
            return e;
        },
    };
    let kids = &root.children;
    let mut entries: Vec<ChangelogEntry> = Vec::new();
    let mut year = chars_of("misc");
    let mut date_text: Vec<char> = Vec::new();
    let mut buf: Vec<Vec<char>> = Vec::new();
    let mut first_p_seen = false;
    let mut version: Option<Vec<char>> = None;
    let mut entry_id: Vec<char> = Vec::new();
    let mut i: usize = 0;
    proof {
        assert(entry_id@ =~= Seq::<char>::empty());
        assert(entries_view(entries@) =~= Seq::<EntryView>::empty());
        assert(buf.deep_view() =~= Seq::<Seq<char>>::empty());
    }
    while i < kids.len()
        invariant
            i <= kids.len(),
            (ClState {
                entries: entries_view(entries@),
                year: year@,
                date_text: date_text@,
                buf: buf.deep_view(),
                first_p_seen: first_p_seen,
                version: match version { Some(v) => Some(v@), None => None },
                id: entry_id@,
            }) == cl_fold(kids@.take(i as int), index@, dir@),
        decreases kids.len() - i,
    {
        proof {
            assert(kids@.take(i + 1).drop_last() =~= kids@.take(i as int));
            assert(kids@.take(i + 1).last() == kids@[i as int]);
        }
        let c = &kids[i];
        match &c.kind {
            NodeKind::Element(_, _) => {
                if is_named(c, "h3") {
                    let text = trim_chars(&node_text(c));
                    if text.len() == 4 && all_ascii_digits(&text) {
                        flush_exec(&mut entries, &year, &date_text, &version, &buf, &entry_id);
                        buf = Vec::new();
                        date_text = Vec::new();
                        version = None;
                        first_p_seen = false;
                        year = text;
                        entry_id = Vec::new();
                        proof {
                            assert(entry_id@ =~= Seq::<char>::empty());
                            assert(buf.deep_view() =~= Seq::<Seq<char>>::empty());
                            assert(date_text@ =~= Seq::<char>::empty());
                        }
                    }
                } else if is_named(c, "h4") {
                    flush_exec(&mut entries, &year, &date_text, &version, &buf, &entry_id);
                    version = None;
                    first_p_seen = false;
                    date_text = trim_chars(&node_text(c));
                    entry_id = h3_id_of(c);
                    let mut line: Vec<char> = Vec::new();
                    push_str(&mut line, "# ");
                    push_chars(&mut line, &date_text);
                    push_str(&mut line, "\n");
                    buf = Vec::new();
                    push_piece(&mut buf, line);
                    proof {
                        assert(buf.deep_view() =~= seq!["# "@ + date_text@ + "\n"@]);
                    }
                } else if date_text.len() > 0 {
                    let mut base: Vec<char> = Vec::new();
                    push_str(&mut base, dir);
                    push_str(&mut base, "/");
                    push_chars(&mut base, &year);
                    let bs = to_string(&base);
                    if is_named(c, "p") && !first_p_seen {
                        let p_text = to_string(&node_text(c));
                        match extract_version(p_text.as_str()) {
                            Some(v) => {
                                let vv = chars_of(v.as_str());
                                if buf.len() > 0 {
                                    let mut line: Vec<char> = Vec::new();
                                    push_str(&mut line, "# ");
                                    push_chars(&mut line, &vv);
                                    push_str(&mut line, "\n");
                                    let ghost before = buf.deep_view();
                                    let ghost lv = line@;
                                    let ghost old_buf = buf@;
                                    buf.set(0, line);
                                    proof {
                                        assert(buf.deep_view() =~= before.update(0, lv)) by {
                                            assert forall|j: int| 0 <= j < buf@.len() implies #[trigger] buf.deep_view()[j] == before.update(0, lv)[j] by {
                                                if j > 0 {
                                                    assert(buf@[j] == old_buf[j]);
                                                }
                                            }
                                        }
                                    }
                                }
                                version = Some(vv);
                            },
                            None => {},
                        }
                        first_p_seen = true;
                    }
                    let piece = element_to_md(c, index, bs.as_str());
                    push_piece(&mut buf, chars_of(piece.as_str()));
                }
            },
            NodeKind::Text(t) => {
                let tv = chars_of(t.as_str());
                if !blank(&tv) && date_text.len() > 0 {
                    push_piece(&mut buf, tv);
                }
            },
            NodeKind::Other => {},
        }
        i = i + 1;
    }
    proof {
        assert(kids@.take(kids.len() as int) =~= kids@);
    }
    flush_exec(&mut entries, &year, &date_text, &version, &buf, &entry_id);
    entries
}

/// The site whose pages are converted.
pub const BASE: &'static str = "https://core.telegram.org";

/// The view of a page definition: URL path, output name, split mode, tags.
pub open spec fn page_view(p: PageDef) -> (Seq<char>, Seq<char>, SplitView, Seq<Seq<char>>) {
    (p.url@, p.out@, p.split_by@, p.tags@.map_values(|t: &str| t@))
}

/// The pages of the site that are converted, in order.
pub open spec fn page_table() -> Seq<(Seq<char>, Seq<char>, SplitView, Seq<Seq<char>>)> {
    seq![
        ("/bots/api"@, "api"@, SplitView::ByH3("api"@), seq!["bot-api"@]),
        ("/bots/api-changelog"@, "changelog"@, SplitView::Changelog("changelog"@), seq!["changelog"@]),
        ("/bots/webapps"@, "webapps"@, SplitView::ByH3("webapps"@), seq!["webapps"@, "mini-apps"@]),
        ("/bots/payments"@, "payments-guide"@, SplitView::ByH3("payments-guide"@), seq!["payments"@]),
        ("/bots"@, "bots.md"@, SplitView::Single, seq!["bots"@, "intro"@]),
        ("/bots/faq"@, "faq.md"@, SplitView::Single, seq!["faq"@]),
        ("/bots/inline"@, "inline.md"@, SplitView::Single, seq!["inline"@]),
        ("/bots/webhooks"@, "webhooks.md"@, SplitView::Single, seq!["webhooks"@]),
        ("/bots/self-signed"@, "self-signed.md"@, SplitView::Single, seq!["webhooks"@, "ssl"@]),
        ("/stickers"@, "stickers.md"@, SplitView::Single, seq!["stickers"@]),
        ("/passport"@, "passport.md"@, SplitView::Single, seq!["passport"@]),
        ("/widgets/login"@, "widgets-login.md"@, SplitView::Single, seq!["widgets"@, "login"@]),
    ]
}

fn page(url: &'static str, out: &'static str, split_by: SplitMode, tags: Vec<&'static str>) -> (r: PageDef)
    ensures
        r.url == url,
        r.out == out,
        r.split_by == split_by,
        r.tags == tags,
{
    PageDef { url, out, split_by, tags }
}

/// The pages of core.telegram.org that are converted.
pub fn page_defs() -> (r: Vec<PageDef>)
    ensures
        r@.map_values(|p: PageDef| page_view(p)) == page_table(),
{
    let r = vec![
        page("/bots/api", "api", SplitMode::ByH3 { dir: "api" }, vec!["bot-api"]),
        page("/bots/api-changelog", "changelog", SplitMode::Changelog { dir: "changelog" }, vec!["changelog"]),
        page("/bots/webapps", "webapps", SplitMode::ByH3 { dir: "webapps" }, vec!["webapps", "mini-apps"]),
        page("/bots/payments", "payments-guide", SplitMode::ByH3 { dir: "payments-guide" }, vec!["payments"]),
        page("/bots", "bots.md", SplitMode::Single, vec!["bots", "intro"]),
        page("/bots/faq", "faq.md", SplitMode::Single, vec!["faq"]),
        page("/bots/inline", "inline.md", SplitMode::Single, vec!["inline"]),
        page("/bots/webhooks", "webhooks.md", SplitMode::Single, vec!["webhooks"]),
        page("/bots/self-signed", "self-signed.md", SplitMode::Single, vec!["webhooks", "ssl"]),
        page("/stickers", "stickers.md", SplitMode::Single, vec!["stickers"]),
        page("/passport", "passport.md", SplitMode::Single, vec!["passport"]),
        page("/widgets/login", "widgets-login.md", SplitMode::Single, vec!["widgets", "login"]),
    ];
    proof {
        let mv = r@.map_values(|p: PageDef| page_view(p));
        assert forall|i: int| 0 <= i < 12 implies #[trigger] mv[i] == page_table()[i] by {
            let tv = r@[i].tags@.map_values(|t: &str| t@);
            assert(tv =~= page_table()[i].3);
        }
        assert(mv =~= page_table());
    }
    r
}

/// `- [[dir/slug|title]]` lines, one per section.
pub open spec fn section_links(dir: Seq<char>, secs: Seq<(Seq<char>, Seq<char>, Seq<char>)>) -> Seq<char>
    decreases secs.len(),
{
    if secs.len() == 0 {
        Seq::empty()
    } else {
        section_links(dir, secs.drop_last()) + "- [["@ + dir + "/"@ + secs.last().0 + "|"@ + secs.last().1 + "]]\n"@
    }
}

/// The index file of a page split by h3.
pub open spec fn spec_build_index(dir: Seq<char>, secs: Seq<(Seq<char>, Seq<char>, Seq<char>)>, source_url: Seq<char>, tags: Seq<Seq<char>>) -> Seq<char> {
    spec_frontmatter(dir + " - Index"@, source_url, tags) + "# "@ + dir + "\n\n"@ + section_links(dir, secs)
}

pub fn build_index(dir: &str, sections: &Vec<(String, String, String)>, source_url: &str, tags: &[&str]) -> (r: String)
    ensures
        r@ == spec_build_index(dir@, sections.deep_view(), source_url@, strs_view(tags@)),
{
    let mut title: Vec<char> = Vec::new();
    push_str(&mut title, dir);
    push_str(&mut title, " - Index");
    let fm = frontmatter(to_string(&title).as_str(), source_url, tags);
    let mut out = chars_of(fm.as_str());
    push_str(&mut out, "# ");
    push_str(&mut out, dir);
    push_str(&mut out, "\n\n");
    let ghost head = out@;
    let ghost sv = sections.deep_view();
    let mut i: usize = 0;
    while i < sections.len()
        invariant
            i <= sections.len(),
            sv == sections.deep_view(),
            out@ == head + section_links(dir@, sv.take(i as int)),
        decreases sections.len() - i,
    {
        proof {
            assert(sv.take(i + 1).drop_last() =~= sv.take(i as int));
            assert(sv.take(i + 1).last() == sv[i as int]);
            assert(sv[i as int] == (sections@[i as int].0@, sections@[i as int].1@, sections@[i as int].2@));
        }
        push_str(&mut out, "- [[");
        push_str(&mut out, dir);
        push_str(&mut out, "/");
        push_str(&mut out, sections[i].0.as_str());
        push_str(&mut out, "|");
        push_str(&mut out, sections[i].1.as_str());
        push_str(&mut out, "]]\n");
        i = i + 1;
    }
    proof {
        assert(sv.take(sections.len() as int) =~= sv);
    }
    to_string(&out)
}

/// The frontmatter of a changelog entry.
pub open spec fn spec_changelog_frontmatter(version: Seq<char>, date: Seq<char>, source_url: Seq<char>) -> Seq<char> {
    "---\ntitle: \""@ + version + "\"\ndate: "@ + date + "\nsource: "@ + source_url + "\ntags:\n  - changelog\n---\n\n"@
}

pub fn changelog_frontmatter(version: &str, date: &str, source_url: &str) -> (r: String)
    ensures
        r@ == spec_changelog_frontmatter(version@, date@, source_url@),
{
    let mut out: Vec<char> = Vec::new();
    push_str(&mut out, "---\ntitle: \"");
    push_str(&mut out, version);
    push_str(&mut out, "\"\ndate: ");
    push_str(&mut out, date);
    push_str(&mut out, "\nsource: ");
    push_str(&mut out, source_url);
    push_str(&mut out, "\ntags:\n  - changelog\n---\n\n");
    to_string(&out)
}

/// `- [[dir/year/slug|version]] - date` lines for the entries at the given positions (a
/// position past the entries gives no line).
pub open spec fn entry_links(dir: Seq<char>, year: Seq<char>, es: Seq<EntryView>, idxs: Seq<usize>) -> Seq<char>
    decreases idxs.len(),
{
    if idxs.len() == 0 {
        Seq::empty()
    } else if idxs.last() < es.len() {
        let e = es[idxs.last() as int];
        entry_links(dir, year, es, idxs.drop_last()) + "- [["@ + dir + "/"@ + year + "/"@ + e.slug + "|"@
            + e.version + "]] - "@ + e.date + "\n"@
    } else {
        entry_links(dir, year, es, idxs.drop_last())
    }
}

/// The index file of one changelog year.
pub open spec fn spec_build_year_index(dir: Seq<char>, year: Seq<char>, es: Seq<EntryView>, idxs: Seq<usize>, source_url: Seq<char>) -> Seq<char> {
    spec_frontmatter("Changelog "@ + year, source_url, seq!["changelog"@]) + "# Changelog "@ + year + "\n\n"@
        + entry_links(dir, year, es, idxs)
}

/// The link line of one changelog entry in its year's index.
fn entry_link_line(dir: &str, year: &Vec<char>, e: &ChangelogEntry) -> (r: Vec<char>)
    ensures
        r@ == "- [["@ + dir@ + "/"@ + year@ + "/"@ + e@.slug + "|"@ + e@.version + "]] - "@ + e@.date + "\n"@,
{
    let mut out: Vec<char> = Vec::new();
    push_str(&mut out, "- [[");
    push_str(&mut out, dir);
    push_str(&mut out, "/");
    push_chars(&mut out, year);
    push_str(&mut out, "/");
    push_str(&mut out, e.slug.as_str());
    push_str(&mut out, "|");
    push_str(&mut out, e.version.as_str());
    push_str(&mut out, "]] - ");
    push_str(&mut out, e.date.as_str());
    push_str(&mut out, "\n");
    out
}

pub fn build_year_index(dir: &str, year: &Vec<char>, entries: &Vec<ChangelogEntry>, idxs: &Vec<usize>, source_url: &str) -> (r: String)
    ensures
        r@ == spec_build_year_index(dir@, year@, entries_view(entries@), idxs@, source_url@),
{
    let mut title: Vec<char> = Vec::new();
    push_str(&mut title, "Changelog ");
    push_chars(&mut title, year);
    let tags = vec!["changelog"];
    proof {
        assert(strs_view(tags@) =~= seq!["changelog"@]);
    }
    let fm = frontmatter(to_string(&title).as_str(), source_url, tags.as_slice());
    let mut out = chars_of(fm.as_str());
    push_str(&mut out, "# Changelog ");
    push_chars(&mut out, year);
    push_str(&mut out, "\n\n");
    let ghost head = out@;
    let ghost ev = entries_view(entries@);
    let mut i: usize = 0;
    while i < idxs.len()
        invariant
            i <= idxs.len(),
            ev == entries_view(entries@),
            out@ == head + entry_links(dir@, year@, ev, idxs@.take(i as int)),
        decreases idxs.len() - i,
    {
        proof {
            assert(idxs@.take(i + 1).drop_last() =~= idxs@.take(i as int));
            assert(idxs@.take(i + 1).last() == idxs@[i as int]);
        }
        if idxs[i] >= entries.len() {
            i = i + 1;
            continue;
        }
        let e = &entries[idxs[i]];
        proof {
            assert(ev[idxs@[i as int] as int] == e@);
        }
        push_chars(&mut out, &entry_link_line(dir, year, e));
        i = i + 1;
    }
    proof {
        assert(idxs@.take(idxs.len() as int) =~= idxs@);
    }
    to_string(&out)
}

/// `- [[dir/year/index|year]]` lines, newest year (last key) first.
pub open spec fn year_links(dir: Seq<char>, years: Seq<Seq<char>>) -> Seq<char>
    decreases years.len(),
{
    if years.len() == 0 {
        Seq::empty()
    } else {
        "- [["@ + dir + "/"@ + years.last() + "/index|"@ + years.last() + "]]\n"@ + year_links(dir, years.drop_last())
    }
}

/// The top-level changelog index.
pub open spec fn spec_build_changelog_index(dir: Seq<char>, years: Seq<Seq<char>>, source_url: Seq<char>) -> Seq<char> {
    spec_frontmatter("Changelog"@, source_url, seq!["changelog"@]) + "# Changelog\n\n"@ + year_links(dir, years)
}

pub fn build_changelog_index(dir: &str, years: &Vec<Vec<char>>, source_url: &str) -> (r: String)
    ensures
        r@ == spec_build_changelog_index(dir@, years.deep_view(), source_url@),
{
    let tags = vec!["changelog"];
    proof {
        assert(strs_view(tags@) =~= seq!["changelog"@]);
    }
    let fm = frontmatter("Changelog", source_url, tags.as_slice());
    let mut out = chars_of(fm.as_str());
    push_str(&mut out, "# Changelog\n\n");
    let ghost head = out@;
    let ghost yv = years.deep_view();
    let mut k: usize = years.len();
    proof {
        assert(yv.take(years.len() as int) =~= yv);
    }
    while k > 0
        invariant
            k <= years.len(),
            yv == years.deep_view(),
            out@ + year_links(dir@, yv.take(k as int)) == head + year_links(dir@, yv),
        decreases k,
    {
        proof {
            assert(yv.take(k as int).drop_last() =~= yv.take(k - 1));
            assert(yv.take(k as int).last() == years@[k - 1]@);
        }
        let ghost before = out@;
        push_str(&mut out, "- [[");
        push_str(&mut out, dir);
        push_str(&mut out, "/");
        push_chars(&mut out, &years[k - 1]);
        push_str(&mut out, "/index|");
        push_chars(&mut out, &years[k - 1]);
        push_str(&mut out, "]]\n");
        proof {
            assert(out@ + year_links(dir@, yv.take(k - 1)) =~= before + year_links(dir@, yv.take(k as int)));
        }
        k = k - 1;
    }
    proof {
        assert(year_links(dir@, yv.take(0)) =~= Seq::<char>::empty());
        assert(out@ + Seq::<char>::empty() =~= out@);
    }
    to_string(&out)
}

/// The anchor index after registering the headings `hs` of one page (a heading with an empty
/// id is skipped): its lowercase id maps to `source/<its output doc path>` and its text.
pub open spec fn register_page(m: Map<Seq<char>, Seq<char>>, source: Seq<char>, mode: SplitView, out: Seq<char>, hs_all: Seq<(u8, Seq<char>, Seq<char>)>, hs: Seq<(u8, Seq<char>, Seq<char>)>) -> Map<Seq<char>, Seq<char>>
    decreases hs.len(),
{
    if hs.len() == 0 {
        m
    } else {
        let m2 = register_page(m, source, mode, out, hs_all, hs.drop_last());
        let id = hs.last().1;
        if id.len() == 0 {
            m2
        } else {
            m2.insert(spec_lowercase(id), spec_target(source + "/"@ + spec_anchor_path(mode, out, hs_all, id), hs.last().2))
        }
    }
}

/// The anchor index after registering the release entries `es` of a changelog page split
/// under `dir`: an entry whose date heading has an anchor points at its release file
/// (`source/dir/<year>/<slug>`), at the heading that file opens with (its version).
pub open spec fn register_entries(m: Map<Seq<char>, Seq<char>>, source: Seq<char>, dir: Seq<char>, es: Seq<EntryView>) -> Map<Seq<char>, Seq<char>>
    decreases es.len(),
{
    if es.len() == 0 {
        m
    } else {
        let m2 = register_entries(m, source, dir, es.drop_last());
        let e = es.last();
        if e.id.len() == 0 {
            m2
        } else {
            m2.insert(spec_lowercase(e.id), spec_target(source + "/"@ + dir + "/"@ + e.year + "/"@ + e.slug, e.version))
        }
    }
}

/// The anchor index built from the headings of the first `k` pages; on the changelog page the
/// anchors of the release headings then point at the release files.
pub open spec fn site_index(pages: Seq<PageDef>, docs: Seq<HtmlNode>, source: Seq<char>, k: nat) -> Map<Seq<char>, Seq<char>>
    decreases k,
{
    if k == 0 {
        Map::empty()
    } else {
        let hs = headings_in(docs[k - 1].children@);
        let m = register_page(site_index(pages, docs, source, (k - 1) as nat), source, pages[k - 1].split_by@, pages[k - 1].out@, hs, hs);
        match pages[k - 1].split_by@ {
            SplitView::Changelog(dir) => register_entries(m, source, dir, spec_split_changelog(docs[k - 1], Map::empty(), dir)),
            _ => m,
        }
    }
}

/// Builds the anchor index across all pages of the source `source` (its output name): the
/// anchor of a heading points at `source/<doc path>#<heading text>`.
pub fn build_site_index(pages: &Vec<PageDef>, docs: &Vec<HtmlNode>, source: &str) -> (r: AnchorIndex)
    requires
        pages.len() == docs.len(),
    ensures
        r@ == site_index(pages@, docs@, source@, pages.len() as nat),
{
    let mut index = AnchorIndex::new();
    let mut k: usize = 0;
    while k < pages.len()
        invariant
            k <= pages.len() == docs.len(),
            index@ == site_index(pages@, docs@, source@, k as nat),
        decreases pages.len() - k,
    {
        let headings = headings_of(&docs[k]);
        let ghost hs = headings.deep_view();
        let ghost m0 = index@;
        let mut j: usize = 0;
        while j < headings.len()
            invariant
                j <= headings.len(),
                k < pages.len() == docs.len(),
                hs == headings.deep_view(),
                hs == headings_in(docs@[k as int].children@),
                index@ == register_page(m0, source@, pages@[k as int].split_by@, pages@[k as int].out@, hs, hs.take(j as int)),
            decreases headings.len() - j,
        {
            let (_, id, text) = &headings[j];
            proof {
                assert(hs.take(j + 1).drop_last() =~= hs.take(j as int));
                assert(hs.take(j + 1).last() == hs[j as int]);
                assert(hs[j as int] == (headings@[j as int].0, id@, text@));
            }
            if !id.as_str().is_empty() {
                let doc_path = resolve_anchor_path(&pages[k], id.as_str(), &headings);
                let mut target = chars_of(source);
                push_str(&mut target, "/");
                push_str(&mut target, doc_path.as_str());
                index.register(id.as_str(), to_string(&target).as_str(), text.as_str());
            } else {
                proof {
                    assert(id@.len() == 0);
                }
            }
            j = j + 1;
        }
        proof {
            assert(hs.take(headings.len() as int) =~= hs);
        }
        match &pages[k].split_by {
            SplitMode::Changelog { dir } => {
                let es = split_doc_changelog(&docs[k], &AnchorIndex::new(), dir);
                let ghost ev = entries_view(es@);
                let ghost m1 = index@;
                let mut j: usize = 0;
                proof {
                    assert(ev.take(0) =~= Seq::<EntryView>::empty());
                }
                while j < es.len()
                    invariant
                        j <= es.len(),
                        ev == entries_view(es@),
                        index@ == register_entries(m1, source@, dir@, ev.take(j as int)),
                    decreases es.len() - j,
                {
                    let e = &es[j];
                    proof {
                        assert(ev.take(j + 1).drop_last() =~= ev.take(j as int));
                        assert(ev.take(j + 1).last() == e@);
                    }
                    if e.id.as_str().is_empty() == false {
                        let mut target = chars_of(source);
                        push_str(&mut target, "/");
                        push_str(&mut target, dir);
                        push_str(&mut target, "/");
                        push_str(&mut target, e.year.as_str());
                        push_str(&mut target, "/");
                        push_str(&mut target, e.slug.as_str());
                        index.register(e.id.as_str(), to_string(&target).as_str(), e.version.as_str());
                    }
                    j = j + 1;
                }
                proof {
                    assert(ev.take(es.len() as int) =~= ev);
                }
            },
            _ => {},
        }
        k = k + 1;
    }
    index
}

/// The views of the tags of a page.
pub open spec fn tags_view(p: PageDef) -> Seq<Seq<char>> {
    p.tags@.map_values(|t: &str| t@)
}

/// The (year, position) pairs of changelog entries, in order.
pub open spec fn entry_years(es: Seq<EntryView>) -> Seq<(Seq<char>, usize)> {
    Seq::new(es.len(), |i: int| (es[i].year, i as usize))
}

/// The file of a changelog entry: `out_dir/dir/year/slug.md` with its frontmatter (source
/// anchored at the entry's slug, lowercased, `.` made `-`, `botapi-` dropped) and body.
pub open spec fn entry_file(e: EntryView, dir: Seq<char>, url: Seq<char>, out_dir: Seq<char>) -> (Seq<char>, Seq<char>) {
    let anchor = replace_str(replace_char(spec_lowercase(e.slug), '.', "-"@), "botapi-"@, Seq::empty());
    (
        out_dir + "/"@ + dir + "/"@ + e.year + "/"@ + e.slug + ".md"@,
        spec_changelog_frontmatter(e.version, e.date, url + "#"@ + anchor) + e.content,
    )
}

/// The files that one page gives, in the order they are written: (path, content).
pub open spec fn page_files(p: PageDef, doc: HtmlNode, m: Map<Seq<char>, Seq<char>>, source: Seq<char>, out_dir: Seq<char>) -> Seq<(Seq<char>, Seq<char>)> {
    let url = BASE@ + p.url@;
    let tags = tags_view(p);
    match p.split_by@ {
        SplitView::Single => seq![(
            out_dir + "/"@ + p.out@,
            spec_page_md(doc, m, trim_end_matches(p.out@, ".md"@), source + "/"@ + trim_end_matches(p.out@, ".md"@), url, tags),
        )],
        SplitView::ByH3(dir) => {
            let secs = spec_split_by_h3(doc, m, source + "/"@ + dir);
            secs.map_values(|x: (Seq<char>, Seq<char>, Seq<char>)| (
                out_dir + "/"@ + dir + "/"@ + x.0 + ".md"@,
                spec_frontmatter(x.1, url, tags) + x.2,
            )) + seq![(out_dir + "/"@ + dir + "/index.md"@, spec_build_index(dir, secs, url, tags))]
        },
        SplitView::Changelog(dir) => {
            let es = spec_split_changelog(doc, m, source + "/"@ + dir);
            let groups = spec_group_all(entry_years(es));
            es.map_values(|e: EntryView| entry_file(e, dir, url, out_dir))
                + groups.map_values(|g: (Seq<char>, Seq<usize>)| (
                    out_dir + "/"@ + dir + "/"@ + g.0 + "/index.md"@,
                    spec_build_year_index(dir, g.0, es, g.1, url),
                ))
                + seq![(out_dir + "/"@ + dir + "/index.md"@, spec_build_changelog_index(dir, groups.map_values(|g: (Seq<char>, Seq<usize>)| g.0), url))]
        },
    }
}

/// The files of the first `k` pages.
pub open spec fn site_files(pages: Seq<PageDef>, docs: Seq<HtmlNode>, m: Map<Seq<char>, Seq<char>>, source: Seq<char>, out_dir: Seq<char>, k: nat) -> Seq<(Seq<char>, Seq<char>)>
    decreases k,
{
    if k == 0 {
        Seq::empty()
    } else {
        site_files(pages, docs, m, source, out_dir, (k - 1) as nat) + page_files(pages[k - 1], docs[k - 1], m, source, out_dir)
    }
}

/// The page a link is seen from: the source's output name, `/`, the page's path.
fn link_base_of(source: &str, path: &str) -> (r: String)
    ensures
        r@ == source@ + "/"@ + path@,
{
    let mut v = chars_of(source);
    push_str(&mut v, "/");
    push_str(&mut v, path);
    to_string(&v)
}

/// Appends a (path, content) pair to a list of files.
pub(crate) fn push_file(files: &mut Vec<(String, String)>, path: Vec<char>, content: String)
    ensures
        final(files).deep_view() == old(files).deep_view().push((path@, content@)),
{
    push_deep(files, (to_string(&path), content));
}

/// Appends the files of one page.
fn page_files_into(p: &PageDef, doc: &HtmlNode, index: &AnchorIndex, source: &str, out_dir: &str, files: &mut Vec<(String, String)>)
    ensures
        final(files).deep_view() == old(files).deep_view() + page_files(*p, *doc, index@, source@, out_dir@),
{
    let mut url: Vec<char> = Vec::new();
    push_str(&mut url, BASE);
    push_str(&mut url, p.url);
    let url_s = to_string(&url);
    let ghost start = files.deep_view();
    proof {
        assert(tags_view(*p) == strs_view(p.tags@));
    }
    match &p.split_by {
        SplitMode::Single => {
            let mut path: Vec<char> = Vec::new();
            push_str(&mut path, out_dir);
            push_str(&mut path, "/");
            push_str(&mut path, p.out);
            let base = to_string(&trim_end_matches_str(&chars_of(p.out), ".md"));
            let lb = link_base_of(source, base.as_str());
            let md_text = page_doc_md(doc, index, base.as_str(), lb.as_str(), url_s.as_str(), p.tags.as_slice());
            push_file(files, path, md_text);
            proof {
                assert(files.deep_view() =~= start + page_files(*p, *doc, index@, source@, out_dir@));
            }
        },
        SplitMode::ByH3 { dir } => {
            let ld = link_base_of(source, dir);
            let sections = split_doc_by_h3(doc, index, ld.as_str());
            let ghost secs = sections.deep_view();
            let mut i: usize = 0;
            while i < sections.len()
                invariant
                    i <= sections.len(),
                    secs == sections.deep_view(),
                    secs == spec_split_by_h3(*doc, index@, source@ + "/"@ + dir@),
                    tags_view(*p) == strs_view(p.tags@),
                    url_s@ == BASE@ + p.url@,
                    files.deep_view() == start + secs.take(i as int).map_values(|x: (Seq<char>, Seq<char>, Seq<char>)| (
                        out_dir@ + "/"@ + dir@ + "/"@ + x.0 + ".md"@,
                        spec_frontmatter(x.1, BASE@ + p.url@, tags_view(*p)) + x.2,
                    )),
                decreases sections.len() - i,
            {
                let (slug, title, content) = &sections[i];
                let mut path: Vec<char> = Vec::new();
                push_str(&mut path, out_dir);
                push_str(&mut path, "/");
                push_str(&mut path, dir);
                push_str(&mut path, "/");
                push_str(&mut path, slug.as_str());
                push_str(&mut path, ".md");
                let fm = frontmatter(title.as_str(), url_s.as_str(), p.tags.as_slice());
                let mut body = chars_of(fm.as_str());
                push_str(&mut body, content.as_str());
                let ghost before = files.deep_view();
                push_file(files, path, to_string(&body));
                proof {
                    assert(secs[i as int] == (slug@, title@, content@));
                    let f = |x: (Seq<char>, Seq<char>, Seq<char>)| (
                        out_dir@ + "/"@ + dir@ + "/"@ + x.0 + ".md"@,
                        spec_frontmatter(x.1, BASE@ + p.url@, tags_view(*p)) + x.2,
                    );
                    assert(secs.take(i + 1).map_values(f) =~= secs.take(i as int).map_values(f).push(f(secs[i as int])));
                }
                i = i + 1;
            }
            proof {
                assert(secs.take(sections.len() as int) =~= secs);
            }
            let mut path: Vec<char> = Vec::new();
            push_str(&mut path, out_dir);
            push_str(&mut path, "/");
            push_str(&mut path, dir);
            push_str(&mut path, "/index.md");
            let idx = build_index(dir, &sections, url_s.as_str(), p.tags.as_slice());
            push_file(files, path, idx);
            proof {
                assert(files.deep_view() =~= start + page_files(*p, *doc, index@, source@, out_dir@));
            }
        },
        SplitMode::Changelog { dir } => {
            let ld = link_base_of(source, dir);
            let entries = split_doc_changelog(doc, index, ld.as_str());
            let ghost es = entries_view(entries@);
            let mut groups: SortedGroups<usize> = SortedGroups::new();
            let mut i: usize = 0;
            while i < entries.len()
                invariant
                    i <= entries.len(),
                    es == entries_view(entries@),
                    es == spec_split_changelog(*doc, index@, source@ + "/"@ + dir@),
                    tags_view(*p) == strs_view(p.tags@),
                    url_s@ == BASE@ + p.url@,
                    groups@ == spec_group_all(entry_years(es).take(i as int)),
                    files.deep_view() == start + es.take(i as int).map_values(|e: EntryView| entry_file(e, dir@, BASE@ + p.url@, out_dir@)),
                decreases entries.len() - i,
            {
                let e = &entries[i];
                let mut path: Vec<char> = Vec::new();
                push_str(&mut path, out_dir);
                push_str(&mut path, "/");
                push_str(&mut path, dir);
                push_str(&mut path, "/");
                push_str(&mut path, e.year.as_str());
                push_str(&mut path, "/");
                push_str(&mut path, e.slug.as_str());
                push_str(&mut path, ".md");
                let low = lowercase(e.slug.as_str());
                proof {
                    reveal_strlit("botapi-");
                }
                let anchor = replace_str_in(&replace_char_in(&chars_of(low.as_str()), '.', "-"), "botapi-", "");
                let mut src: Vec<char> = Vec::new();
                push_str(&mut src, url_s.as_str());
                push_str(&mut src, "#");
                push_chars(&mut src, &anchor);
                let fm = changelog_frontmatter(e.version.as_str(), e.date.as_str(), to_string(&src).as_str());
                let mut body = chars_of(fm.as_str());
                push_str(&mut body, e.content.as_str());
                let ghost before = files.deep_view();
                push_file(files, path, to_string(&body));
                proof {
                    assert(es[i as int] == e@);
                    reveal_strlit("");
                    assert(""@ =~= Seq::<char>::empty());
                    let f = |x: EntryView| entry_file(x, dir@, BASE@ + p.url@, out_dir@);
                    assert(es.take(i + 1).map_values(f) =~= es.take(i as int).map_values(f).push(f(es[i as int])));
                }
                let year = chars_of(e.year.as_str());
                groups.insert(year, i);
                proof {
                    let ey = entry_years(es);
                    assert(ey.take(i + 1).drop_last() =~= ey.take(i as int));
                    assert(ey.take(i + 1).last() == (es[i as int].year, i));
                }
                i = i + 1;
            }
            proof {
                assert(es.take(entries.len() as int) =~= es);
                assert(entry_years(es).take(entries.len() as int) =~= entry_years(es));
            }
            let ghost gv = groups@;
            let ghost mid = files.deep_view();
            let mut keys: Vec<Vec<char>> = Vec::new();
            let mut g: usize = 0;
            while g < groups.len()
                invariant
                    g <= groups@.len(),
                    gv == groups@,
                    es == entries_view(entries@),
                    gv == spec_group_all(entry_years(es)),
                    url_s@ == BASE@ + p.url@,
                    keys.deep_view() =~= gv.take(g as int).map_values(|x: (Seq<char>, Seq<usize>)| x.0),
                    files.deep_view() == mid + gv.take(g as int).map_values(|x: (Seq<char>, Seq<usize>)| (
                        out_dir@ + "/"@ + dir@ + "/"@ + x.0 + "/index.md"@,
                        spec_build_year_index(dir@, x.0, es, x.1, BASE@ + p.url@),
                    )),
                decreases groups@.len() - g,
            {
                let key = groups.key(g);
                let idxs = groups.values(g);
                proof {
                    assert(idxs@.map_values(|x: usize| x@) =~= idxs@);
                    assert(idxs@ == gv[g as int].1);
                    assert(key@ == gv[g as int].0);
                }
                let mut path: Vec<char> = Vec::new();
                push_str(&mut path, out_dir);
                push_str(&mut path, "/");
                push_str(&mut path, dir);
                push_str(&mut path, "/");
                push_chars(&mut path, key);
                push_str(&mut path, "/index.md");
                let idx = build_year_index(dir, key, &entries, idxs, url_s.as_str());
                push_file(files, path, idx);
                push_piece(&mut keys, slice(key, 0, key.len()));
                proof {
                    assert(key@.subrange(0, key@.len() as int) =~= key@);
                    let f = |x: (Seq<char>, Seq<usize>)| (
                        out_dir@ + "/"@ + dir@ + "/"@ + x.0 + "/index.md"@,
                        spec_build_year_index(dir@, x.0, es, x.1, BASE@ + p.url@),
                    );
                    assert(gv.take(g + 1).map_values(f) =~= gv.take(g as int).map_values(f).push(f(gv[g as int])));
                    let h = |x: (Seq<char>, Seq<usize>)| x.0;
                    assert(gv.take(g + 1).map_values(h) =~= gv.take(g as int).map_values(h).push(h(gv[g as int])));
                }
                g = g + 1;
            }
            proof {
                assert(gv.take(groups@.len() as int) =~= gv);
            }
            let mut path: Vec<char> = Vec::new();
            push_str(&mut path, out_dir);
            push_str(&mut path, "/");
            push_str(&mut path, dir);
            push_str(&mut path, "/index.md");
            let idx = build_changelog_index(dir, &keys, url_s.as_str());
            push_file(files, path, idx);
            proof {
                assert(files.deep_view() =~= start + page_files(*p, *doc, index@, source@, out_dir@));
            }
        },
    }
}

/// The files of the whole site, in the order they are written: (path, content). The anchor
/// index is built from the headings of all pages first (targets under the source's output
/// name `source`), so that links resolve across pages.
pub fn plan_site_docs(pages: &Vec<PageDef>, docs: &Vec<HtmlNode>, source: &str, out_dir: &str) -> (r: Vec<(String, String)>)
    requires
        pages.len() == docs.len(),
    ensures
        r.deep_view() == site_files(pages@, docs@, site_index(pages@, docs@, source@, pages.len() as nat), source@, out_dir@, pages.len() as nat),
{
    let index = build_site_index(pages, docs, source);
    let mut files: Vec<(String, String)> = Vec::new();
    let mut k: usize = 0;
    proof {
        assert(files.deep_view() =~= Seq::<(Seq<char>, Seq<char>)>::empty());
    }
    while k < pages.len()
        invariant
            k <= pages.len() == docs.len(),
            files.deep_view() == site_files(pages@, docs@, index@, source@, out_dir@, k as nat),
        decreases pages.len() - k,
    {
        page_files_into(&pages[k], &docs[k], &index, source, out_dir, &mut files);
        k = k + 1;
    }
    files
}

/// The heading tree line of a heading: indented two spaces per level below h2,
/// `[hN] #id text`.
pub open spec fn heading_line(h: (u8, Seq<char>, Seq<char>)) -> Seq<char> {
    let indent: nat = if h.0 >= 2 { (h.0 - 2) as nat } else { 0 };
    Seq::new(2 * indent, |i: int| ' ') + "[h"@ + decimal(h.0 as nat) + "] #"@ + h.1 + " "@ + h.2
}

/// The lines printed for a dry run of the first `k` pages: a `=== url ===` header after a blank
/// line, then the heading tree of the page.
pub open spec fn dry_lines(pages: Seq<PageDef>, docs: Seq<HtmlNode>, k: nat) -> Seq<Seq<char>>
    decreases k,
{
    if k == 0 {
        Seq::empty()
    } else {
        dry_lines(pages, docs, (k - 1) as nat) + seq!["\n=== "@ + pages[k - 1].url@ + " ==="@]
            + headings_in(docs[k - 1].children@).map_values(|h: (u8, Seq<char>, Seq<char>)| heading_line(h))
    }
}

/// The heading trees of all pages, one printed line per entry, without writing files.
pub fn dry_listing_docs(pages: &Vec<PageDef>, docs: &Vec<HtmlNode>) -> (r: Vec<String>)
    requires
        pages.len() == docs.len(),
    ensures
        r.deep_view() == dry_lines(pages@, docs@, pages.len() as nat),
{
    let mut lines: Vec<String> = Vec::new();
    let mut k: usize = 0;
    proof {
        assert(lines.deep_view() =~= Seq::<Seq<char>>::empty());
    }
    while k < pages.len()
        invariant
            k <= pages.len() == docs.len(),
            lines.deep_view() == dry_lines(pages@, docs@, k as nat),
        decreases pages.len() - k,
    {
        let mut head: Vec<char> = Vec::new();
        push_str(&mut head, "\n=== ");
        push_str(&mut head, pages[k].url);
        push_str(&mut head, " ===");
        push_deep(&mut lines, to_string(&head));
        let ghost mid = lines.deep_view();
        let headings = headings_of(&docs[k]);
        let ghost hs = headings.deep_view();
        let mut j: usize = 0;
        while j < headings.len()
            invariant
                j <= headings.len(),
                hs == headings.deep_view(),
                lines.deep_view() == mid + hs.take(j as int).map_values(|h: (u8, Seq<char>, Seq<char>)| heading_line(h)),
            decreases headings.len() - j,
        {
            let (level, id, text) = &headings[j];
            let indent: usize = if *level >= 2 { (*level - 2) as usize } else { 0 };
            let mut line: Vec<char> = Vec::new();
            push_repeat(&mut line, ' ', 2 * indent);
            push_str(&mut line, "[h");
            push_decimal(&mut line, *level as usize);
            push_str(&mut line, "] #");
            push_str(&mut line, id.as_str());
            push_str(&mut line, " ");
            push_str(&mut line, text.as_str());
            push_deep(&mut lines, to_string(&line));
            proof {
                assert(hs[j as int] == (*level, id@, text@));
                assert(repeat_char(' ', (2 * indent) as nat) =~= Seq::new(2 * (indent as nat), |i: int| ' '));
                let f = |h: (u8, Seq<char>, Seq<char>)| heading_line(h);
                assert(hs.take(j + 1).map_values(f) =~= hs.take(j as int).map_values(f).push(f(hs[j as int])));
            }
            j = j + 1;
        }
        proof {
            assert(hs.take(headings.len() as int) =~= hs);
        }
        k = k + 1;
    }
    lines
}


/// The URL of each page under a base URL.
pub open spec fn spec_page_urls(pages: Seq<PageDef>, base_url: Seq<char>) -> Seq<Seq<char>> {
    pages.map_values(|p: PageDef| base_url + p.url@)
}

/// The URLs to fetch, one per page, in page order.
pub fn page_urls(pages: &Vec<PageDef>, base_url: &str) -> (r: Vec<String>)
    ensures
        r.deep_view() == spec_page_urls(pages@, base_url@),
{
    let mut r: Vec<String> = Vec::new();
    let mut i: usize = 0;
    while i < pages.len()
        invariant
            i <= pages@.len(),
            r.deep_view() =~= spec_page_urls(pages@, base_url@).take(i as int),
        decreases pages@.len() - i,
    {
        let mut u = chars_of(base_url);
        push_str(&mut u, pages[i].url);
        proof {
            assert(spec_page_urls(pages@, base_url@).take(i + 1) =~= spec_page_urls(pages@, base_url@).take(i as int).push(u@));
        }
        push_deep(&mut r, to_string(&u));
        i = i + 1;
    }
    proof {
        assert(spec_page_urls(pages@, base_url@).take(pages@.len() as int) =~= spec_page_urls(pages@, base_url@));
    }
    r
}


/// Converts a whole page's HTML to one Markdown document.
pub fn page_to_md(html: &str, index: &AnchorIndex, doc_base: &str, source_url: &str, tags: &[&str]) -> (r: String)
    ensures
        exists|d: HtmlNode| parses_to(html@, d) && r@ == spec_page_to_md(d, index@, doc_base@, source_url@, strs_view(tags@)),
{
    let d = parse_document(html);
    let r = page_doc_to_md(&d, index, doc_base, source_url, tags);
    proof {
        assert(parses_to(html@, d));
    }
    r
}

/// Splits a page's HTML by h3 sections: (slug, title, Markdown content).
pub fn split_by_h3(html: &str, index: &AnchorIndex, dir: &str) -> (r: Vec<(String, String, String)>)
    ensures
        exists|d: HtmlNode| parses_to(html@, d) && r.deep_view() == spec_split_by_h3(d, index@, dir@),
{
    let d = parse_document(html);
    let r = split_doc_by_h3(&d, index, dir);
    proof {
        assert(parses_to(html@, d));
    }
    r
}

/// Splits the changelog page's HTML into per-release entries.
pub fn split_changelog(html: &str, index: &AnchorIndex, dir: &str) -> (r: Vec<ChangelogEntry>)
    ensures
        exists|d: HtmlNode| parses_to(html@, d) && entries_view(r@) == spec_split_changelog(d, index@, dir@),
{
    let d = parse_document(html);
    let r = split_doc_changelog(&d, index, dir);
    proof {
        assert(parses_to(html@, d));
    }
    r
}

/// The files of the whole site from the fetched HTML of each page, in page order.
pub fn plan_site(pages: &Vec<PageDef>, htmls: &Vec<String>, source: &str, out_dir: &str) -> (r: Vec<(String, String)>)
    requires
        pages.len() == htmls.len(),
    ensures
        exists|docs: Seq<HtmlNode>| all_parse_to(htmls.deep_view(), docs)
            && r.deep_view() == site_files(pages@, docs, site_index(pages@, docs, source@, pages.len() as nat), source@, out_dir@, pages.len() as nat),
{
    let docs = parse_documents(htmls);
    let r = plan_site_docs(pages, &docs, source, out_dir);
    proof {
        assert(all_parse_to(htmls.deep_view(), docs@));
    }
    r
}

/// The heading trees of all pages from their fetched HTML, one printed line per entry.
pub fn dry_listing(pages: &Vec<PageDef>, htmls: &Vec<String>) -> (r: Vec<String>)
    requires
        pages.len() == htmls.len(),
    ensures
        exists|docs: Seq<HtmlNode>| all_parse_to(htmls.deep_view(), docs)
            && r.deep_view() == dry_lines(pages@, docs, pages.len() as nat),
{
    let docs = parse_documents(htmls);
    let r = dry_listing_docs(pages, &docs);
    proof {
        assert(all_parse_to(htmls.deep_view(), docs@));
    }
    r
}


proof fn lemma_slug_chars_kept(s: Seq<char>)
    requires
        !spec_is_alphanumeric(' '),
        forall|i: int| 0 <= i < s.len() ==> spec_is_alphanumeric(#[trigger] s[i]) || s[i] == '-',
    ensures
        replace_char(s, ' ', "-"@) == s,
        keep_slug(s) == s,
    decreases s.len(),
{
    if s.len() > 0 {
        let t = s.drop_last();
        assert forall|i: int| 0 <= i < t.len() implies spec_is_alphanumeric(#[trigger] t[i]) || t[i] == '-' by {
            assert(t[i] == s[i]);
        }
        lemma_slug_chars_kept(t);
        assert(s.last() == s[s.len() - 1]);
        assert(s.last() != ' ');
        assert(t + seq![s.last()] =~= s);
    }
}

/// Slugging a slug again gives it back, given that lower-casing leaves the slug as it is and
/// that a space is not alphanumeric (facts about std's Unicode tables that are not stated).
pub proof fn law_slug_idempotent(id: Seq<char>)
    requires
        spec_lowercase(spec_h3_slug(id)) == spec_h3_slug(id),
        !spec_is_alphanumeric(' '),
    ensures
        spec_h3_slug(spec_h3_slug(id)) == spec_h3_slug(id),
{
    let s = spec_h3_slug(id);
    lemma_keep_slug_chars(replace_char(spec_lowercase(id), ' ', "-"@));
    lemma_slug_chars_kept(s);
}

/// Whether a node of the changelog is a year heading: an `<h3>` whose trimmed text is four digits.
pub open spec fn is_year_heading(c: HtmlNode) -> bool {
    is_elem_named(c, "h3"@) && trim(text_of(c)).len() == 4 && all_digits(trim(text_of(c)))
}

/// Whether a node of the changelog is a dated heading: an `<h4>` whose trimmed text is not empty.
pub open spec fn is_dated_heading(c: HtmlNode) -> bool {
    is_elem_named(c, "h4"@) && trim(text_of(c)).len() > 0
}

/// The year in force after the nodes `s`: the text of the last year heading among them, or
/// "misc" when there is none.
pub open spec fn year_in_force(s: Seq<HtmlNode>) -> Seq<char>
    decreases s.len(),
{
    if s.len() == 0 {
        "misc"@
    } else if is_year_heading(s.last()) {
        trim(text_of(s.last()))
    } else {
        year_in_force(s.drop_last())
    }
}

/// The dated headings among the nodes, in order, each as the year in force where it stands
/// and its date in ISO form.
pub open spec fn dated_headings(s: Seq<HtmlNode>) -> Seq<(Seq<char>, Seq<char>)>
    decreases s.len(),
{
    if s.len() == 0 {
        Seq::empty()
    } else {
        dated_headings(s.drop_last()) + if is_dated_heading(s.last()) {
            seq![(year_in_force(s.drop_last()), spec_date_to_iso(trim(text_of(s.last()))))]
        } else {
            Seq::empty()
        }
    }
}

/// The year and the date of an entry.
pub open spec fn year_and_date(es: Seq<EntryView>) -> Seq<(Seq<char>, Seq<char>)> {
    es.map_values(|e: EntryView| (e.year, e.date))
}

proof fn lemma_flush_year_and_date(entries: Seq<EntryView>, year: Seq<char>, date_text: Seq<char>, version: Option<Seq<char>>, buf: Seq<Seq<char>>, id: Seq<char>)
    ensures
        year_and_date(flush_entry(entries, year, date_text, version, buf, id)) == year_and_date(entries) + if date_text.len() > 0 {
            seq![(year, spec_date_to_iso(date_text))]
        } else {
            Seq::<(Seq<char>, Seq<char>)>::empty()
        },
{
    if date_text.len() > 0 {
        let f = flush_entry(entries, year, date_text, version, buf, id);
        assert(f.drop_last() == entries);
        assert(year_and_date(f) =~= year_and_date(entries) + seq![(year, spec_date_to_iso(date_text))]);
    } else {
        assert(year_and_date(entries) + Seq::<(Seq<char>, Seq<char>)>::empty() =~= year_and_date(entries));
    }
}

/// The state after the children `s` of the content root: its year is the year in force, and
/// the entries it would give, as (year, date) pairs, are the dated headings.
proof fn lemma_cl_fold_years(s: Seq<HtmlNode>, m: Map<Seq<char>, Seq<char>>, dir: Seq<char>)
    ensures
        cl_fold(s, m, dir).year == year_in_force(s),
        year_and_date(flush_entry(cl_fold(s, m, dir).entries, cl_fold(s, m, dir).year, cl_fold(s, m, dir).date_text,
            cl_fold(s, m, dir).version, cl_fold(s, m, dir).buf, cl_fold(s, m, dir).id)) == dated_headings(s),
    decreases s.len(),
{
    reveal_strlit("h3");
    reveal_strlit("h4");
    assert("h3"@[1] == '3' && "h4"@[1] == '4');
    if s.len() == 0 {
        let st = cl_fold(s, m, dir);
        lemma_flush_year_and_date(st.entries, st.year, st.date_text, st.version, st.buf, st.id);
        assert(year_and_date(st.entries) =~= Seq::<(Seq<char>, Seq<char>)>::empty());
    } else {
        let d = s.drop_last();
        let c = s.last();
        lemma_cl_fold_years(d, m, dir);
        let st = cl_fold(d, m, dir);
        let nst = cl_fold(s, m, dir);
        assert(nst == cl_step(st, c, m, dir));
        lemma_flush_year_and_date(st.entries, st.year, st.date_text, st.version, st.buf, st.id);
        lemma_flush_year_and_date(nst.entries, nst.year, nst.date_text, nst.version, nst.buf, nst.id);
        let e = Seq::<(Seq<char>, Seq<char>)>::empty();
        if is_year_heading(c) {
            assert(!is_dated_heading(c));
            assert(nst.date_text.len() == 0);
            assert(dated_headings(s) =~= dated_headings(d) + e);
            assert(year_and_date(nst.entries) + e =~= year_and_date(nst.entries));
        } else if is_elem_named(c, "h4"@) {
            assert(!is_year_heading(c));
            assert(nst.entries == flush_entry(st.entries, st.year, st.date_text, st.version, st.buf, st.id));
            assert(nst.date_text == trim(text_of(c)));
            assert(nst.year == st.year);
        } else {
            assert(!is_dated_heading(c));
            assert(dated_headings(s) =~= dated_headings(d) + e);
            assert(nst.entries == st.entries && nst.year == st.year && nst.date_text == st.date_text);
        }
    }
}

/// Each changelog entry is filed under the year of the last year heading (an `<h3>` of four
/// digits) that comes before its date heading, or "misc" before any: a year heading closes the
/// entry open before it. The entries, as (year, ISO date) pairs, are the dated `<h4>`
/// headings of the content root in order, each with the year in force where it stands.
pub proof fn law_changelog_entry_years(doc: HtmlNode, m: Map<Seq<char>, Seq<char>>, dir: Seq<char>)
    requires
        first_content_in(doc.children@) is Some,
    ensures
        year_and_date(spec_split_changelog(doc, m, dir)) == dated_headings(first_content_in(doc.children@)->0.children@),
{
    lemma_cl_fold_years(first_content_in(doc.children@)->0.children@, m, dir);
}

} // verus!
