//! HTML to Markdown conversion over the document tree.
use vstd::prelude::*;
use crate::anchor_index::{spec_resolve, AnchorIndex};
use crate::html::{all_parse_to, parse_document, parse_documents, parses_to, HtmlNode, KindView, NodeKind};
use crate::text::{
    chars_of, contains_str, eq_chars, eq_str, push_chars, push_str, slice, starts_with_str,
    trim_start_matches_str, blank, is_whitespace, push_piece, trim_end_chars, trim_chars,
    after_last_char, after_last_char_in, join_in, lines_in, push_decimal, push_repeat, replace_char_in,
    to_string, trim_end_matches_str, push_deep, decimal, has_prefix, has_sub, is_blank, is_ws, join, lines, repeat_char,
    replace_char, trim, trim_end, trim_end_matches, trim_start_matches,
};

verus! {

/// The local name of an element, or the empty text for other nodes.
pub open spec fn kind_name(k: KindView) -> Seq<char> {
    match k {
        KindView::Element(name, _) => name,
        _ => Seq::empty(),
    }
}

/// Whether the node is an element with the given name.
pub open spec fn is_elem_named(n: HtmlNode, name: Seq<char>) -> bool {
    n.kind@ is Element && kind_name(n.kind@) == name
}

/// An attribute of an element as the parse gives it: (prefix, namespace, local name, value).
pub type AttrView = (Option<Seq<char>>, Seq<char>, Seq<char>, Seq<char>);

/// Whether an attribute has the local name `key`, and, unless `any_ns`, no prefix and no
/// namespace (an attribute written plainly in HTML, such as `href`; not `xlink:href`).
pub open spec fn attr_named(a: AttrView, key: Seq<char>, any_ns: bool) -> bool {
    a.2 == key && (any_ns || (a.0 is None && a.1.len() == 0))
}

/// The value of the first attribute that `attr_named` accepts.
pub open spec fn attr_find(attrs: Seq<AttrView>, key: Seq<char>, any_ns: bool) -> Option<Seq<char>>
    decreases attrs.len(),
{
    if attrs.len() == 0 {
        None
    } else if attr_named(attrs[0], key, any_ns) {
        Some(attrs[0].3)
    } else {
        attr_find(attrs.drop_first(), key, any_ns)
    }
}

/// The value of the attribute `key` in no namespace (`Element::attr`, which looks up the
/// name with no prefix and the empty namespace; CSS `[key]` selects the same attributes).
pub open spec fn attr_in(attrs: Seq<AttrView>, key: Seq<char>) -> Option<Seq<char>> {
    attr_find(attrs, key, false)
}

/// An attribute of an element (`Element::attr`).
pub open spec fn node_attr(n: HtmlNode, key: Seq<char>) -> Option<Seq<char>> {
    match n.kind@ {
        KindView::Element(_, attrs) => attr_in(attrs, key),
        _ => None,
    }
}

/// The value of the first attribute with the local name `key` in any namespace, as
/// `Element::id` finds the id that CSS `#id` selectors compare.
pub open spec fn node_local_attr(n: HtmlNode, key: Seq<char>) -> Option<Seq<char>> {
    match n.kind@ {
        KindView::Element(_, attrs) => attr_find(attrs, key, true),
        _ => None,
    }
}

/// An attribute of an element, or the empty text (`attr(key).unwrap_or("")`).
pub open spec fn attr_or_empty(n: HtmlNode, key: Seq<char>) -> Seq<char> {
    match node_attr(n, key) {
        Some(v) => v,
        None => Seq::empty(),
    }
}

/// The text of the text nodes below a list of siblings, in document order (`ElementRef::text`).
pub open spec fn text_list(s: Seq<HtmlNode>) -> Seq<char>
    decreases s,
{
    if s.len() == 0 {
        Seq::empty()
    } else {
        text_list(s.drop_last()) + match s.last().kind@ {
            KindView::Text(t) => t,
            _ => text_list(s.last().children@),
        }
    }
}

/// The text of the text nodes below an element.
pub open spec fn text_of(n: HtmlNode) -> Seq<char> {
    text_list(n.children@)
}

/// Whether a node matches a simple selector: an element name, and an attribute that must be present.
pub open spec fn sel_matches(n: HtmlNode, tag: Seq<char>, attr: Option<Seq<char>>) -> bool {
    is_elem_named(n, tag) && match attr {
        Some(a) => node_attr(n, a) is Some,
        None => true,
    }
}

/// The first node among a list of siblings and their descendants, in document order, that
/// matches the selector.
pub open spec fn first_in(s: Seq<HtmlNode>, tag: Seq<char>, attr: Option<Seq<char>>) -> Option<HtmlNode>
    decreases s,
{
    if s.len() == 0 {
        None
    } else {
        match first_in(s.drop_last(), tag, attr) {
            Some(x) => Some(x),
            None => if sel_matches(s.last(), tag, attr) {
                Some(s.last())
            } else {
                first_in(s.last().children@, tag, attr)
            },
        }
    }
}

/// The first descendant of a node that matches the selector (`ElementRef::select(..).next()`).
pub open spec fn first_desc(n: HtmlNode, tag: Seq<char>, attr: Option<Seq<char>>) -> Option<HtmlNode> {
    first_in(n.children@, tag, attr)
}

/// The text of a heading, skipping anchor icons (`<i class="anchor">`) and links whose text is blank.
pub open spec fn heading_list(s: Seq<HtmlNode>) -> Seq<char>
    decreases s,
{
    if s.len() == 0 {
        Seq::empty()
    } else {
        heading_list(s.drop_last()) + match s.last().kind@ {
            KindView::Text(t) => t,
            KindView::Element(name, attrs) => {
                let class = match attr_in(attrs, "class"@) {
                    Some(c) => c,
                    None => Seq::empty(),
                };
                if name == "i"@ && has_sub(class, "anchor"@) {
                    Seq::empty()
                } else {
                    let inner = heading_list(s.last().children@);
                    if is_blank(inner) {
                        Seq::empty()
                    } else {
                        inner
                    }
                }
            },
            KindView::Other => Seq::empty(),
        }
    }
}

pub open spec fn heading_text(n: HtmlNode) -> Seq<char> {
    heading_list(n.children@)
}

/// The level of a heading tag `h1` .. `h5`.
pub open spec fn heading_level(tag: Seq<char>) -> Option<u8> {
    if tag == "h1"@ {
        Some(1u8)
    } else if tag == "h2"@ {
        Some(2u8)
    } else if tag == "h3"@ {
        Some(3u8)
    } else if tag == "h4"@ {
        Some(4u8)
    } else if tag == "h5"@ {
        Some(5u8)
    } else {
        None
    }
}

/// The pieces of `s` between runs of whitespace, with no empty piece (`str::split_whitespace`).
pub open spec fn split_ws(s: Seq<char>) -> Seq<Seq<char>>
    decreases s.len(),
{
    if s.len() == 0 {
        Seq::empty()
    } else {
        let p = split_ws(s.drop_last());
        let c = s.last();
        if is_ws(c) {
            p
        } else if s.len() >= 2 && !is_ws(s[s.len() - 2]) {
            p.update(p.len() - 1, p.last().push(c))
        } else {
            p.push(seq![c])
        }
    }
}

/// The first piece that starts with `p`.
pub open spec fn first_prefixed(ps: Seq<Seq<char>>, p: Seq<char>) -> Option<Seq<char>>
    decreases ps.len(),
{
    if ps.len() == 0 {
        None
    } else if has_prefix(ps[0], p) {
        Some(ps[0])
    } else {
        first_prefixed(ps.drop_first(), p)
    }
}

/// The Markdown of a `<pre>` block: a fenced code block with the language of its `<code>`.
pub open spec fn pre_md(n: HtmlNode) -> Seq<char> {
    let code = first_desc(n, "code"@, None);
    let code_text = match code {
        Some(c) => text_of(c),
        None => text_of(n),
    };
    let lang = match code {
        Some(c) => match node_attr(c, "class"@) {
            Some(cls) => match first_prefixed(split_ws(cls), "language-"@) {
                Some(w) => trim_start_matches(w, "language-"@),
                None => Seq::empty(),
            },
            None => Seq::empty(),
        },
        None => Seq::empty(),
    };
    "```"@ + lang + "\n"@ + trim_end(code_text) + "\n```\n\n"@
}

/// The lines of one list item: the first after `first`, the others that are not blank after `rest`.
pub open spec fn item_lines(ls: Seq<Seq<char>>, first: Seq<char>, rest: Seq<char>) -> Seq<char>
    decreases ls.len(),
{
    if ls.len() == 0 {
        Seq::empty()
    } else {
        item_lines(ls.drop_last(), first, rest) + if ls.len() == 1 {
            first + ls.last() + "\n"@
        } else if !is_blank(ls.last()) {
            rest + ls.last() + "\n"@
        } else {
            Seq::empty()
        }
    }
}

/// How many of the nodes are `<li>` elements.
pub open spec fn li_count(s: Seq<HtmlNode>) -> nat
    decreases s.len(),
{
    if s.len() == 0 {
        0
    } else {
        li_count(s.drop_last()) + if is_elem_named(s.last(), "li"@) { 1nat } else { 0nat }
    }
}

/// The Markdown of a link (`<a>`) given the Markdown of its content.
pub open spec fn link_md(href: Seq<char>, text: Seq<char>, m: Map<Seq<char>, Seq<char>>, base: Seq<char>) -> Seq<char> {
    let internal = has_sub(href, "core.telegram.org"@) || has_prefix(href, "/"@) || has_prefix(href, "#"@);
    if internal && spec_resolve(m, href, base) is Some {
        let wiki = spec_resolve(m, href, base)->0;
        let label = after_last_char(trim_end_matches(trim_start_matches(wiki, "[["@), "]]"@), '#');
        if trim(text) == label {
            wiki
        } else {
            "["@ + text + "]("@ + wiki + ")"@
        }
    } else if href.len() == 0 || href == text {
        text
    } else {
        "["@ + text + "]("@ + href + ")"@
    }
}

/// One table row as Markdown: `| a | b |` with `cols` cells, missing cells empty.
pub open spec fn row_md(row: Seq<Seq<char>>, cols: nat) -> Seq<char> {
    "| "@ + join(Seq::new(cols, |i: int| if i < row.len() { row[i] } else { Seq::empty() }), " | "@) + " |\n"@
}

/// The largest number of cells of a row.
pub open spec fn max_cols(rows: Seq<Seq<Seq<char>>>) -> nat
    decreases rows.len(),
{
    if rows.len() == 0 {
        0
    } else {
        let m = max_cols(rows.drop_last());
        if rows.last().len() > m { rows.last().len() } else { m }
    }
}

/// The data rows of a table, after its header row.
pub open spec fn body_rows_md(rows: Seq<Seq<Seq<char>>>, cols: nat) -> Seq<char>
    decreases rows.len(),
{
    if rows.len() <= 1 {
        Seq::empty()
    } else {
        body_rows_md(rows.drop_last(), cols) + row_md(rows.last(), cols)
    }
}

/// A table as Markdown: header row, separator row, data rows and a blank line.
pub open spec fn table_md(rows: Seq<Seq<Seq<char>>>) -> Seq<char> {
    let cols = max_cols(rows);
    if rows.len() == 0 || cols == 0 {
        Seq::empty()
    } else {
        row_md(rows[0], cols) + row_md(Seq::new(cols, |i: int| "---"@), cols) + body_rows_md(rows, cols) + "\n"@
    }
}

/// The Markdown of an element.
pub open spec fn md(n: HtmlNode, m: Map<Seq<char>, Seq<char>>, base: Seq<char>) -> Seq<char>
    decreases n,
{
    let tag = kind_name(n.kind@);
    let kids = n.children@;
    if heading_level(tag) is Some {
        repeat_char('#', heading_level(tag)->0 as nat) + " "@ + trim(heading_text(n)) + "\n\n"@
    } else if tag == "p"@ {
        let t = inline_list(kids, m, base);
        if is_blank(t) { Seq::empty() } else { trim_end(t) + "\n\n"@ }
    } else if tag == "br"@ {
        "\n"@
    } else if tag == "ul"@ {
        ul_list(kids, m, base) + "\n"@
    } else if tag == "ol"@ {
        ol_list(kids, m, base) + "\n"@
    } else if tag == "pre"@ {
        pre_md(n)
    } else if tag == "code"@ {
        "`"@ + text_of(n) + "`"@
    } else if tag == "blockquote"@ {
        join(lines(trim_end(block_list(kids, m, base))).map_values(|l: Seq<char>| "> "@ + l), "\n"@) + "\n\n"@
    } else if tag == "table"@ {
        table_md(rows_in(kids, m, base))
    } else if tag == "a"@ {
        if has_sub(attr_or_empty(n, "class"@), "anchor"@) {
            heading_text(n)
        } else {
            let t = inline_list(kids, m, base);
            if is_blank(t) { Seq::empty() } else { link_md(attr_or_empty(n, "href"@), t, m, base) }
        }
    } else if tag == "strong"@ || tag == "b"@ {
        let t = inline_list(kids, m, base);
        if is_blank(t) { Seq::empty() } else { "**"@ + t + "**"@ }
    } else if tag == "em"@ || tag == "i"@ {
        if has_sub(attr_or_empty(n, "class"@), "anchor"@) {
            Seq::empty()
        } else {
            let t = inline_list(kids, m, base);
            if is_blank(t) { Seq::empty() } else { "*"@ + t + "*"@ }
        }
    } else if tag == "img"@ {
        "!["@ + attr_or_empty(n, "alt"@) + "]("@ + attr_or_empty(n, "src"@) + ")"@
    } else if tag == "hr"@ {
        "\n---\n\n"@
    } else if tag == "span"@ {
        inline_list(kids, m, base)
    } else {
        block_list(kids, m, base)
    }
}

/// The Markdown of a list of sibling nodes inside inline content: text kept as it is.
pub open spec fn inline_list(s: Seq<HtmlNode>, m: Map<Seq<char>, Seq<char>>, base: Seq<char>) -> Seq<char>
    decreases s,
{
    if s.len() == 0 {
        Seq::empty()
    } else {
        inline_list(s.drop_last(), m, base) + match s.last().kind@ {
            KindView::Text(t) => t,
            KindView::Element(_, _) => md(s.last(), m, base),
            KindView::Other => Seq::empty(),
        }
    }
}

/// The Markdown of a list of sibling nodes inside block content: blank text dropped.
pub open spec fn block_list(s: Seq<HtmlNode>, m: Map<Seq<char>, Seq<char>>, base: Seq<char>) -> Seq<char>
    decreases s,
{
    if s.len() == 0 {
        Seq::empty()
    } else {
        block_list(s.drop_last(), m, base) + match s.last().kind@ {
            KindView::Text(t) => if is_blank(t) { Seq::empty() } else { t },
            KindView::Element(_, _) => md(s.last(), m, base),
            KindView::Other => Seq::empty(),
        }
    }
}

/// The items of an unordered list: each `<li>` child as `- ` lines.
pub open spec fn ul_list(s: Seq<HtmlNode>, m: Map<Seq<char>, Seq<char>>, base: Seq<char>) -> Seq<char>
    decreases s,
{
    if s.len() == 0 {
        Seq::empty()
    } else {
        ul_list(s.drop_last(), m, base) + if is_elem_named(s.last(), "li"@) {
            item_lines(lines(trim_end(block_list(s.last().children@, m, base))), "- "@, "  "@)
        } else {
            Seq::empty()
        }
    }
}

/// The items of an ordered list: the k-th `<li>` child as `k. ` lines.
pub open spec fn ol_list(s: Seq<HtmlNode>, m: Map<Seq<char>, Seq<char>>, base: Seq<char>) -> Seq<char>
    decreases s,
{
    if s.len() == 0 {
        Seq::empty()
    } else {
        ol_list(s.drop_last(), m, base) + if is_elem_named(s.last(), "li"@) {
            item_lines(
                lines(trim_end(block_list(s.last().children@, m, base))),
                decimal(li_count(s.drop_last()) + 1) + ". "@,
                "   "@,
            )
        } else {
            Seq::empty()
        }
    }
}

/// The cells with the given tag among a list of nodes and their descendants, in document order.
pub open spec fn cells_in(s: Seq<HtmlNode>, tag: Seq<char>, m: Map<Seq<char>, Seq<char>>, base: Seq<char>) -> Seq<Seq<char>>
    decreases s,
{
    if s.len() == 0 {
        Seq::empty()
    } else {
        cells_in(s.drop_last(), tag, m, base) + (if is_elem_named(s.last(), tag) {
            seq![trim(replace_char(replace_char(inline_list(s.last().children@, m, base), '\n', " "@), '|', "\\|"@))]
        } else {
            Seq::empty()
        }) + cells_in(s.last().children@, tag, m, base)
    }
}

/// The rows (`<tr>`) among a list of nodes and their descendants, in document order: each row
/// its `<th>` cells, then its `<td>` cells.
pub open spec fn rows_in(s: Seq<HtmlNode>, m: Map<Seq<char>, Seq<char>>, base: Seq<char>) -> Seq<Seq<Seq<char>>>
    decreases s,
{
    if s.len() == 0 {
        Seq::empty()
    } else {
        rows_in(s.drop_last(), m, base) + (if is_elem_named(s.last(), "tr"@) {
            seq![cells_in(s.last().children@, "th"@, m, base) + cells_in(s.last().children@, "td"@, m, base)]
        } else {
            Seq::empty()
        }) + rows_in(s.last().children@, m, base)
    }
}


proof fn lemma_attr_find_skip(attrs: Seq<AttrView>, key: Seq<char>, any_ns: bool, i: int)
    requires
        0 <= i <= attrs.len(),
        forall|j: int| 0 <= j < i ==> !attr_named(#[trigger] attrs[j], key, any_ns),
    ensures
        attr_find(attrs, key, any_ns) == attr_find(attrs.skip(i), key, any_ns),
    decreases i,
{
    if i > 0 {
        let t = attrs.drop_first();
        assert forall|j: int| 0 <= j < i - 1 implies !attr_named(#[trigger] t[j], key, any_ns) by {
            assert(t[j] == attrs[j + 1]);
        }
        lemma_attr_find_skip(t, key, any_ns, i - 1);
        assert(t.skip(i - 1) =~= attrs.skip(i));
    } else {
        assert(attrs.skip(0) =~= attrs);
    }
}

fn attr_named_exec(a: &(Option<String>, String, String, String), key: &Vec<char>, any_ns: bool) -> (r: bool)
    ensures
        r == attr_named(a.deep_view(), key@, any_ns),
{
    let local = chars_of(a.2.as_str());
    if !eq_chars(&local, key) {
        return false;
    }
    if any_ns {
        return true;
    }
    let ns = chars_of(a.1.as_str());
    a.0.is_none() && ns.len() == 0
}

fn find_attr(n: &HtmlNode, key: &str, any_ns: bool) -> (r: Option<Vec<char>>)
    ensures
        match n.kind@ {
            KindView::Element(_, attrs) => match r {
                Some(v) => attr_find(attrs, key@, any_ns) == Some(v@),
                None => attr_find(attrs, key@, any_ns) is None,
            },
            _ => r is None,
        },
{
    match &n.kind {
        NodeKind::Element(_, attrs) => {
            let k = chars_of(key);
            let ghost dv = attrs.deep_view();
            let mut i: usize = 0;
            while i < attrs.len()
                invariant
                    i <= attrs.len(),
                    dv == attrs.deep_view(),
                    n.kind@ == KindView::Element(kind_name(n.kind@), dv),
                    k@ == key@,
                    forall|j: int| 0 <= j < i ==> !attr_named(#[trigger] dv[j], key@, any_ns),
                decreases attrs.len() - i,
            {
                proof {
                    assert(dv[i as int] == attrs@[i as int].deep_view());
                }
                if attr_named_exec(&attrs[i], &k, any_ns) {
                    proof {
                        lemma_attr_find_skip(dv, key@, any_ns, i as int);
                        assert(dv.skip(i as int)[0] == dv[i as int]);
                    }
                    return Some(chars_of(attrs[i].3.as_str()));
                }
                i = i + 1;
            }
            proof {
                lemma_attr_find_skip(dv, key@, any_ns, i as int);
            }
            None
        },
        _ => None,
    }
}

/// An attribute of an element, as characters.
pub fn get_attr(n: &HtmlNode, key: &str) -> (r: Option<Vec<char>>)
    ensures
        match r {
            Some(v) => node_attr(*n, key@) == Some(v@),
            None => node_attr(*n, key@) is None,
        },
{
    find_attr(n, key, false)
}

/// The first attribute with the local name `key` in any namespace, as characters.
pub fn get_local_attr(n: &HtmlNode, key: &str) -> (r: Option<Vec<char>>)
    ensures
        match r {
            Some(v) => node_local_attr(*n, key@) == Some(v@),
            None => node_local_attr(*n, key@) is None,
        },
{
    find_attr(n, key, true)
}

/// An attribute of an element, or no characters.
pub fn get_attr_or_empty(n: &HtmlNode, key: &str) -> (r: Vec<char>)
    ensures
        r@ == attr_or_empty(*n, key@),
{
    match get_attr(n, key) {
        Some(v) => v,
        None => Vec::new(),
    }
}

/// The name of an element, as characters (no characters for other nodes).
pub fn name_of(n: &HtmlNode) -> (r: Vec<char>)
    ensures
        r@ == kind_name(n.kind@),
{
    match &n.kind {
        NodeKind::Element(name, _) => chars_of(name.as_str()),
        _ => Vec::new(),
    }
}

pub fn is_named(n: &HtmlNode, name: &str) -> (r: bool)
    ensures
        r == is_elem_named(*n, name@),
{
    match &n.kind {
        NodeKind::Element(nm, _) => {
            let v = chars_of(nm.as_str());
            eq_str(&v, name)
        },
        _ => false,
    }
}

/// Appends the text of the text nodes below the siblings `s`.
pub fn text_into(s: &Vec<HtmlNode>, out: &mut Vec<char>)
    ensures
        final(out)@ == old(out)@ + text_list(s@),
    decreases s,
{
    let ghost start = out@;
    let mut i: usize = 0;
    while i < s.len()
        invariant
            i <= s.len(),
            out@ == start + text_list(s@.take(i as int)),
        decreases s.len() - i,
    {
        proof {
            assert(s@.take(i + 1).drop_last() =~= s@.take(i as int));
            assert(s@.take(i + 1).last() == s@[i as int]);
        }
        match &s[i].kind {
            NodeKind::Text(t) => push_str(out, t.as_str()),
            _ => text_into(&s[i].children, out),
        }
        i = i + 1;
    }
    proof {
        assert(s@.take(s.len() as int) =~= s@);
    }
}

/// The text of the text nodes below an element (`ElementRef::text`, collected).
pub fn node_text(n: &HtmlNode) -> (r: Vec<char>)
    ensures
        r@ == text_of(*n),
{
    let mut out: Vec<char> = Vec::new();
    text_into(&n.children, &mut out);
    out
}

fn sel_matches_exec(n: &HtmlNode, tag: &str, attr: Option<&str>) -> (r: bool)
    ensures
        r == sel_matches(*n, tag@, match attr { Some(a) => Some(a@), None => None }),
{
    if !is_named(n, tag) {
        return false;
    }
    match attr {
        Some(a) => get_attr(n, a).is_some(),
        None => true,
    }
}

proof fn lemma_first_in_prefix(s: Seq<HtmlNode>, k: int, tag: Seq<char>, attr: Option<Seq<char>>)
    requires
        0 <= k <= s.len(),
        first_in(s.take(k), tag, attr) is Some,
    ensures
        first_in(s, tag, attr) == first_in(s.take(k), tag, attr),
    decreases s.len() - k,
{
    if k < s.len() {
        let t = s.drop_last();
        assert(t.take(k) =~= s.take(k));
        lemma_first_in_prefix(t, k, tag, attr);
    } else {
        assert(s.take(k) =~= s);
    }
}

/// The first node among the siblings `s` and their descendants, in document order, that
/// matches the selector.
pub fn first_in_exec<'a>(s: &'a Vec<HtmlNode>, tag: &str, attr: Option<&str>) -> (r: Option<&'a HtmlNode>)
    ensures
        match r {
            Some(x) => first_in(s@, tag@, match attr { Some(a) => Some(a@), None => None }) == Some(*x),
            None => first_in(s@, tag@, match attr { Some(a) => Some(a@), None => None }) is None,
        },
    decreases s,
{
    let ghost av = match attr { Some(a) => Some(a@), None => None::<Seq<char>> };
    let mut i: usize = 0;
    while i < s.len()
        invariant
            i <= s.len(),
            av == match attr { Some(a) => Some(a@), None => None::<Seq<char>> },
            first_in(s@.take(i as int), tag@, av) is None,
        decreases s.len() - i,
    {
        proof {
            assert(s@.take(i + 1).drop_last() =~= s@.take(i as int));
            assert(s@.take(i + 1).last() == s@[i as int]);
        }
        if sel_matches_exec(&s[i], tag, attr) {
            proof {
                lemma_first_in_prefix(s@, i + 1, tag@, av);
            }
            return Some(&s[i]);
        }
        match first_in_exec(&s[i].children, tag, attr) {
            Some(x) => {
                proof {
                    lemma_first_in_prefix(s@, i + 1, tag@, av);
                }
                return Some(x);
            },
            None => {},
        }
        i = i + 1;
    }
    proof {
        assert(s@.take(s.len() as int) =~= s@);
    }
    None
}

/// Appends the heading text of the siblings `s`.
fn heading_into(s: &Vec<HtmlNode>, out: &mut Vec<char>)
    ensures
        final(out)@ == old(out)@ + heading_list(s@),
    decreases s,
{
    let ghost start = out@;
    let mut i: usize = 0;
    while i < s.len()
        invariant
            i <= s.len(),
            out@ == start + heading_list(s@.take(i as int)),
        decreases s.len() - i,
    {
        proof {
            assert(s@.take(i + 1).drop_last() =~= s@.take(i as int));
            assert(s@.take(i + 1).last() == s@[i as int]);
        }
        match &s[i].kind {
            NodeKind::Text(t) => push_str(out, t.as_str()),
            NodeKind::Element(name, _) => {
                let nm = chars_of(name.as_str());
                let class = get_attr_or_empty(&s[i], "class");
                if eq_str(&nm, "i") && contains_str(&class, "anchor") {
                } else {
                    let mut inner: Vec<char> = Vec::new();
                    heading_into(&s[i].children, &mut inner);
                    if !blank(&inner) {
                        push_chars(out, &inner);
                    }
                }
            },
            NodeKind::Other => {},
        }
        i = i + 1;
    }
    proof {
        assert(s@.take(s.len() as int) =~= s@);
    }
}

/// The text of a heading, skipping anchor-icon elements.
pub fn heading_text_of(n: &HtmlNode) -> (r: Vec<char>)
    ensures
        r@ == heading_text(*n),
{
    let mut out: Vec<char> = Vec::new();
    heading_into(&n.children, &mut out);
    out
}


proof fn lemma_split_ws_nonempty(s: Seq<char>)
    requires
        s.len() >= 1,
        !is_ws(s.last()),
    ensures
        split_ws(s).len() >= 1,
    decreases s.len(),
{
    if s.len() >= 2 && !is_ws(s[s.len() - 2]) {
        assert(s.drop_last().last() == s[s.len() - 2]);
        lemma_split_ws_nonempty(s.drop_last());
    }
}

/// Removes the last piece of a list of pieces.
fn pop_piece(p: &mut Vec<Vec<char>>) -> (r: Vec<char>)
    requires
        old(p).len() >= 1,
    ensures
        final(p).deep_view() == old(p).deep_view().drop_last(),
        r@ == old(p).deep_view().last(),
{
    let ghost before = p@;
    let r = p.pop().unwrap();
    proof {
        assert(p.deep_view() =~= old(p).deep_view().drop_last()) by {
            assert forall|j: int| 0 <= j < p@.len() implies #[trigger] p.deep_view()[j] == old(p).deep_view().drop_last()[j] by {
                assert(p@[j] == before[j]);
            }
        }
        assert(r.deep_view() =~= r@);
    }
    r
}

/// `str::split_whitespace`, collected.
pub fn split_ws_in(v: &Vec<char>) -> (r: Vec<Vec<char>>)
    ensures
        r.deep_view() == split_ws(v@),
{
    let mut p: Vec<Vec<char>> = Vec::new();
    let mut i: usize = 0;
    while i < v.len()
        invariant
            i <= v.len(),
            p.deep_view() == split_ws(v@.take(i as int)),
        decreases v.len() - i,
    {
        let c = v[i];
        let ghost t = v@.take(i + 1);
        proof {
            assert(t.drop_last() =~= v@.take(i as int));
            assert(t.last() == c);
            if i >= 1 {
                assert(t[t.len() - 2] == v@[i - 1]);
                assert(v@.take(i as int).last() == v@[i - 1]);
            }
        }
        if is_whitespace(c) {
        } else if i >= 1 && !is_whitespace(v[i - 1]) {
            proof {
                lemma_split_ws_nonempty(v@.take(i as int));
            }
            let ghost before = p.deep_view();
            let mut w = pop_piece(&mut p);
            w.push(c);
            push_piece(&mut p, w);
            proof {
                assert(p.deep_view() =~= before.update(before.len() - 1, before.last().push(c)));
            }
        } else {
            let mut w: Vec<char> = Vec::new();
            w.push(c);
            proof {
                assert(w@ =~= seq![c]);
            }
            push_piece(&mut p, w);
        }
        i = i + 1;
    }
    proof {
        assert(v@.take(v.len() as int) =~= v@);
    }
    p
}

/// The first piece that starts with `pat`.
pub fn first_prefixed_in(ps: &Vec<Vec<char>>, pat: &str) -> (r: Option<Vec<char>>)
    ensures
        match r {
            Some(w) => first_prefixed(ps.deep_view(), pat@) == Some(w@),
            None => first_prefixed(ps.deep_view(), pat@) is None,
        },
{
    let ghost dv = ps.deep_view();
    let mut i: usize = 0;
    proof {
        assert(dv.skip(0) =~= dv);
    }
    while i < ps.len()
        invariant
            i <= ps.len(),
            dv == ps.deep_view(),
            first_prefixed(dv, pat@) == first_prefixed(dv.skip(i as int), pat@),
        decreases ps.len() - i,
    {
        proof {
            assert(dv.skip(i as int)[0] == ps@[i as int]@);
            assert(dv.skip(i as int).drop_first() =~= dv.skip(i + 1));
        }
        if starts_with_str(&ps[i], pat) {
            return Some(slice(&ps[i], 0, ps[i].len()));
        }
        i = i + 1;
    }
    None
}

/// Appends the Markdown of a `<pre>` block.
fn pre_into(n: &HtmlNode, out: &mut Vec<char>)
    ensures
        final(out)@ == old(out)@ + pre_md(*n),
{
    let code = first_in_exec(&n.children, "code", None);
    let code_text = match code {
        Some(c) => node_text(c),
        None => node_text(n),
    };
    let lang: Vec<char> = match code {
        Some(c) => match get_attr(c, "class") {
            Some(cls) => {
                let words = split_ws_in(&cls);
                match first_prefixed_in(&words, "language-") {
                    Some(w) => trim_start_matches_str(&w, "language-"),
                    None => Vec::new(),
                }
            },
            None => Vec::new(),
        },
        None => Vec::new(),
    };
    push_str(out, "```");
    push_chars(out, &lang);
    push_str(out, "\n");
    push_chars(out, &trim_end_chars(&code_text));
    push_str(out, "\n```\n\n");
}

/// Appends the lines of one list item.
fn item_lines_into(ls: &Vec<Vec<char>>, first: &Vec<char>, rest: &str, out: &mut Vec<char>)
    ensures
        final(out)@ == old(out)@ + item_lines(ls.deep_view(), first@, rest@),
{
    let ghost dv = ls.deep_view();
    let ghost start = out@;
    let mut i: usize = 0;
    while i < ls.len()
        invariant
            i <= ls.len(),
            dv == ls.deep_view(),
            out@ == start + item_lines(dv.take(i as int), first@, rest@),
        decreases ls.len() - i,
    {
        proof {
            assert(dv.take(i + 1).drop_last() =~= dv.take(i as int));
            assert(dv.take(i + 1).last() == ls@[i as int]@);
        }
        if i == 0 {
            push_chars(out, first);
            push_chars(out, &ls[i]);
            push_str(out, "\n");
        } else if !blank(&ls[i]) {
            push_str(out, rest);
            push_chars(out, &ls[i]);
            push_str(out, "\n");
        }
        i = i + 1;
    }
    proof {
        assert(dv.take(ls.len() as int) =~= dv);
    }
}

/// Appends one table row with `cols` cells.
fn row_into(row: &Vec<Vec<char>>, cols: usize, out: &mut Vec<char>)
    ensures
        final(out)@ == old(out)@ + row_md(row.deep_view(), cols as nat),
{
    let ghost dv = row.deep_view();
    let mut cells: Vec<Vec<char>> = Vec::new();
    let mut i: usize = 0;
    while i < cols
        invariant
            i <= cols,
            dv == row.deep_view(),
            cells.deep_view() =~= Seq::new(i as nat, |j: int| if j < dv.len() { dv[j] } else { Seq::empty() }),
        decreases cols - i,
    {
        if i < row.len() {
            let piece = slice(&row[i], 0, row[i].len());
            proof {
                assert(dv[i as int] == row@[i as int]@);
                assert(piece@ =~= dv[i as int]);
            }
            push_piece(&mut cells, piece);
        } else {
            let piece: Vec<char> = Vec::new();
            proof {
                assert(piece@ =~= Seq::<char>::empty());
            }
            push_piece(&mut cells, piece);
        }
        i = i + 1;
    }
    push_str(out, "| ");
    push_chars(out, &join_in(&cells, " | "));
    push_str(out, " |\n");
}

/// Appends the separator row of a table with `cols` columns.
fn sep_into(cols: usize, out: &mut Vec<char>)
    ensures
        final(out)@ == old(out)@ + row_md(Seq::new(cols as nat, |i: int| "---"@), cols as nat),
{
    let mut cells: Vec<Vec<char>> = Vec::new();
    let mut i: usize = 0;
    while i < cols
        invariant
            i <= cols,
            cells.deep_view() =~= Seq::new(i as nat, |j: int| "---"@),
        decreases cols - i,
    {
        push_piece(&mut cells, chars_of("---"));
        i = i + 1;
    }
    let ghost sv = Seq::new(cols as nat, |i: int| "---"@);
    proof {
        assert(Seq::new(cols as nat, |j: int| if j < sv.len() { sv[j] } else { Seq::empty() }) =~= sv);
    }
    push_str(out, "| ");
    push_chars(out, &join_in(&cells, " | "));
    push_str(out, " |\n");
}

/// Appends a table given its rows of cells.
fn table_into(rows: &Vec<Vec<Vec<char>>>, out: &mut Vec<char>)
    ensures
        final(out)@ == old(out)@ + table_md(rows.deep_view()),
{
    let ghost dv = rows.deep_view();
    let mut cols: usize = 0;
    let mut i: usize = 0;
    while i < rows.len()
        invariant
            i <= rows.len(),
            dv == rows.deep_view(),
            cols == max_cols(dv.take(i as int)),
        decreases rows.len() - i,
    {
        proof {
            assert(dv.take(i + 1).drop_last() =~= dv.take(i as int));
            assert(dv.take(i + 1).last() == rows@[i as int].deep_view());
        }
        if rows[i].len() > cols {
            cols = rows[i].len();
        }
        i = i + 1;
    }
    proof {
        assert(dv.take(rows.len() as int) =~= dv);
    }
    if rows.len() == 0 || cols == 0 {
        return;
    }
    let ghost start = out@;
    row_into(&rows[0], cols, out);
    sep_into(cols, out);
    let ghost head = out@;
    let mut k: usize = 1;
    proof {
        assert(dv.take(1).len() == 1);
    }
    while k < rows.len()
        invariant
            1 <= k <= rows.len(),
            dv == rows.deep_view(),
            out@ == head + body_rows_md(dv.take(k as int), cols as nat),
        decreases rows.len() - k,
    {
        proof {
            assert(dv.take(k + 1).drop_last() =~= dv.take(k as int));
            assert(dv.take(k + 1).last() == rows@[k as int].deep_view());
        }
        row_into(&rows[k], cols, out);
        k = k + 1;
    }
    proof {
        assert(dv.take(rows.len() as int) =~= dv);
        assert(dv[0] == rows@[0].deep_view());
    }
    push_str(out, "\n");
}

/// Appends the Markdown of a link given the Markdown of its content.
fn link_into(href: &Vec<char>, text: &Vec<char>, index: &AnchorIndex, base: &str, out: &mut Vec<char>)
    ensures
        final(out)@ == old(out)@ + link_md(href@, text@, index@, base@),
{
    let internal = contains_str(href, "core.telegram.org") || starts_with_str(href, "/") || starts_with_str(href, "#");
    if internal {
        let hs = to_string(href);
        match index.resolve(hs.as_str(), base) {
            Some(w) => {
                let wv = chars_of(w.as_str());
                let a = trim_start_matches_str(&wv, "[[");
                let b = trim_end_matches_str(&a, "]]");
                let label = after_last_char_in(&b, '#');
                let tt = trim_chars(text);
                if eq_chars(&tt, &label) {
                    push_chars(out, &wv);
                } else {
                    push_str(out, "[");
                    push_chars(out, text);
                    push_str(out, "](");
                    push_chars(out, &wv);
                    push_str(out, ")");
                }
                return;
            },
            None => {},
        }
    }
    if href.len() == 0 || eq_chars(href, text) {
        push_chars(out, text);
    } else {
        push_str(out, "[");
        push_chars(out, text);
        push_str(out, "](");
        push_chars(out, href);
        push_str(out, ")");
    }
}


fn heading_level_exec(tag: &Vec<char>) -> (r: Option<u8>)
    ensures
        r == heading_level(tag@),
{
    if eq_str(tag, "h1") {
        Some(1u8)
    } else if eq_str(tag, "h2") {
        Some(2u8)
    } else if eq_str(tag, "h3") {
        Some(3u8)
    } else if eq_str(tag, "h4") {
        Some(4u8)
    } else if eq_str(tag, "h5") {
        Some(5u8)
    } else {
        None
    }
}

proof fn lemma_li_count_le(s: Seq<HtmlNode>)
    ensures
        li_count(s) <= s.len(),
    decreases s.len(),
{
    if s.len() > 0 {
        lemma_li_count_le(s.drop_last());
    }
}

/// Appends the Markdown of an element.
fn md_into(n: &HtmlNode, index: &AnchorIndex, base: &str, out: &mut Vec<char>)
    ensures
        final(out)@ == old(out)@ + md(*n, index@, base@),
    decreases n,
{
    let tag = name_of(n);
    let kids = &n.children;
    let lvl = heading_level_exec(&tag);
    match lvl {
        Some(l) => {
            push_repeat(out, '#', l as usize);
            push_str(out, " ");
            push_chars(out, &trim_chars(&heading_text_of(n)));
            push_str(out, "\n\n");
            return;
        },
        None => {},
    }
    if eq_str(&tag, "p") {
        let mut t: Vec<char> = Vec::new();
        inline_into(kids, index, base, &mut t);
        if !blank(&t) {
            push_chars(out, &trim_end_chars(&t));
            push_str(out, "\n\n");
        }
    } else if eq_str(&tag, "br") {
        push_str(out, "\n");
    } else if eq_str(&tag, "ul") {
        ul_into(kids, index, base, out);
        push_str(out, "\n");
    } else if eq_str(&tag, "ol") {
        ol_into(kids, index, base, out);
        push_str(out, "\n");
    } else if eq_str(&tag, "pre") {
        pre_into(n, out);
    } else if eq_str(&tag, "code") {
        push_str(out, "`");
        push_chars(out, &node_text(n));
        push_str(out, "`");
    } else if eq_str(&tag, "blockquote") {
        let mut inner: Vec<char> = Vec::new();
        block_into(kids, index, base, &mut inner);
        quote_into(&trim_end_chars(&inner), out);
    } else if eq_str(&tag, "table") {
        let mut rows: Vec<Vec<Vec<char>>> = Vec::new();
        rows_into(kids, index, base, &mut rows);
        table_into(&rows, out);
    } else if eq_str(&tag, "a") {
        let class = get_attr_or_empty(n, "class");
        if contains_str(&class, "anchor") {
            push_chars(out, &heading_text_of(n));
        } else {
            let mut t: Vec<char> = Vec::new();
            inline_into(kids, index, base, &mut t);
            if !blank(&t) {
                let href = get_attr_or_empty(n, "href");
                link_into(&href, &t, index, base, out);
            }
        }
    } else if eq_str(&tag, "strong") || eq_str(&tag, "b") {
        let mut t: Vec<char> = Vec::new();
        inline_into(kids, index, base, &mut t);
        if !blank(&t) {
            push_str(out, "**");
            push_chars(out, &t);
            push_str(out, "**");
        }
    } else if eq_str(&tag, "em") || eq_str(&tag, "i") {
        let class = get_attr_or_empty(n, "class");
        if !contains_str(&class, "anchor") {
            let mut t: Vec<char> = Vec::new();
            inline_into(kids, index, base, &mut t);
            if !blank(&t) {
                push_str(out, "*");
                push_chars(out, &t);
                push_str(out, "*");
            }
        }
    } else if eq_str(&tag, "img") {
        push_str(out, "![");
        push_chars(out, &get_attr_or_empty(n, "alt"));
        push_str(out, "](");
        push_chars(out, &get_attr_or_empty(n, "src"));
        push_str(out, ")");
    } else if eq_str(&tag, "hr") {
        push_str(out, "\n---\n\n");
    } else if eq_str(&tag, "span") {
        inline_into(kids, index, base, out);
    } else {
        block_into(kids, index, base, out);
    }
}

/// Appends the blockquote of some Markdown: each line after `> `, then a blank line.
fn quote_into(inner: &Vec<char>, out: &mut Vec<char>)
    ensures
        final(out)@ == old(out)@ + join(lines(inner@).map_values(|l: Seq<char>| "> "@ + l), "\n"@) + "\n\n"@,
{
    let ls = lines_in(inner);
    let ghost lv = ls.deep_view();
    let mut q: Vec<Vec<char>> = Vec::new();
    let mut i: usize = 0;
    while i < ls.len()
        invariant
            i <= ls.len(),
            lv == ls.deep_view(),
            q.deep_view() =~= lv.take(i as int).map_values(|l: Seq<char>| "> "@ + l),
        decreases ls.len() - i,
    {
        let mut line: Vec<char> = Vec::new();
        push_str(&mut line, "> ");
        push_chars(&mut line, &ls[i]);
        proof {
            assert(lv[i as int] == ls@[i as int]@);
        }
        push_piece(&mut q, line);
        proof {
            assert(lv.take(i + 1).map_values(|l: Seq<char>| "> "@ + l) =~= lv.take(i as int).map_values(|l: Seq<char>| "> "@ + l).push("> "@ + lv[i as int]));
        }
        i = i + 1;
    }
    proof {
        assert(lv.take(ls.len() as int) =~= lv);
    }
    push_chars(out, &join_in(&q, "\n"));
    push_str(out, "\n\n");
}

/// Appends the inline Markdown of the siblings `s`.
fn inline_into(s: &Vec<HtmlNode>, index: &AnchorIndex, base: &str, out: &mut Vec<char>)
    ensures
        final(out)@ == old(out)@ + inline_list(s@, index@, base@),
    decreases s,
{
    let ghost start = out@;
    let mut i: usize = 0;
    while i < s.len()
        invariant
            i <= s.len(),
            out@ == start + inline_list(s@.take(i as int), index@, base@),
        decreases s.len() - i,
    {
        proof {
            assert(s@.take(i + 1).drop_last() =~= s@.take(i as int));
            assert(s@.take(i + 1).last() == s@[i as int]);
        }
        match &s[i].kind {
            NodeKind::Text(t) => push_str(out, t.as_str()),
            NodeKind::Element(_, _) => md_into(&s[i], index, base, out),
            NodeKind::Other => {},
        }
        i = i + 1;
    }
    proof {
        assert(s@.take(s.len() as int) =~= s@);
    }
}

/// Appends the block Markdown of the siblings `s`.
fn block_into(s: &Vec<HtmlNode>, index: &AnchorIndex, base: &str, out: &mut Vec<char>)
    ensures
        final(out)@ == old(out)@ + block_list(s@, index@, base@),
    decreases s,
{
    let ghost start = out@;
    let mut i: usize = 0;
    while i < s.len()
        invariant
            i <= s.len(),
            out@ == start + block_list(s@.take(i as int), index@, base@),
        decreases s.len() - i,
    {
        proof {
            assert(s@.take(i + 1).drop_last() =~= s@.take(i as int));
            assert(s@.take(i + 1).last() == s@[i as int]);
        }
        match &s[i].kind {
            NodeKind::Text(t) => {
                let tv = chars_of(t.as_str());
                if !blank(&tv) {
                    push_chars(out, &tv);
                }
            },
            NodeKind::Element(_, _) => md_into(&s[i], index, base, out),
            NodeKind::Other => {},
        }
        i = i + 1;
    }
    proof {
        assert(s@.take(s.len() as int) =~= s@);
    }
}

/// Appends the items of an unordered list.
fn ul_into(s: &Vec<HtmlNode>, index: &AnchorIndex, base: &str, out: &mut Vec<char>)
    ensures
        final(out)@ == old(out)@ + ul_list(s@, index@, base@),
    decreases s,
{
    let ghost start = out@;
    let mut i: usize = 0;
    while i < s.len()
        invariant
            i <= s.len(),
            out@ == start + ul_list(s@.take(i as int), index@, base@),
        decreases s.len() - i,
    {
        proof {
            assert(s@.take(i + 1).drop_last() =~= s@.take(i as int));
            assert(s@.take(i + 1).last() == s@[i as int]);
        }
        if is_named(&s[i], "li") {
            let mut t: Vec<char> = Vec::new();
            block_into(&s[i].children, index, base, &mut t);
            let ls = lines_in(&trim_end_chars(&t));
            item_lines_into(&ls, &chars_of("- "), "  ", out);
        }
        i = i + 1;
    }
    proof {
        assert(s@.take(s.len() as int) =~= s@);
    }
}

/// Appends the items of an ordered list, numbered from 1.
fn ol_into(s: &Vec<HtmlNode>, index: &AnchorIndex, base: &str, out: &mut Vec<char>)
    ensures
        final(out)@ == old(out)@ + ol_list(s@, index@, base@),
    decreases s,
{
    let ghost start = out@;
    let mut i: usize = 0;
    let mut count: usize = 0;
    while i < s.len()
        invariant
            i <= s.len(),
            count == li_count(s@.take(i as int)),
            out@ == start + ol_list(s@.take(i as int), index@, base@),
        decreases s.len() - i,
    {
        proof {
            assert(s@.take(i + 1).drop_last() =~= s@.take(i as int));
            assert(s@.take(i + 1).last() == s@[i as int]);
            lemma_li_count_le(s@.take(i as int));
        }
        if is_named(&s[i], "li") {
            let mut t: Vec<char> = Vec::new();
            block_into(&s[i].children, index, base, &mut t);
            let ls = lines_in(&trim_end_chars(&t));
            let mut first: Vec<char> = Vec::new();
            push_decimal(&mut first, count + 1);
            push_str(&mut first, ". ");
            item_lines_into(&ls, &first, "   ", out);
            count = count + 1;
        }
        i = i + 1;
    }
    proof {
        assert(s@.take(s.len() as int) =~= s@);
    }
}

/// Appends the cells with the given tag among the siblings `s` and their descendants.
fn cells_into(s: &Vec<HtmlNode>, tag: &str, index: &AnchorIndex, base: &str, cells: &mut Vec<Vec<char>>)
    ensures
        final(cells).deep_view() == old(cells).deep_view() + cells_in(s@, tag@, index@, base@),
    decreases s,
{
    let ghost start = cells.deep_view();
    let mut i: usize = 0;
    while i < s.len()
        invariant
            i <= s.len(),
            cells.deep_view() == start + cells_in(s@.take(i as int), tag@, index@, base@),
        decreases s.len() - i,
    {
        proof {
            assert(s@.take(i + 1).drop_last() =~= s@.take(i as int));
            assert(s@.take(i + 1).last() == s@[i as int]);
        }
        let ghost mid = cells.deep_view();
        if is_named(&s[i], tag) {
            let mut t: Vec<char> = Vec::new();
            inline_into(&s[i].children, index, base, &mut t);
            let a = replace_char_in(&t, '\n', " ");
            let b = replace_char_in(&a, '|', "\\|");
            push_piece(cells, trim_chars(&b));
        }
        let ghost mid2 = cells.deep_view();
        cells_into(&s[i].children, tag, index, base, cells);
        proof {
            if is_elem_named(s@[i as int], tag@) {
                assert(mid2 =~= mid + seq![trim(replace_char(replace_char(inline_list(s@[i as int].children@, index@, base@), '\n', " "@), '|', "\\|"@))]);
            } else {
                assert(mid2 =~= mid + Seq::<Seq<char>>::empty());
            }
            assert(cells.deep_view() =~= start + cells_in(s@.take(i + 1), tag@, index@, base@));
        }
        i = i + 1;
    }
    proof {
        assert(s@.take(s.len() as int) =~= s@);
    }
}

/// Appends the rows (`<tr>`) among the siblings `s` and their descendants.
fn rows_into(s: &Vec<HtmlNode>, index: &AnchorIndex, base: &str, rows: &mut Vec<Vec<Vec<char>>>)
    ensures
        final(rows).deep_view() == old(rows).deep_view() + rows_in(s@, index@, base@),
    decreases s,
{
    let ghost start = rows.deep_view();
    let mut i: usize = 0;
    while i < s.len()
        invariant
            i <= s.len(),
            rows.deep_view() == start + rows_in(s@.take(i as int), index@, base@),
        decreases s.len() - i,
    {
        proof {
            assert(s@.take(i + 1).drop_last() =~= s@.take(i as int));
            assert(s@.take(i + 1).last() == s@[i as int]);
        }
        let ghost mid = rows.deep_view();
        if is_named(&s[i], "tr") {
            let mut row: Vec<Vec<char>> = Vec::new();
            cells_into(&s[i].children, "th", index, base, &mut row);
            cells_into(&s[i].children, "td", index, base, &mut row);
            proof {
                assert(row.deep_view() =~= cells_in(s@[i as int].children@, "th"@, index@, base@) + cells_in(s@[i as int].children@, "td"@, index@, base@));
            }
            push_deep(rows, row);
        }
        let ghost mid2 = rows.deep_view();
        rows_into(&s[i].children, index, base, rows);
        proof {
            if is_elem_named(s@[i as int], "tr"@) {
                assert(mid2 =~= mid + seq![cells_in(s@[i as int].children@, "th"@, index@, base@) + cells_in(s@[i as int].children@, "td"@, index@, base@)]);
            } else {
                assert(mid2 =~= mid + Seq::<Seq<Seq<char>>>::empty());
            }
            assert(rows.deep_view() =~= start + rows_in(s@.take(i + 1), index@, base@));
        }
        i = i + 1;
    }
    proof {
        assert(s@.take(s.len() as int) =~= s@);
    }
}

/// Converts an element to Markdown; links go through the anchor index, seen from the page
/// `doc_base`.
pub fn element_to_md(el: &HtmlNode, index: &AnchorIndex, doc_base: &str) -> (r: String)
    ensures
        r@ == md(*el, index@, doc_base@),
{
    let mut out: Vec<char> = Vec::new();
    md_into(el, index, doc_base, &mut out);
    to_string(&out)
}


/// The heading entry (level, id, text) of an `h2`, `h3` or `h4` element whose id (its `id`
/// attribute, else the `name` of its first `<a name>` descendant) is known and whose text is
/// not empty.
pub open spec fn heading_entry(c: HtmlNode) -> Seq<(u8, Seq<char>, Seq<char>)> {
    let tag = kind_name(c.kind@);
    let id = match node_attr(c, "id"@) {
        Some(i) => Some(i),
        None => match first_desc(c, "a"@, Some("name"@)) {
            Some(a) => node_attr(a, "name"@),
            None => None,
        },
    };
    let t = heading_text(c);
    if c.kind@ is Element && (tag == "h2"@ || tag == "h3"@ || tag == "h4"@) && id is Some && t.len() > 0 {
        seq![(heading_level(tag)->0, id->0, t)]
    } else {
        Seq::empty()
    }
}

/// The heading entries among a list of nodes and their descendants, in document order.
pub open spec fn headings_in(s: Seq<HtmlNode>) -> Seq<(u8, Seq<char>, Seq<char>)>
    decreases s,
{
    if s.len() == 0 {
        Seq::empty()
    } else {
        headings_in(s.drop_last()) + heading_entry(s.last()) + headings_in(s.last().children@)
    }
}

fn headings_into(s: &Vec<HtmlNode>, out: &mut Vec<(u8, String, String)>)
    ensures
        final(out).deep_view() == old(out).deep_view() + headings_in(s@),
    decreases s,
{
    let ghost start = out.deep_view();
    let mut i: usize = 0;
    while i < s.len()
        invariant
            i <= s.len(),
            out.deep_view() == start + headings_in(s@.take(i as int)),
        decreases s.len() - i,
    {
        proof {
            assert(s@.take(i + 1).drop_last() =~= s@.take(i as int));
            assert(s@.take(i + 1).last() == s@[i as int]);
        }
        let c = &s[i];
        let ghost mid = out.deep_view();
        let tag = name_of(c);
        if is_named(c, "h2") || is_named(c, "h3") || is_named(c, "h4") {
            let id = match get_attr(c, "id") {
                Some(v) => Some(v),
                None => match first_in_exec(&c.children, "a", Some("name")) {
                    Some(a) => get_attr(a, "name"),
                    None => None,
                },
            };
            let t = heading_text_of(c);
            match id {
                Some(idv) => {
                    if t.len() > 0 {
                        let lvl = heading_level_exec(&tag);
                        let entry = (lvl.unwrap(), to_string(&idv), to_string(&t));
                        push_deep(out, entry);
                    }
                },
                None => {},
            }
        }
        let ghost mid2 = out.deep_view();
        proof {
            assert(mid2 =~= mid + heading_entry(s@[i as int]));
        }
        headings_into(&c.children, out);
        proof {
            assert(out.deep_view() =~= start + headings_in(s@.take(i + 1)));
        }
        i = i + 1;
    }
    proof {
        assert(s@.take(s.len() as int) =~= s@);
    }
}

/// The h2/h3/h4 headings of a document in document order: (level, id, text).
pub fn headings_of(doc: &HtmlNode) -> (r: Vec<(u8, String, String)>)
    ensures
        r.deep_view() == headings_in(doc.children@),
{
    let mut out: Vec<(u8, String, String)> = Vec::new();
    headings_into(&doc.children, &mut out);
    proof {
        assert(out.deep_view() =~= Seq::<(u8, Seq<char>, Seq<char>)>::empty() + headings_in(doc.children@));
    }
    out
}

/// The YAML tag list of a frontmatter block: one `  - tag` line per tag.
pub open spec fn tag_lines(tags: Seq<Seq<char>>) -> Seq<char> {
    join(tags.map_values(|t: Seq<char>| "  - "@ + t), "\n"@)
}

/// The frontmatter block of a document.
pub open spec fn spec_frontmatter(title: Seq<char>, source_url: Seq<char>, tags: Seq<Seq<char>>) -> Seq<char> {
    "---\ntitle: "@ + title + "\nsource: "@ + source_url + "\ntags:\n"@ + tag_lines(tags) + "\n---\n\n"@
}

/// The views of a list of string slices.
pub open spec fn strs_view(tags: Seq<&str>) -> Seq<Seq<char>> {
    tags.map_values(|t: &str| t@)
}

/// Appends the tag lines of a frontmatter block.
pub fn push_tag_lines(out: &mut Vec<char>, tags: &[&str])
    ensures
        final(out)@ == old(out)@ + tag_lines(strs_view(tags@)),
{
    let ghost tv = strs_view(tags@);
    let mut ls: Vec<Vec<char>> = Vec::new();
    let mut i: usize = 0;
    while i < tags.len()
        invariant
            i <= tags.len(),
            tv == strs_view(tags@),
            ls.deep_view() =~= tv.take(i as int).map_values(|t: Seq<char>| "  - "@ + t),
        decreases tags.len() - i,
    {
        let mut line: Vec<char> = Vec::new();
        push_str(&mut line, "  - ");
        push_str(&mut line, tags[i]);
        push_piece(&mut ls, line);
        proof {
            assert(tv[i as int] == tags@[i as int]@);
            assert(tv.take(i + 1).map_values(|t: Seq<char>| "  - "@ + t) =~= tv.take(i as int).map_values(|t: Seq<char>| "  - "@ + t).push("  - "@ + tv[i as int]));
        }
        i = i + 1;
    }
    proof {
        assert(tv.take(tags.len() as int) =~= tv);
    }
    push_chars(out, &join_in(&ls, "\n"));
}

/// Build frontmatter YAML for a doc file.
pub fn frontmatter(title: &str, source_url: &str, tags: &[&str]) -> (r: String)
    ensures
        r@ == spec_frontmatter(title@, source_url@, strs_view(tags@)),
{
    let mut out: Vec<char> = Vec::new();
    push_str(&mut out, "---\ntitle: ");
    push_str(&mut out, title);
    push_str(&mut out, "\nsource: ");
    push_str(&mut out, source_url);
    push_str(&mut out, "\ntags:\n");
    push_tag_lines(&mut out, tags);
    push_str(&mut out, "\n---\n\n");
    to_string(&out)
}

/// `str::split_ascii_whitespace`: the pieces between runs of ASCII whitespace, none empty.
pub open spec fn is_ascii_ws(c: char) -> bool {
    c == ' ' || c == '\t' || c == '\n' || c == '\u{c}' || c == '\r'
}

pub open spec fn split_ascii_ws(s: Seq<char>) -> Seq<Seq<char>>
    decreases s.len(),
{
    if s.len() == 0 {
        Seq::empty()
    } else {
        let p = split_ascii_ws(s.drop_last());
        let c = s.last();
        if is_ascii_ws(c) {
            p
        } else if s.len() >= 2 && !is_ascii_ws(s[s.len() - 2]) {
            p.update(p.len() - 1, p.last().push(c))
        } else {
            p.push(seq![c])
        }
    }
}

proof fn lemma_split_ascii_ws_nonempty(s: Seq<char>)
    requires
        s.len() >= 1,
        !is_ascii_ws(s.last()),
    ensures
        split_ascii_ws(s).len() >= 1,
    decreases s.len(),
{
    if s.len() >= 2 && !is_ascii_ws(s[s.len() - 2]) {
        assert(s.drop_last().last() == s[s.len() - 2]);
        lemma_split_ascii_ws_nonempty(s.drop_last());
    }
}

fn is_ascii_ws_exec(c: char) -> (b: bool)
    ensures
        b == is_ascii_ws(c),
{
    c == ' ' || c == '\t' || c == '\n' || c == '\u{c}' || c == '\r'
}

pub fn split_ascii_ws_in(v: &Vec<char>) -> (r: Vec<Vec<char>>)
    ensures
        r.deep_view() == split_ascii_ws(v@),
{
    let mut p: Vec<Vec<char>> = Vec::new();
    let mut i: usize = 0;
    while i < v.len()
        invariant
            i <= v.len(),
            p.deep_view() == split_ascii_ws(v@.take(i as int)),
        decreases v.len() - i,
    {
        let c = v[i];
        let ghost t = v@.take(i + 1);
        proof {
            assert(t.drop_last() =~= v@.take(i as int));
            assert(t.last() == c);
            if i >= 1 {
                assert(t[t.len() - 2] == v@[i - 1]);
                assert(v@.take(i as int).last() == v@[i - 1]);
            }
        }
        if is_ascii_ws_exec(c) {
        } else if i >= 1 && !is_ascii_ws_exec(v[i - 1]) {
            proof {
                lemma_split_ascii_ws_nonempty(v@.take(i as int));
            }
            let ghost before = p.deep_view();
            let mut w = pop_piece(&mut p);
            w.push(c);
            push_piece(&mut p, w);
            proof {
                assert(p.deep_view() =~= before.update(before.len() - 1, before.last().push(c)));
            }
        } else {
            let mut w: Vec<char> = Vec::new();
            w.push(c);
            proof {
                assert(w@ =~= seq![c]);
            }
            push_piece(&mut p, w);
        }
        i = i + 1;
    }
    proof {
        assert(v@.take(v.len() as int) =~= v@);
    }
    p
}

/// Whether some attribute with the local name `class`, in any namespace, lists `c` among its
/// words separated by ASCII whitespace.
pub open spec fn class_in(attrs: Seq<AttrView>, c: Seq<char>) -> bool
    decreases attrs.len(),
{
    if attrs.len() == 0 {
        false
    } else {
        (attrs[0].2 == "class"@ && split_ascii_ws(attrs[0].3).contains(c)) || class_in(attrs.drop_first(), c)
    }
}

/// Whether an element has the class `c` (`Element::has_class`, case-sensitive, as CSS `.c`
/// selectors test it).
pub open spec fn has_class(n: HtmlNode, c: Seq<char>) -> bool {
    match n.kind@ {
        KindView::Element(_, attrs) => class_in(attrs, c),
        _ => false,
    }
}

fn words_contain(cl: &Vec<char>, c: &str) -> (r: bool)
    ensures
        r == split_ascii_ws(cl@).contains(c@),
{
    let words = split_ascii_ws_in(cl);
    let ghost wv = words.deep_view();
    let cv = chars_of(c);
    let mut i: usize = 0;
    while i < words.len()
        invariant
            i <= words.len(),
            wv == words.deep_view(),
            wv == split_ascii_ws(cl@),
            cv@ == c@,
            forall|j: int| 0 <= j < i ==> wv[j] != c@,
        decreases words.len() - i,
    {
        proof {
            assert(wv[i as int] == words@[i as int]@);
        }
        if eq_chars(&words[i], &cv) {
            return true;
        }
        i = i + 1;
    }
    false
}

pub fn has_class_exec(n: &HtmlNode, c: &str) -> (r: bool)
    ensures
        r == has_class(*n, c@),
{
    match &n.kind {
        NodeKind::Element(_, attrs) => {
            let ghost dv = attrs.deep_view();
            proof {
                assert(dv.skip(0) =~= dv);
            }
            let mut i: usize = 0;
            while i < attrs.len()
                invariant
                    i <= attrs.len(),
                    dv == attrs.deep_view(),
                    has_class(*n, c@) == class_in(dv, c@),
                    class_in(dv, c@) == class_in(dv.skip(i as int), c@),
                decreases attrs.len() - i,
            {
                proof {
                    assert(dv[i as int] == attrs@[i as int].deep_view());
                    assert(dv.skip(i as int)[0] == dv[i as int]);
                    assert(dv.skip(i as int).drop_first() =~= dv.skip(i + 1));
                }
                let local = chars_of(attrs[i].2.as_str());
                if eq_str(&local, "class") {
                    let cl = chars_of(attrs[i].3.as_str());
                    if words_contain(&cl, c) {
                        return true;
                    }
                }
                i = i + 1;
            }
            false
        },
        _ => false,
    }
}

/// The content selector of a page: `div.page-body, div#dev_page_content, div.dev_page_content,
/// div#page-content, article, main`.
pub open spec fn is_content_root(n: HtmlNode) -> bool {
    ||| is_elem_named(n, "div"@) && (has_class(n, "page-body"@) || node_local_attr(n, "id"@) == Some("dev_page_content"@)
        || has_class(n, "dev_page_content"@) || node_local_attr(n, "id"@) == Some("page-content"@))
    ||| is_elem_named(n, "article"@)
    ||| is_elem_named(n, "main"@)
}

fn id_is(n: &HtmlNode, id: &str) -> (r: bool)
    ensures
        r == (node_local_attr(*n, "id"@) == Some(id@)),
{
    match get_local_attr(n, "id") {
        Some(v) => eq_str(&v, id),
        None => false,
    }
}

fn is_content_root_exec(n: &HtmlNode) -> (r: bool)
    ensures
        r == is_content_root(*n),
{
    (is_named(n, "div") && (has_class_exec(n, "page-body") || id_is(n, "dev_page_content")
        || has_class_exec(n, "dev_page_content") || id_is(n, "page-content")))
    || is_named(n, "article") || is_named(n, "main")
}

/// The first content root among a list of nodes and their descendants, in document order.
pub open spec fn first_content_in(s: Seq<HtmlNode>) -> Option<HtmlNode>
    decreases s,
{
    if s.len() == 0 {
        None
    } else {
        match first_content_in(s.drop_last()) {
            Some(x) => Some(x),
            None => if is_content_root(s.last()) {
                Some(s.last())
            } else {
                first_content_in(s.last().children@)
            },
        }
    }
}

proof fn lemma_first_content_prefix(s: Seq<HtmlNode>, k: int)
    requires
        0 <= k <= s.len(),
        first_content_in(s.take(k)) is Some,
    ensures
        first_content_in(s) == first_content_in(s.take(k)),
    decreases s.len() - k,
{
    if k < s.len() {
        let t = s.drop_last();
        assert(t.take(k) =~= s.take(k));
        lemma_first_content_prefix(t, k);
    } else {
        assert(s.take(k) =~= s);
    }
}

/// The content root of a document: its first element that the content selector matches.
pub fn content_root<'a>(s: &'a Vec<HtmlNode>) -> (r: Option<&'a HtmlNode>)
    ensures
        match r {
            Some(x) => first_content_in(s@) == Some(*x),
            None => first_content_in(s@) is None,
        },
    decreases s,
{
    let mut i: usize = 0;
    while i < s.len()
        invariant
            i <= s.len(),
            first_content_in(s@.take(i as int)) is None,
        decreases s.len() - i,
    {
        proof {
            assert(s@.take(i + 1).drop_last() =~= s@.take(i as int));
            assert(s@.take(i + 1).last() == s@[i as int]);
        }
        if is_content_root_exec(&s[i]) {
            proof {
                lemma_first_content_prefix(s@, i + 1);
            }
            return Some(&s[i]);
        }
        match content_root(&s[i].children) {
            Some(x) => {
                proof {
                    lemma_first_content_prefix(s@, i + 1);
                }
                return Some(x);
            },
            None => {},
        }
        i = i + 1;
    }
    proof {
        assert(s@.take(s.len() as int) =~= s@);
    }
    None
}

/// Convert all children of an element to Markdown (blank text dropped).
pub fn node_to_md(el: &HtmlNode, index: &AnchorIndex, doc_base: &str) -> (r: String)
    ensures
        r@ == block_list(el.children@, index@, doc_base@),
{
    let mut out: Vec<char> = Vec::new();
    block_into(&el.children, index, doc_base, &mut out);
    to_string(&out)
}


/// The h2/h3/h4 headings of an HTML text that have an id (their own, or the name of an
/// anchor inside them) and text, in document order: (level, id, text).
pub fn extract_headings(html: &str) -> (r: Vec<(u8, String, String)>)
    ensures
        exists|d: HtmlNode| parses_to(html@, d) && r.deep_view() == headings_in(d.children@),
{
    let d = parse_document(html);
    let r = headings_of(&d);
    proof {
        assert(parses_to(html@, d));
    }
    r
}

/// The `<li>` elements among a list of nodes, in order.
pub open spec fn li_only(s: Seq<HtmlNode>) -> Seq<HtmlNode>
    decreases s.len(),
{
    if s.len() == 0 {
        Seq::empty()
    } else {
        li_only(s.drop_last()) + if is_elem_named(s.last(), "li"@) { seq![s.last()] } else { Seq::empty() }
    }
}

proof fn lemma_ol_list_li_only(s: Seq<HtmlNode>, m: Map<Seq<char>, Seq<char>>, base: Seq<char>)
    ensures
        li_count(li_only(s)) == li_count(s),
        ol_list(li_only(s), m, base) == ol_list(s, m, base),
    decreases s.len(),
{
    if s.len() > 0 {
        let d = s.drop_last();
        lemma_ol_list_li_only(d, m, base);
        let f = li_only(s);
        if is_elem_named(s.last(), "li"@) {
            assert(f.drop_last() =~= li_only(d));
            assert(f.last() == s.last());
        } else {
            assert(f =~= li_only(d));
        }
    }
}

/// An ordered list numbers its `<li>` children 1, 2, 3, ... in order, whatever other nodes
/// (whitespace text, comments, other elements) lie between them: an `<ol>` gives the same
/// Markdown as the `<ol>` that keeps only its `<li>` children.
pub proof fn law_ol_numbers_only_items(n1: HtmlNode, n2: HtmlNode, m: Map<Seq<char>, Seq<char>>, base: Seq<char>)
    requires
        is_elem_named(n1, "ol"@),
        n2.kind@ == n1.kind@,
        n2.children@ == li_only(n1.children@),
    ensures
        md(n1, m, base) == md(n2, m, base),
{
    reveal_strlit("ol");
    reveal_strlit("h1");
    reveal_strlit("h2");
    reveal_strlit("h3");
    reveal_strlit("h4");
    reveal_strlit("h5");
    reveal_strlit("h6");
    reveal_strlit("p");
    reveal_strlit("br");
    reveal_strlit("ul");
    lemma_ol_list_li_only(n1.children@, m, base);
    let tag = kind_name(n1.kind@);
    assert(tag == "ol"@);
    assert("ol"@.len() == 2 && "ol"@[0] == 'o');
    assert("h1"@[0] == 'h' && "h2"@[0] == 'h' && "h3"@[0] == 'h' && "h4"@[0] == 'h' && "h5"@[0] == 'h' && "h6"@[0] == 'h');
    assert("p"@.len() == 1 && "br"@[0] == 'b' && "ul"@[0] == 'u');
    assert(heading_level(tag) is None);
    assert(tag != "p"@ && tag != "br"@ && tag != "ul"@);
    assert(md(n1, m, base) == ol_list(n1.children@, m, base) + "\n"@);
    assert(md(n2, m, base) == ol_list(n2.children@, m, base) + "\n"@);
}

} // verus!
