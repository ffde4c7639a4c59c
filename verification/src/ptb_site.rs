//! The python-telegram-bot pages: one page per class, the namespace indexes, the anchor index
//! that links them, and the dry-run listing.
use vstd::prelude::*;
use crate::anchor_index::{spec_target, AnchorIndex};
use crate::config::SourceConfig;
use crate::groups::{sort_order, sorted_order, spec_group_all, SortedGroups};
use crate::pages::push_file;
use crate::ptb::{
    class_doc_path, classes_view, rst_to_md_with_links, spec_class_doc_path, spec_rst_links, AttrView, ClassDef,
    ClassView, MethodView,
};
use crate::text::{
    after_last_char, after_last_char_in, chars_of, decimal, eq_str, find_sub, find_sub_in, has_prefix, join,
    join_in, lowercase, push_chars, push_decimal, push_piece, push_str, replace_char, replace_char_in,
    rfind_char, rfind_in, slice, spec_lowercase, starts_with_str, to_string,
};

verus! {

/// Where the sources live upstream.
pub open spec fn blob_url() -> Seq<char> {
    "https://github.com/python-telegram-bot/python-telegram-bot/blob/master/"@
}

/// The path of a source file inside the repository: from its first `src/telegram` on, or the
/// whole path when it has none.
pub open spec fn repo_path(source_file: Seq<char>) -> Seq<char> {
    match find_sub(source_file, "src/telegram"@) {
        Some(k) => source_file.skip(k),
        None => source_file,
    }
}

/// The base classes as shown: each without its module prefix, in backticks.
pub open spec fn base_names(bases: Seq<Seq<char>>) -> Seq<Seq<char>> {
    bases.map_values(|b: Seq<char>| "`"@ + after_last_char(b, '.') + "`"@)
}

/// The block of one attribute.
pub open spec fn attr_block(a: AttrView, m: Map<Seq<char>, Seq<char>>, dp: Seq<char>, out: Seq<char>) -> Seq<char> {
    "### "@ + a.name + "\n\n"@
        + (if a.type_hint.len() > 0 { "**Type:** `"@ + a.type_hint + "`\n\n"@ } else { Seq::empty() })
        + (if a.docstring.len() > 0 { spec_rst_links(a.docstring, m, dp, out) + "\n"@ } else { Seq::empty() })
}

/// The blocks of the attributes, in order.
pub open spec fn attr_blocks(attrs: Seq<AttrView>, m: Map<Seq<char>, Seq<char>>, dp: Seq<char>, out: Seq<char>) -> Seq<char>
    decreases attrs.len(),
{
    if attrs.len() == 0 {
        Seq::empty()
    } else {
        attr_blocks(attrs.drop_last(), m, dp, out) + attr_block(attrs.last(), m, dp, out)
    }
}

/// The block of one method: its heading, its signature as Python, its docstring.
pub open spec fn method_block(me: MethodView, m: Map<Seq<char>, Seq<char>>, dp: Seq<char>, out: Seq<char>) -> Seq<char> {
    "### "@ + me.name + "\n\n"@ + "```python\n"@ + (if me.is_async { "async "@ } else { Seq::empty() }) + "def "@
        + me.name + "("@ + me.signature + ")\n```\n\n"@
        + (if me.docstring.len() > 0 { spec_rst_links(me.docstring, m, dp, out) + "\n"@ } else { Seq::empty() })
}

/// The blocks of the methods, in order.
pub open spec fn method_blocks(ms: Seq<MethodView>, m: Map<Seq<char>, Seq<char>>, dp: Seq<char>, out: Seq<char>) -> Seq<char>
    decreases ms.len(),
{
    if ms.len() == 0 {
        Seq::empty()
    } else {
        method_blocks(ms.drop_last(), m, dp, out) + method_block(ms.last(), m, dp, out)
    }
}

/// The frontmatter and title of a class page.
pub open spec fn class_head(c: ClassView, out: Seq<char>) -> Seq<char> {
    "---\ntitle: "@ + c.name + "\nsource: "@ + blob_url() + repo_path(c.source_file) + "\ntags:\n  - ptb\n  - "@ + out + "-"@
        + replace_char(c.namespace, '.', "-"@) + "\n---\n\n"@ + "# "@ + c.name + "\n\n"@
}

/// The bases line of a class page, when the class has bases.
pub open spec fn bases_part(c: ClassView) -> Seq<char> {
    if c.bases.len() > 0 { "**Inherits:** "@ + join(base_names(c.bases), ", "@) + "\n\n"@ } else { Seq::empty() }
}

/// The docstring of a class page, when the class has one.
pub open spec fn doc_part(c: ClassView, m: Map<Seq<char>, Seq<char>>, out: Seq<char>, dp: Seq<char>) -> Seq<char> {
    if c.docstring.len() > 0 { spec_rst_links(c.docstring, m, dp, out) + "\n\n"@ } else { Seq::empty() }
}

/// The attributes section of a class page, when the class has attributes.
pub open spec fn attrs_part(c: ClassView, m: Map<Seq<char>, Seq<char>>, out: Seq<char>, dp: Seq<char>) -> Seq<char> {
    if c.attrs.len() > 0 { "## Attributes\n\n"@ + attr_blocks(c.attrs, m, dp, out) } else { Seq::empty() }
}

/// The methods section of a class page, when the class has methods.
pub open spec fn methods_part(c: ClassView, m: Map<Seq<char>, Seq<char>>, out: Seq<char>, dp: Seq<char>) -> Seq<char> {
    if c.methods.len() > 0 { "## Methods\n\n"@ + method_blocks(c.methods, m, dp, out) } else { Seq::empty() }
}

/// The page of a class, its links resolved through the index map `m`.
pub open spec fn spec_render_class(c: ClassView, m: Map<Seq<char>, Seq<char>>, out: Seq<char>, dp: Seq<char>) -> Seq<char> {
    class_head(c, out) + bases_part(c) + doc_part(c, m, out, dp) + attrs_part(c, m, out, dp) + methods_part(c, m, out, dp)
}

fn class_head_exec(cls: &ClassDef, out_name: &str) -> (r: Vec<char>)
    ensures
        r@ == class_head(cls@, out_name@),
{
    let repo_rel = repo_rel_of(&cls.source_file);
    let mut md: Vec<char> = Vec::new();
    push_str(&mut md, "---\ntitle: ");
    push_str(&mut md, cls.name.as_str());
    push_str(&mut md, "\nsource: ");
    push_str(&mut md, "https://github.com/python-telegram-bot/python-telegram-bot/blob/master/");
    push_chars(&mut md, &repo_rel);
    push_str(&mut md, "\ntags:\n  - ptb\n  - ");
    push_str(&mut md, out_name);
    push_str(&mut md, "-");
    push_chars(&mut md, &replace_char_in(&chars_of(cls.namespace.as_str()), '.', "-"));
    push_str(&mut md, "\n---\n\n");
    push_str(&mut md, "# ");
    push_str(&mut md, cls.name.as_str());
    push_str(&mut md, "\n\n");
    proof {
        assert(md@ =~= class_head(cls@, out_name@));
    }
    md
}

fn repo_rel_of(source_file: &String) -> (r: Vec<char>)
    ensures
        r@ == repo_path(source_file@),
{
    let sf = chars_of(source_file.as_str());
    match find_sub_in(&sf, "src/telegram") {
        Some(k) => {
            proof {
                assert(sf@.skip(k as int) =~= sf@.subrange(k as int, sf@.len() as int));
            }
            slice(&sf, k, sf.len())
        },
        None => sf,
    }
}

fn bases_text(bases: &Vec<String>) -> (r: Vec<char>)
    ensures
        r@ == join(base_names(bases.deep_view()), ", "@),
{
    let ghost bv = bases.deep_view();
    let mut shown: Vec<Vec<char>> = Vec::new();
    let mut i: usize = 0;
    while i < bases.len()
        invariant
            i <= bases@.len(),
            bv == bases.deep_view(),
            shown.deep_view() =~= base_names(bv).take(i as int),
        decreases bases@.len() - i,
    {
        let mut piece: Vec<char> = Vec::new();
        push_str(&mut piece, "`");
        push_chars(&mut piece, &after_last_char_in(&chars_of(bases[i].as_str()), '.'));
        push_str(&mut piece, "`");
        proof {
            assert(bv[i as int] == bases@[i as int]@);
            assert(base_names(bv).take(i + 1) =~= base_names(bv).take(i as int).push(piece@));
        }
        push_piece(&mut shown, piece);
        i = i + 1;
    }
    proof {
        assert(base_names(bv).take(bases@.len() as int) =~= base_names(bv));
    }
    join_in(&shown, ", ")
}

fn push_attr_blocks(md: &mut Vec<char>, attrs: &Vec<crate::ptb::AttrDef>, index: &AnchorIndex, doc_path: &str, out_name: &str)
    ensures
        final(md)@ == old(md)@ + attr_blocks(attrs@.map_values(|a: crate::ptb::AttrDef| a@), index@, doc_path@, out_name@),
{
    let ghost av = attrs@.map_values(|a: crate::ptb::AttrDef| a@);
    let ghost h = md@;
    let mut i: usize = 0;
    proof {
        assert(av.take(0) =~= Seq::<AttrView>::empty());
    }
    while i < attrs.len()
        invariant
            i <= attrs@.len(),
            av == attrs@.map_values(|a: crate::ptb::AttrDef| a@),
            md@ == h + attr_blocks(av.take(i as int), index@, doc_path@, out_name@),
        decreases attrs@.len() - i,
    {
        let a = &attrs[i];
        proof {
            assert(av[i as int] == a@);
            assert(av.take(i + 1).drop_last() =~= av.take(i as int));
        }
        let ghost before = md@;
        push_str(md, "### ");
        push_str(md, a.name.as_str());
        push_str(md, "\n\n");
        if a.type_hint.as_str().is_empty() == false {
            push_str(md, "**Type:** `");
            push_str(md, a.type_hint.as_str());
            push_str(md, "`\n\n");
        }
        if a.docstring.as_str().is_empty() == false {
            let d = rst_to_md_with_links(a.docstring.as_str(), index, doc_path, out_name);
            push_str(md, d.as_str());
            push_str(md, "\n");
        }
        proof {
            assert(md@ =~= before + attr_block(a@, index@, doc_path@, out_name@));
        }
        i = i + 1;
    }
    proof {
        assert(av.take(attrs@.len() as int) =~= av);
    }
}

fn method_block_exec(me: &crate::ptb::MethodDef, index: &AnchorIndex, doc_path: &str, out_name: &str) -> (r: Vec<char>)
    ensures
        r@ == method_block(me@, index@, doc_path@, out_name@),
{
    let mut md: Vec<char> = Vec::new();
    push_str(&mut md, "### ");
    push_str(&mut md, me.name.as_str());
    push_str(&mut md, "\n\n");
    push_str(&mut md, "```python\n");
    if me.is_async {
        push_str(&mut md, "async ");
    }
    push_str(&mut md, "def ");
    push_str(&mut md, me.name.as_str());
    push_str(&mut md, "(");
    push_str(&mut md, me.signature.as_str());
    push_str(&mut md, ")\n```\n\n");
    let ghost p = md@;
    if me.docstring.as_str().is_empty() == false {
        let d = rst_to_md_with_links(me.docstring.as_str(), index, doc_path, out_name);
        push_str(&mut md, d.as_str());
        push_str(&mut md, "\n");
    }
    proof {
        assert(md@ =~= method_block(me@, index@, doc_path@, out_name@));
    }
    md
}

fn push_method_blocks(md: &mut Vec<char>, methods: &Vec<crate::ptb::MethodDef>, index: &AnchorIndex, doc_path: &str, out_name: &str)
    ensures
        final(md)@ == old(md)@ + method_blocks(methods@.map_values(|m: crate::ptb::MethodDef| m@), index@, doc_path@, out_name@),
{
    let ghost mv = methods@.map_values(|m: crate::ptb::MethodDef| m@);
    let ghost h = md@;
    let mut i: usize = 0;
    proof {
        assert(mv.take(0) =~= Seq::<MethodView>::empty());
    }
    while i < methods.len()
        invariant
            i <= methods@.len(),
            mv == methods@.map_values(|m: crate::ptb::MethodDef| m@),
            md@ == h + method_blocks(mv.take(i as int), index@, doc_path@, out_name@),
        decreases methods@.len() - i,
    {
        let me = &methods[i];
        proof {
            assert(mv[i as int] == me@);
            assert(mv.take(i + 1).drop_last() =~= mv.take(i as int));
        }
        let block = method_block_exec(me, index, doc_path, out_name);
        push_chars(md, &block);
        proof {
            assert(method_blocks(mv.take(i + 1), index@, doc_path@, out_name@)
                == method_blocks(mv.take(i as int), index@, doc_path@, out_name@) + method_block(me@, index@, doc_path@, out_name@));
        }
        i = i + 1;
    }
    proof {
        assert(mv.take(methods@.len() as int) =~= mv);
    }
}

fn bases_part_exec(cls: &ClassDef) -> (r: Vec<char>)
    ensures
        r@ == bases_part(cls@),
{
    let mut md: Vec<char> = Vec::new();
    if cls.bases.len() > 0 {
        push_str(&mut md, "**Inherits:** ");
        push_chars(&mut md, &bases_text(&cls.bases));
        push_str(&mut md, "\n\n");
    }
    proof {
        assert(md@ =~= bases_part(cls@));
    }
    md
}

fn doc_part_exec(cls: &ClassDef, index: &AnchorIndex, out_name: &str, doc_path: &str) -> (r: Vec<char>)
    ensures
        r@ == doc_part(cls@, index@, out_name@, doc_path@),
{
    let mut md: Vec<char> = Vec::new();
    if cls.docstring.as_str().is_empty() == false {
        let d = rst_to_md_with_links(cls.docstring.as_str(), index, doc_path, out_name);
        push_str(&mut md, d.as_str());
        push_str(&mut md, "\n\n");
    }
    proof {
        assert(md@ =~= doc_part(cls@, index@, out_name@, doc_path@));
    }
    md
}

fn attrs_part_exec(cls: &ClassDef, index: &AnchorIndex, out_name: &str, doc_path: &str) -> (r: Vec<char>)
    ensures
        r@ == attrs_part(cls@, index@, out_name@, doc_path@),
{
    let mut md: Vec<char> = Vec::new();
    if cls.attrs.len() > 0 {
        push_str(&mut md, "## Attributes\n\n");
        push_attr_blocks(&mut md, &cls.attrs, index, doc_path, out_name);
    }
    proof {
        assert(md@ =~= attrs_part(cls@, index@, out_name@, doc_path@));
    }
    md
}

fn methods_part_exec(cls: &ClassDef, index: &AnchorIndex, out_name: &str, doc_path: &str) -> (r: Vec<char>)
    ensures
        r@ == methods_part(cls@, index@, out_name@, doc_path@),
{
    let mut md: Vec<char> = Vec::new();
    if cls.methods.len() > 0 {
        push_str(&mut md, "## Methods\n\n");
        push_method_blocks(&mut md, &cls.methods, index, doc_path, out_name);
    }
    proof {
        assert(md@ =~= methods_part(cls@, index@, out_name@, doc_path@));
    }
    md
}

/// Renders the page of a class: frontmatter with its source URL and namespace tag, title,
/// bases, docstring, attributes and methods, with `:class:` and `:meth:` roles made links.
pub fn render_class(cls: &ClassDef, index: &AnchorIndex, cfg: &SourceConfig, doc_path: &str) -> (r: String)
    ensures
        r@ == spec_render_class(cls@, index@, cfg.out@, doc_path@),
{
    let out_name = cfg.out.as_str();
    let mut md = class_head_exec(cls, out_name);
    push_chars(&mut md, &bases_part_exec(cls));
    push_chars(&mut md, &doc_part_exec(cls, index, out_name, doc_path));
    push_chars(&mut md, &attrs_part_exec(cls, index, out_name, doc_path));
    push_chars(&mut md, &methods_part_exec(cls, index, out_name, doc_path));
    to_string(&md)
}


/// The index key of a method: class and method names lower-cased, joined by `.`.
pub open spec fn method_anchor(c: ClassView, me: MethodView) -> Seq<char> {
    spec_lowercase(c.name) + "."@ + spec_lowercase(me.name)
}

/// The index map after registering the first `k` methods of a class whose page is `page`:
/// each method's anchor points at `page#method`.
pub open spec fn register_methods(m: Map<Seq<char>, Seq<char>>, c: ClassView, page: Seq<char>, k: int) -> Map<Seq<char>, Seq<char>>
    decreases k,
{
    if k <= 0 {
        m
    } else {
        let me = c.methods[k - 1];
        register_methods(m, c, page, k - 1).insert(spec_lowercase(method_anchor(c, me)), spec_target(page, me.name))
    }
}

/// The index map of the first `n` classes, pages under the output name `out`: each class
/// name (lower-cased) points at `out/<doc path>#<class name>`, then each of its methods as
/// `register_methods` says.
pub open spec fn spec_ptb_index(cs: Seq<ClassView>, out: Seq<char>, n: int) -> Map<Seq<char>, Seq<char>>
    decreases n,
{
    if n <= 0 {
        Map::empty()
    } else {
        let c = cs[n - 1];
        let page = out + "/"@ + spec_class_doc_path(c.namespace, c.name);
        register_methods(
            spec_ptb_index(cs, out, n - 1).insert(spec_lowercase(spec_lowercase(c.name)), spec_target(page, c.name)),
            c,
            page,
            c.methods.len() as int,
        )
    }
}

/// Builds the anchor index of the classes, so that `:class:` and `:meth:` roles resolve
/// across pages: `bot` points at `out/telegram/Bot#Bot`, `bot.send_message` at
/// `out/telegram/Bot#send_message`.
pub fn ptb_anchor_index(classes: &Vec<ClassDef>, out_name: &str) -> (r: AnchorIndex)
    ensures
        r@ == spec_ptb_index(classes_view(classes@), out_name@, classes@.len() as int),
{
    let ghost cs = classes_view(classes@);
    let mut index = AnchorIndex::new();
    let mut i: usize = 0;
    while i < classes.len()
        invariant
            i <= classes@.len(),
            cs == classes_view(classes@),
            index@ == spec_ptb_index(cs, out_name@, i as int),
        decreases classes@.len() - i,
    {
        let cls = &classes[i];
        proof {
            assert(cs[i as int] == cls@);
        }
        let doc_path = class_doc_path(cls.namespace.as_str(), cls.name.as_str());
        let mut page_chars = chars_of(out_name);
        push_str(&mut page_chars, "/");
        push_str(&mut page_chars, doc_path.as_str());
        let page = to_string(&page_chars);
        let low = lowercase(cls.name.as_str());
        index.register(low.as_str(), page.as_str(), cls.name.as_str());
        let ghost m0 = index@;
        let mut k: usize = 0;
        while k < cls.methods.len()
            invariant
                k <= cls.methods@.len(),
                cs == classes_view(classes@),
                cls@ == cs[i as int],
                page@ == out_name@ + "/"@ + spec_class_doc_path(cls@.namespace, cls@.name),
                low@ == spec_lowercase(cls@.name),
                index@ == register_methods(m0, cls@, page@, k as int),
            decreases cls.methods@.len() - k,
        {
            let me = &cls.methods[k];
            proof {
                assert(cls@.methods[k as int] == me@);
            }
            let mut anchor: Vec<char> = Vec::new();
            push_str(&mut anchor, low.as_str());
            push_str(&mut anchor, ".");
            push_str(&mut anchor, lowercase(me.name.as_str()).as_str());
            index.register(to_string(&anchor).as_str(), page.as_str(), me.name.as_str());
            k = k + 1;
        }
        i = i + 1;
    }
    index
}

/// Where the project lives upstream.
pub open spec fn repo_url() -> Seq<char> {
    "https://github.com/python-telegram-bot/python-telegram-bot"@
}

/// The (namespace, position) pairs of the classes, grouped to make the namespace indexes.
pub open spec fn class_namespaces(cs: Seq<ClassView>) -> Seq<(Seq<char>, usize)> {
    Seq::new(cs.len(), |i: int| (cs[i].namespace, i as usize))
}

/// The link lines of a namespace's classes, in order.
pub open spec fn ns_links(out: Seq<char>, ns_path: Seq<char>, cs: Seq<ClassView>, idxs: Seq<usize>) -> Seq<char>
    decreases idxs.len(),
{
    if idxs.len() == 0 {
        Seq::empty()
    } else if idxs.last() < cs.len() {
        let c = cs[idxs.last() as int];
        ns_links(out, ns_path, cs, idxs.drop_last()) + "- [["@ + out + "/"@ + ns_path + "/"@ + c.name + "|"@ + c.name + "]]\n"@
    } else {
        ns_links(out, ns_path, cs, idxs.drop_last())
    }
}

/// The index page of a namespace.
pub open spec fn spec_ns_index(out: Seq<char>, ns: Seq<char>, cs: Seq<ClassView>, idxs: Seq<usize>) -> Seq<char> {
    "---\ntitle: "@ + ns + "\nsource: "@ + repo_url() + "\ntags:\n  - ptb\n  - "@ + replace_char(ns, '.', "-"@) + "\n---\n\n# "@
        + ns + "\n\n"@ + ns_links(out, replace_char(ns, '.', "/"@), cs, idxs)
}

/// The link lines of the namespaces, in order.
pub open spec fn top_ns_links(out: Seq<char>, nss: Seq<Seq<char>>) -> Seq<char>
    decreases nss.len(),
{
    if nss.len() == 0 {
        Seq::empty()
    } else {
        top_ns_links(out, nss.drop_last()) + "- [["@ + out + "/"@ + replace_char(nss.last(), '.', "/"@) + "/index|"@ + nss.last() + "]]\n"@
    }
}

/// The top index page: the namespaces, then the changelog.
pub open spec fn spec_ptb_top_index(out: Seq<char>, nss: Seq<Seq<char>>) -> Seq<char> {
    "---\ntitle: python-telegram-bot\nsource: "@ + repo_url() + "\ntags:\n  - ptb\n---\n\n# python-telegram-bot\n\n"@
        + top_ns_links(out, nss) + "- [["@ + out + "/changelog/index|Changelog]]\n"@
}

/// A class's page: `<doc path>.md` and its content, its links seen from `out/<doc path>`.
pub open spec fn class_file(c: ClassView, m: Map<Seq<char>, Seq<char>>, out: Seq<char>) -> (Seq<char>, Seq<char>) {
    let dp = spec_class_doc_path(c.namespace, c.name);
    (dp + ".md"@, spec_render_class(c, m, out, out + "/"@ + dp))
}

/// The index files: each namespace's index (namespaces in increasing order), then the top
/// index.
pub open spec fn spec_namespace_files(cs: Seq<ClassView>, out: Seq<char>) -> Seq<(Seq<char>, Seq<char>)> {
    let groups = spec_group_all(class_namespaces(cs));
    groups.map_values(|g: (Seq<char>, Seq<usize>)| (replace_char(g.0, '.', "/"@) + "/index.md"@, spec_ns_index(out, g.0, cs, g.1)))
        + seq![("index.md"@, spec_ptb_top_index(out, groups.map_values(|g: (Seq<char>, Seq<usize>)| g.0)))]
}

/// The class pages and indexes, paths relative to the output directory: each class's page,
/// then the index files.
pub open spec fn spec_plan_classes(cs: Seq<ClassView>, out: Seq<char>) -> Seq<(Seq<char>, Seq<char>)> {
    let m = spec_ptb_index(cs, out, cs.len() as int);
    cs.map_values(|c: ClassView| class_file(c, m, out)) + spec_namespace_files(cs, out)
}

fn ns_index(out_name: &str, ns: &Vec<char>, classes: &Vec<ClassDef>, idxs: &Vec<usize>) -> (r: String)
    ensures
        r@ == spec_ns_index(out_name@, ns@, classes_view(classes@), idxs@),
{
    let ghost cs = classes_view(classes@);
    let ns_path = replace_char_in(ns, '.', "/");
    let mut out: Vec<char> = Vec::new();
    push_str(&mut out, "---\ntitle: ");
    push_chars(&mut out, ns);
    push_str(&mut out, "\nsource: ");
    push_str(&mut out, "https://github.com/python-telegram-bot/python-telegram-bot");
    push_str(&mut out, "\ntags:\n  - ptb\n  - ");
    push_chars(&mut out, &replace_char_in(ns, '.', "-"));
    push_str(&mut out, "\n---\n\n# ");
    push_chars(&mut out, ns);
    push_str(&mut out, "\n\n");
    let ghost h = out@;
    let mut i: usize = 0;
    while i < idxs.len()
        invariant
            i <= idxs@.len(),
            cs == classes_view(classes@),
            ns_path@ == replace_char(ns@, '.', "/"@),
            out@ == h + ns_links(out_name@, ns_path@, cs, idxs@.take(i as int)),
        decreases idxs@.len() - i,
    {
        proof {
            assert(idxs@.take(i + 1).drop_last() =~= idxs@.take(i as int));
            assert(idxs@.take(i + 1).last() == idxs@[i as int]);
        }
        let ix = idxs[i];
        if ix < classes.len() {
            let c = &classes[ix];
            proof {
                assert(cs[ix as int] == c@);
            }
            push_str(&mut out, "- [[");
            push_str(&mut out, out_name);
            push_str(&mut out, "/");
            push_chars(&mut out, &ns_path);
            push_str(&mut out, "/");
            push_str(&mut out, c.name.as_str());
            push_str(&mut out, "|");
            push_str(&mut out, c.name.as_str());
            push_str(&mut out, "]]\n");
        }
        i = i + 1;
    }
    proof {
        assert(idxs@.take(idxs@.len() as int) =~= idxs@);
    }
    to_string(&out)
}

fn ptb_top_index(out_name: &str, nss: &Vec<Vec<char>>) -> (r: String)
    ensures
        r@ == spec_ptb_top_index(out_name@, nss.deep_view()),
{
    let ghost nv = nss.deep_view();
    let mut out: Vec<char> = Vec::new();
    push_str(&mut out, "---\ntitle: python-telegram-bot\nsource: ");
    push_str(&mut out, "https://github.com/python-telegram-bot/python-telegram-bot");
    push_str(&mut out, "\ntags:\n  - ptb\n---\n\n# python-telegram-bot\n\n");
    let ghost h = out@;
    let mut i: usize = 0;
    while i < nss.len()
        invariant
            i <= nss@.len(),
            nv == nss.deep_view(),
            out@ == h + top_ns_links(out_name@, nv.take(i as int)),
        decreases nss@.len() - i,
    {
        proof {
            assert(nv.take(i + 1).drop_last() =~= nv.take(i as int));
            assert(nv.take(i + 1).last() == nss@[i as int]@);
        }
        push_str(&mut out, "- [[");
        push_str(&mut out, out_name);
        push_str(&mut out, "/");
        push_chars(&mut out, &replace_char_in(&nss[i], '.', "/"));
        push_str(&mut out, "/index|");
        push_chars(&mut out, &nss[i]);
        push_str(&mut out, "]]\n");
        i = i + 1;
    }
    proof {
        assert(nv.take(nss@.len() as int) =~= nv);
    }
    push_str(&mut out, "- [[");
    push_str(&mut out, out_name);
    push_str(&mut out, "/changelog/index|Changelog]]\n");
    to_string(&out)
}

/// Adds the index files of the namespaces and the top index to the files to write: (path
/// relative to the output directory, content).
pub fn write_namespace_indexes(classes: &Vec<ClassDef>, cfg: &SourceConfig, files: &mut Vec<(String, String)>)
    ensures
        final(files).deep_view() == old(files).deep_view() + spec_namespace_files(classes_view(classes@), cfg.out@),
{
    let ghost cs = classes_view(classes@);
    let out_name = cfg.out.as_str();
    let mut groups: SortedGroups<usize> = SortedGroups::new();
    let mut i: usize = 0;
    proof {
        assert(class_namespaces(cs).take(0) =~= Seq::<(Seq<char>, usize)>::empty());
    }
    while i < classes.len()
        invariant
            i <= classes@.len(),
            cs == classes_view(classes@),
            groups@ == spec_group_all(class_namespaces(cs).take(i as int)),
        decreases classes@.len() - i,
    {
        groups.insert(chars_of(classes[i].namespace.as_str()), i);
        proof {
            assert(cs[i as int] == classes@[i as int]@);
            let cn = class_namespaces(cs);
            assert(cn.take(i + 1).drop_last() =~= cn.take(i as int));
            assert(cn.take(i + 1).last() == (cs[i as int].namespace, i));
        }
        i = i + 1;
    }
    proof {
        assert(class_namespaces(cs).take(classes@.len() as int) =~= class_namespaces(cs));
    }
    let ghost gv = groups@;
    let ghost start = files.deep_view();
    let mut nss: Vec<Vec<char>> = Vec::new();
    let mut g: usize = 0;
    proof {
        assert(start + gv.take(0).map_values(|x: (Seq<char>, Seq<usize>)| (
            replace_char(x.0, '.', "/"@) + "/index.md"@,
            spec_ns_index(cfg.out@, x.0, cs, x.1),
        )) =~= start);
    }
    while g < groups.len()
        invariant
            g <= groups@.len(),
            gv == groups@,
            cs == classes_view(classes@),
            out_name@ == cfg.out@,
            gv == spec_group_all(class_namespaces(cs)),
            nss.deep_view() =~= gv.take(g as int).map_values(|x: (Seq<char>, Seq<usize>)| x.0),
            files.deep_view() == start + gv.take(g as int).map_values(|x: (Seq<char>, Seq<usize>)| (
                replace_char(x.0, '.', "/"@) + "/index.md"@,
                spec_ns_index(cfg.out@, x.0, cs, x.1),
            )),
        decreases groups@.len() - g,
    {
        let key = groups.key(g);
        let idxs = groups.values(g);
        proof {
            assert(idxs@.map_values(|x: usize| x@) =~= idxs@);
            assert(idxs@ == gv[g as int].1);
            assert(key@ == gv[g as int].0);
        }
        let mut path = replace_char_in(key, '.', "/");
        push_str(&mut path, "/index.md");
        let idx = ns_index(out_name, key, classes, idxs);
        push_file(files, path, idx);
        push_piece(&mut nss, slice(key, 0, key.len()));
        proof {
            assert(key@.subrange(0, key@.len() as int) =~= key@);
            let f = |x: (Seq<char>, Seq<usize>)| (
                replace_char(x.0, '.', "/"@) + "/index.md"@,
                spec_ns_index(cfg.out@, x.0, cs, x.1),
            );
            assert(gv.take(g + 1).map_values(f) =~= gv.take(g as int).map_values(f).push(f(gv[g as int])));
            let h = |x: (Seq<char>, Seq<usize>)| x.0;
            assert(gv.take(g + 1).map_values(h) =~= gv.take(g as int).map_values(h).push(h(gv[g as int])));
        }
        g = g + 1;
    }
    proof {
        assert(gv.take(groups@.len() as int) =~= gv);
    }
    let top = ptb_top_index(out_name, &nss);
    push_file(files, chars_of("index.md"), top);
}

/// The class pages and indexes to write: (path relative to the output directory, content).
pub fn plan_ptb_classes(classes: &Vec<ClassDef>, cfg: &SourceConfig) -> (r: Vec<(String, String)>)
    ensures
        r.deep_view() == spec_plan_classes(classes_view(classes@), cfg.out@),
{
    let ghost cs = classes_view(classes@);
    let out_name = cfg.out.as_str();
    let index = ptb_anchor_index(classes, out_name);
    let mut files: Vec<(String, String)> = Vec::new();
    let mut i: usize = 0;
    proof {
        assert(cs.take(0).map_values(|c: ClassView| class_file(c, index@, cfg.out@)) =~= Seq::<(Seq<char>, Seq<char>)>::empty());
        assert(files.deep_view() =~= Seq::<(Seq<char>, Seq<char>)>::empty());
    }
    while i < classes.len()
        invariant
            i <= classes@.len(),
            cs == classes_view(classes@),
            index@ == spec_ptb_index(cs, cfg.out@, cs.len() as int),
            out_name@ == cfg.out@,
            files.deep_view() == cs.take(i as int).map_values(|c: ClassView| class_file(c, index@, cfg.out@)),
        decreases classes@.len() - i,
    {
        let cls = &classes[i];
        let doc_path = class_doc_path(cls.namespace.as_str(), cls.name.as_str());
        let mut path = chars_of(doc_path.as_str());
        push_str(&mut path, ".md");
        let mut page = chars_of(out_name);
        push_str(&mut page, "/");
        push_str(&mut page, doc_path.as_str());
        let md = render_class(cls, &index, cfg, to_string(&page).as_str());
        push_file(&mut files, path, md);
        proof {
            assert(cs[i as int] == cls@);
            let f = |c: ClassView| class_file(c, index@, cfg.out@);
            assert(cs.take(i + 1).map_values(f) =~= cs.take(i as int).map_values(f).push(f(cs[i as int])));
        }
        i = i + 1;
    }
    proof {
        assert(cs.take(classes@.len() as int) =~= cs);
    }
    write_namespace_indexes(classes, cfg, &mut files);
    files
}

/// The dry-run line of a class.
pub open spec fn class_line(c: ClassView) -> Seq<char> {
    "[ptb] "@ + c.namespace + "."@ + c.name + " ("@ + decimal(c.methods.len()) + " methods, "@ + decimal(c.attrs.len())
        + " attrs)"@
}

/// The dry-run listing: one line per class, then the number of changelog entries.
pub open spec fn spec_ptb_dry(cs: Seq<ClassView>, n_entries: nat) -> Seq<Seq<char>> {
    cs.map_values(|c: ClassView| class_line(c)).push("[ptb] "@ + decimal(n_entries) + " changelog entries"@)
}

/// The lines a dry run prints.
pub fn ptb_dry_lines(classes: &Vec<ClassDef>, n_entries: usize) -> (r: Vec<String>)
    ensures
        r.deep_view() == spec_ptb_dry(classes_view(classes@), n_entries as nat),
{
    let ghost cs = classes_view(classes@);
    let mut lines: Vec<String> = Vec::new();
    let mut i: usize = 0;
    proof {
        assert(lines.deep_view() =~= cs.take(0).map_values(|c: ClassView| class_line(c)));
    }
    while i < classes.len()
        invariant
            i <= classes@.len(),
            cs == classes_view(classes@),
            lines.deep_view() =~= cs.take(i as int).map_values(|c: ClassView| class_line(c)),
        decreases classes@.len() - i,
    {
        let c = &classes[i];
        let mut l: Vec<char> = Vec::new();
        push_str(&mut l, "[ptb] ");
        push_str(&mut l, c.namespace.as_str());
        push_str(&mut l, ".");
        push_str(&mut l, c.name.as_str());
        push_str(&mut l, " (");
        push_decimal(&mut l, c.methods.len());
        push_str(&mut l, " methods, ");
        push_decimal(&mut l, c.attrs.len());
        push_str(&mut l, " attrs)");
        proof {
            assert(cs[i as int] == c@);
            assert(c@.methods.len() == c.methods@.len());
            assert(c@.attrs.len() == c.attrs@.len());
            let f = |x: ClassView| class_line(x);
            assert(cs.take(i + 1).map_values(f) =~= cs.take(i as int).map_values(f).push(f(cs[i as int])));
        }
        crate::text::push_deep(&mut lines, to_string(&l));
        i = i + 1;
    }
    proof {
        assert(cs.take(classes@.len() as int) =~= cs);
    }
    let mut last: Vec<char> = Vec::new();
    push_str(&mut last, "[ptb] ");
    push_decimal(&mut last, n_entries);
    push_str(&mut last, " changelog entries");
    crate::text::push_deep(&mut lines, to_string(&last));
    lines
}


/// What the walk over the Python sources does with one directory entry.
pub enum WalkStep {
    /// Read the subdirectory `name` as the namespace `namespace`.
    Descend { name: String, namespace: String },
    /// Parse the classes of the file `name`.
    Parse { name: String },
}

/// The view of a walk step.
pub ghost enum StepView {
    Descend { name: Seq<char>, namespace: Seq<char> },
    Parse { name: Seq<char> },
}

impl View for WalkStep {
    type V = StepView;

    open spec fn view(&self) -> StepView {
        match self {
            WalkStep::Descend { name, namespace } => StepView::Descend { name: name@, namespace: namespace@ },
            WalkStep::Parse { name } => StepView::Parse { name: name@ },
        }
    }
}

/// The extension of a file name (`Path::extension`): what follows its last `.`, unless the
/// name is `..` or that `.` is its first character.
pub open spec fn extension(name: Seq<char>) -> Option<Seq<char>> {
    if name == ".."@ {
        None
    } else {
        match rfind_char(name, '.') {
            Some(k) => if k > 0 { Some(name.skip(k + 1)) } else { None },
            None => None,
        }
    }
}

/// What one entry (name, whether it is a directory) of the namespace `ns` gives: a
/// subdirectory not starting with `_` is descended into as `ns.name`; a `.py` file not
/// starting with `__` is parsed; anything else is skipped.
pub open spec fn entry_step(e: (Seq<char>, bool), ns: Seq<char>) -> Option<StepView> {
    if e.1 {
        if has_prefix(e.0, "_"@) || e.0 == "__pycache__"@ {
            None
        } else {
            Some(StepView::Descend { name: e.0, namespace: ns + "."@ + e.0 })
        }
    } else if extension(e.0) == Some("py"@) && !has_prefix(e.0, "__"@) {
        Some(StepView::Parse { name: e.0 })
    } else {
        None
    }
}

/// The steps of the first `n` entries in `order`.
pub open spec fn walk_fold(es: Seq<(Seq<char>, bool)>, order: Seq<int>, ns: Seq<char>, n: int) -> Seq<StepView>
    decreases n,
{
    if n <= 0 {
        Seq::empty()
    } else {
        let rest = walk_fold(es, order, ns, n - 1);
        match entry_step(es[order[n - 1]], ns) {
            Some(s) => rest.push(s),
            None => rest,
        }
    }
}

/// The steps of a directory listing, entries taken in name order.
pub open spec fn spec_walk_steps(es: Seq<(Seq<char>, bool)>, ns: Seq<char>) -> Seq<StepView> {
    walk_fold(es, sort_order(es.map_values(|e: (Seq<char>, bool)| e.0), es.len() as int), ns, es.len() as int)
}

fn extension_is_py(name: &Vec<char>) -> (r: bool)
    ensures
        r == (extension(name@) == Some("py"@)),
{
    proof {
        reveal_strlit("..");
        reveal_strlit("py");
    }
    if eq_str(name, "..") {
        return false;
    }
    match rfind_in(name, '.') {
        Some(k) => {
            if k == 0 {
                return false;
            }
            let ext = slice(name, k + 1, name.len());
            proof {
                assert(ext@ =~= name@.skip(k + 1));
            }
            eq_str(&ext, "py")
        },
        None => false,
    }
}

/// The steps of the walk over one directory of the Python sources, from its listing (entry
/// name, whether it is a directory), in name order.
pub fn walk_steps(entries: &Vec<(String, bool)>, namespace: &str) -> (r: Vec<WalkStep>)
    ensures
        r@.map_values(|s: WalkStep| s@) == spec_walk_steps(entries.deep_view(), namespace@),
{
    let ghost ev = entries.deep_view();
    let mut names: Vec<Vec<char>> = Vec::new();
    let mut i: usize = 0;
    while i < entries.len()
        invariant
            i <= entries@.len(),
            ev == entries.deep_view(),
            names.deep_view() =~= ev.map_values(|e: (Seq<char>, bool)| e.0).take(i as int),
        decreases entries@.len() - i,
    {
        proof {
            assert(ev[i as int] == entries@[i as int].deep_view());
            assert(ev.map_values(|e: (Seq<char>, bool)| e.0).take(i + 1)
                =~= ev.map_values(|e: (Seq<char>, bool)| e.0).take(i as int).push(entries@[i as int].0@));
        }
        push_piece(&mut names, chars_of(entries[i].0.as_str()));
        i = i + 1;
    }
    proof {
        assert(ev.map_values(|e: (Seq<char>, bool)| e.0).take(entries@.len() as int) =~= ev.map_values(|e: (Seq<char>, bool)| e.0));
        assert(names.deep_view().len() == names@.len());
    }
    let order = sorted_order(&names);
    let ghost ov = order@.map_values(|x: usize| x as int);
    let mut steps: Vec<WalkStep> = Vec::new();
    let mut n: usize = 0;
    proof {
        assert(steps@.map_values(|s: WalkStep| s@) =~= Seq::<StepView>::empty());
    }
    while n < order.len()
        invariant
            n <= order@.len(),
            order@.len() == entries@.len(),
            forall|a: int| 0 <= a < order@.len() ==> (#[trigger] order@[a]) < entries@.len(),
            ev == entries.deep_view(),
            ov == order@.map_values(|x: usize| x as int),
            ov == sort_order(ev.map_values(|e: (Seq<char>, bool)| e.0), ev.len() as int),
            steps@.map_values(|s: WalkStep| s@) == walk_fold(ev, ov, namespace@, n as int),
        decreases order@.len() - n,
    {
        let idx = order[n];
        proof {
            assert(ov[n as int] == idx as int);
            assert(ev[idx as int] == entries@[idx as int].deep_view());
        }
        let name = chars_of(entries[idx].0.as_str());
        let ghost before = steps@;
        if entries[idx].1 {
            if !(starts_with_str(&name, "_") || eq_str(&name, "__pycache__")) {
                let mut ns = chars_of(namespace);
                push_str(&mut ns, ".");
                push_chars(&mut ns, &name);
                steps.push(WalkStep::Descend { name: to_string(&name), namespace: to_string(&ns) });
            }
        } else if extension_is_py(&name) && !starts_with_str(&name, "__") {
            steps.push(WalkStep::Parse { name: to_string(&name) });
        }
        proof {
            let f = |s: WalkStep| s@;
            if steps@.len() > before.len() {
                assert(steps@.map_values(f) =~= before.map_values(f).push(steps@.last()@));
            } else {
                assert(steps@ == before);
            }
        }
        n = n + 1;
    }
    steps
}

} // verus!
