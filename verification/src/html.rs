//! A plain model of a parsed HTML document: the tree that the conversion reads.
use vstd::prelude::*;

verus! {

/// What a node of the document is.
pub enum NodeKind {
    /// A text node.
    Text(String),
    /// An element: its local name and its attributes (prefix, namespace, local name, value).
    Element(String, Vec<(Option<String>, String, String, String)>),
    /// The document node, a comment, a doctype or a processing instruction.
    Other,
}

/// The view of a `NodeKind`: its strings as character sequences.
pub ghost enum KindView {
    Text(Seq<char>),
    Element(Seq<char>, Seq<(Option<Seq<char>>, Seq<char>, Seq<char>, Seq<char>)>),
    Other,
}

impl View for NodeKind {
    type V = KindView;

    open spec fn view(&self) -> KindView {
        match self {
            NodeKind::Text(t) => KindView::Text(t@),
            NodeKind::Element(name, attrs) => KindView::Element(name@, attrs.deep_view()),
            NodeKind::Other => KindView::Other,
        }
    }
}

/// A node of a pre-order walk, with its depth below the document node.
pub struct FlatNode {
    pub depth: usize,
    pub kind: NodeKind,
}

/// A node of the document tree with its children in document order.
pub struct HtmlNode {
    pub kind: NodeKind,
    pub children: Vec<HtmlNode>,
}

/// The view of a pre-order walk: (depth, kind) pairs.
pub open spec fn flat_view(s: Seq<FlatNode>) -> Seq<(int, KindView)> {
    s.map_values(|f: FlatNode| (f.depth as int, f.kind@))
}

/// The pre-order walk of a node placed at depth `d`.
pub open spec fn flatten(n: HtmlNode, d: int) -> Seq<(int, KindView)>
    decreases n,
{
    seq![(d, n.kind@)] + flatten_list(n.children@, d + 1)
}

/// The pre-order walk of a sequence of sibling nodes placed at depth `d`.
pub open spec fn flatten_list(s: Seq<HtmlNode>, d: int) -> Seq<(int, KindView)>
    decreases s,
{
    if s.len() == 0 {
        Seq::empty()
    } else {
        flatten_list(s.drop_last(), d) + flatten(s.last(), d)
    }
}


/// The shape of a pre-order walk of a tree: the first node is the root at depth 0, every
/// later node lies below the root, and no node lies more than one level below the node
/// before it.
pub open spec fn walk_wf(s: Seq<(int, KindView)>) -> bool {
    &&& s.len() >= 1
    &&& s[0].0 == 0
    &&& forall|i: int| 1 <= i < s.len() ==> 1 <= (#[trigger] s[i]).0 <= s[i - 1].0 + 1
}

/// The name of what `scraper::Html::parse_document` builds from a text, walked in pre-order
/// from the document node: each node with its depth and its kind.
pub uninterp spec fn spec_html_walk(html: Seq<char>) -> Seq<(int, KindView)>;

/// Parses `html` with `scraper::Html::parse_document` (html5ever) and walks the tree from the
/// document node with `ego_tree::NodeRef::descendants` (pre-order), giving each node its depth
/// (the number of its ancestors) and its kind; an element keeps its local name and its
/// attributes in the order the parse stores them, each as its prefix, namespace, local name and
/// value (so `xlink:href` in SVG is not taken for `href`). Claimed: the result is a function of the text
/// alone, named `spec_html_walk`, and has the shape of a pre-order walk (`walk_wf`), which is
/// what `descendants` and `ancestors` give by their source.
#[verifier::external_body]
fn html_walk(html: &str) -> (r: Vec<FlatNode>)
    ensures
        flat_view(r@) == spec_html_walk(html@),
        walk_wf(flat_view(r@)),
{
    scraper::Html::parse_document(html).tree.root().descendants().map(|n| FlatNode {
        depth: n.ancestors().count(),
        kind: match n.value() {
            scraper::Node::Text(t) => NodeKind::Text((&**t).to_string()),
            scraper::Node::Element(e) => NodeKind::Element(
                e.name().to_string(),
                e.attrs.iter().map(|(k, v)| {
                    (k.prefix.as_ref().map(|p| p.to_string()), k.ns.to_string(), k.local.to_string(), v.to_string())
                }).collect(),
            ),
            _ => NodeKind::Other,
        },
    }).collect()
}

fn copy_attrs(a: &Vec<(Option<String>, String, String, String)>) -> (r: Vec<(Option<String>, String, String, String)>)
    ensures
        r.deep_view() == a.deep_view(),
{
    let mut r: Vec<(Option<String>, String, String, String)> = Vec::new();
    let mut i: usize = 0;
    while i < a.len()
        invariant
            i <= a.len(),
            r@.len() == i,
            r.deep_view() =~= a.deep_view().take(i as int),
        decreases a.len() - i,
    {
        let pre = match &a[i].0 {
            Some(x) => Some(x.clone()),
            None => None,
        };
        let ns = a[i].1.clone();
        let k = a[i].2.clone();
        let v = a[i].3.clone();
        let ghost old_r = r@;
        let ghost old_d = r.deep_view();
        r.push((pre, ns, k, v));
        proof {
            assert(r@ == old_r.push(a@[i as int]));
            assert forall|j: int| 0 <= j <= i implies #[trigger] r.deep_view()[j] == a.deep_view()[j] by {
                if j < i {
                    assert(r@[j] == old_r[j]);
                    assert(old_d[j] == a.deep_view()[j]);
                }
            }
            assert(r.deep_view() =~= a.deep_view().take(i + 1));
        }
        i = i + 1;
    }
    proof {
        assert(r.deep_view() =~= a.deep_view());
    }
    r
}

fn copy_kind(k: &NodeKind) -> (r: NodeKind)
    ensures
        r@ == k@,
{
    match k {
        NodeKind::Text(t) => NodeKind::Text(t.clone()),
        NodeKind::Element(n, a) => NodeKind::Element(n.clone(), copy_attrs(a)),
        NodeKind::Other => NodeKind::Other,
    }
}

/// No node of the walk from `pos` on lies more than one level below the node before it.
pub open spec fn steps_ok(s: Seq<(int, KindView)>, pos: int) -> bool {
    forall|i: int| pos < i < s.len() ==> (#[trigger] s[i]).0 <= s[i - 1].0 + 1
}

proof fn lemma_flatten_list_len(s: Seq<HtmlNode>, d: int)
    ensures
        flatten_list(s, d).len() >= s.len(),
    decreases s.len(),
{
    if s.len() > 0 {
        lemma_flatten_list_len(s.drop_last(), d);
        assert(flatten(s.last(), d).len() >= 1);
    }
}

/// Builds the sibling nodes at depth `d` that the walk holds from `pos` on.
fn build_level(nodes: &Vec<FlatNode>, pos: usize, d: usize) -> (r: (Vec<HtmlNode>, usize))
    requires
        pos <= nodes.len(),
    ensures
        pos <= r.1 <= nodes.len(),
        flatten_list(r.0@, d as int) == flat_view(nodes@).subrange(pos as int, r.1 as int),
        r.1 < nodes.len() ==> nodes@[r.1 as int].depth != d,
        steps_ok(flat_view(nodes@), pos as int) && (pos < nodes.len() ==> nodes@[pos as int].depth <= d)
            ==> (r.1 < nodes.len() ==> nodes@[r.1 as int].depth < d),
    decreases nodes.len() - pos,
{
    let ghost fv = flat_view(nodes@);
    let ghost good = steps_ok(fv, pos as int) && (pos < nodes.len() ==> nodes@[pos as int].depth <= d);
    let mut out: Vec<HtmlNode> = Vec::new();
    let mut p: usize = pos;
    while p < nodes.len() && nodes[p].depth == d
        invariant
            pos <= p <= nodes.len(),
            fv == flat_view(nodes@),
            good == (steps_ok(fv, pos as int) && (pos < nodes.len() ==> nodes@[pos as int].depth <= d)),
            flatten_list(out@, d as int) == fv.subrange(pos as int, p as int),
            good ==> (p < nodes.len() ==> nodes@[p as int].depth <= d),
        decreases nodes.len() - p,
    {
        let kind = copy_kind(&nodes[p].kind);
        let ghost kv = kind@;
        let (kids, q) = if d < usize::MAX {
            build_level(nodes, p + 1, d + 1)
        } else {
            (Vec::new(), p + 1)
        };
        proof {
            assert(fv[p as int] == (d as int, kv));
            if d == usize::MAX {
                assert(kids@ =~= Seq::<HtmlNode>::empty());
            }
            assert(flatten_list(kids@, d + 1) == fv.subrange(p + 1, q as int));
            if good {
                assert(steps_ok(fv, p + 1));
                if p + 1 < nodes.len() {
                    assert(fv[p + 1].0 <= fv[p as int].0 + 1);
                }
            }
        }
        let node = HtmlNode { kind, children: kids };
        let ghost old_out = out@;
        out.push(node);
        proof {
            assert(out@.drop_last() =~= old_out);
            assert(flatten(node, d as int) =~= fv.subrange(p as int, q as int));
            assert(fv.subrange(pos as int, p as int) + fv.subrange(p as int, q as int) =~= fv.subrange(pos as int, q as int));
        }
        p = q;
    }
    (out, p)
}

/// Parses an HTML document into its tree, rooted at the document node.
pub fn parse_document(html: &str) -> (r: HtmlNode)
    ensures
        flatten(r, 0) == spec_html_walk(html@),
{
    let nodes = html_walk(html);
    let ghost fv = flat_view(nodes@);
    proof {
        assert(steps_ok(fv, 0));
    }
    let (mut roots, q) = build_level(&nodes, 0, 0);
    proof {
        assert(q == nodes.len());
        assert(fv.subrange(0, q as int) =~= fv);
        lemma_flatten_list_len(roots@, 0);
        if roots.len() >= 2 {
            let init = roots@.drop_last();
            lemma_flatten_list_len(init, 0);
            let k = flatten_list(init, 0).len() as int;
            assert(flatten(roots@.last(), 0).len() >= 1);
            assert(flatten_list(roots@, 0)[k] == flatten(roots@.last(), 0)[0]);
            assert(fv[k].0 == 0);
        }
        assert(roots.len() == 1);
        assert(roots@.drop_last() =~= Seq::<HtmlNode>::empty());
        let e = roots@.drop_last();
        assert(e.len() == 0);
        assert(flatten_list(e, 0) == Seq::<(int, KindView)>::empty());
        assert(flatten_list(roots@, 0) == flatten_list(e, 0) + flatten(roots@.last(), 0));
        assert(flatten_list(roots@, 0) =~= flatten(roots@.last(), 0));
    }
    roots.pop().unwrap()
}


/// Whether `d` is the tree that parsing `html` gives: its pre-order walk is the parse's.
pub open spec fn parses_to(html: Seq<char>, d: HtmlNode) -> bool {
    flatten(d, 0) == spec_html_walk(html)
}

/// Whether each document is the tree of the text at the same position.
pub open spec fn all_parse_to(htmls: Seq<Seq<char>>, docs: Seq<HtmlNode>) -> bool {
    docs.len() == htmls.len() && forall|i: int| 0 <= i < docs.len() ==> parses_to(#[trigger] htmls[i], docs[i])
}

/// Parses each text into its tree.
pub fn parse_documents(htmls: &Vec<String>) -> (r: Vec<HtmlNode>)
    ensures
        all_parse_to(htmls.deep_view(), r@),
{
    let mut r: Vec<HtmlNode> = Vec::new();
    let mut i: usize = 0;
    while i < htmls.len()
        invariant
            i <= htmls@.len(),
            r@.len() == i,
            forall|j: int| 0 <= j < i ==> parses_to(#[trigger] htmls.deep_view()[j], r@[j]),
        decreases htmls@.len() - i,
    {
        let d = parse_document(htmls[i].as_str());
        proof {
            assert(htmls.deep_view()[i as int] == htmls@[i as int]@);
        }
        r.push(d);
        i = i + 1;
    }
    r
}

} // verus!
