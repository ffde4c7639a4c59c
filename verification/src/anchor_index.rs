//! The anchor index: maps lowercase anchors to wiki-link targets.
use vstd::prelude::*;
use crate::text::{
    lemma_find_char, lemma_rfind_char, find_char,
    after_char, after_char_in, before_char, before_char_in, chars_of, eq_chars, lowercase, push_chars,
    push_str, rfind_char, rfind_in, slice, spec_lowercase, to_string,
};

verus! {

/// The map held by a sequence of registrations: later entries win.
pub open spec fn entries_map(s: Seq<(Vec<char>, Vec<char>)>) -> Map<Seq<char>, Seq<char>>
    decreases s.len(),
{
    if s.len() == 0 {
        Map::empty()
    } else {
        entries_map(s.drop_last()).insert(s.last().0@, s.last().1@)
    }
}

/// Maps anchor (lowercase) -> relative doc path with heading (e.g. "api/types#Message").
pub struct AnchorIndex {
    entries: Vec<(Vec<char>, Vec<char>)>,
}

impl View for AnchorIndex {
    type V = Map<Seq<char>, Seq<char>>;

    closed spec fn view(&self) -> Map<Seq<char>, Seq<char>> {
        entries_map(self.entries@)
    }
}

/// The target that `register` stores for a heading of a document.
pub open spec fn spec_target(doc_path: Seq<char>, heading_text: Seq<char>) -> Seq<char> {
    doc_path + "#"@ + heading_text
}

/// What `resolve` answers for `href` seen from the page `base`, given the index map `m`.
pub open spec fn spec_resolve(m: Map<Seq<char>, Seq<char>>, href: Seq<char>, base: Seq<char>) -> Option<Seq<char>> {
    match rfind_char(href, '#') {
        None => None,
        Some(p) => {
            let anchor = spec_lowercase(href.skip(p + 1));
            if anchor.len() == 0 || !m.contains_key(anchor) {
                None
            } else {
                let target = m[anchor];
                if before_char(target, '#') == base {
                    let heading = match after_char(target, '#') {
                        Some(rest) => before_char(rest, '#'),
                        None => anchor,
                    };
                    Some("[[#"@ + heading + "]]"@)
                } else {
                    Some("[["@ + target + "]]"@)
                }
            }
        }
    }
}

proof fn lemma_entries_map_take(s: Seq<(Vec<char>, Vec<char>)>, i: int, k: Seq<char>)
    requires
        0 <= i <= s.len(),
        forall|j: int| i <= j < s.len() ==> (#[trigger] s[j]).0@ != k,
    ensures
        entries_map(s).contains_key(k) == entries_map(s.take(i)).contains_key(k),
        entries_map(s).contains_key(k) ==> entries_map(s)[k] == entries_map(s.take(i))[k],
    decreases s.len() - i,
{
    if i < s.len() {
        let t = s.drop_last();
        assert forall|j: int| i <= j < t.len() implies (#[trigger] t[j]).0@ != k by {
            assert(t[j] == s[j]);
        }
        lemma_entries_map_take(t, i, k);
        assert(t.take(i) =~= s.take(i));
        assert(s.last() == s[s.len() - 1]);
    } else {
        assert(s.take(i) =~= s);
    }
}

impl AnchorIndex {
    pub fn new() -> (r: Self)
        ensures
            r@ == Map::<Seq<char>, Seq<char>>::empty(),
    {
        AnchorIndex { entries: Vec::new() }
    }

    /// Register all anchors that belong to a given output file.
    /// heading_text is the display name (used for the fragment after #).
    pub fn register(&mut self, anchor: &str, doc_path: &str, heading_text: &str)
        ensures
            final(self)@ == old(self)@.insert(spec_lowercase(anchor@), spec_target(doc_path@, heading_text@)),
            anchor@.len() > 0 && !doc_path@.contains('#') && !heading_text@.contains('#') ==> forall|href: Seq<char>, base: Seq<char>|
                #[trigger] spec_resolve(final(self)@, href, base)
                    == resolve_after_register(old(self)@, anchor@, doc_path@, heading_text@, href, base),
    {
        let key_s = lowercase(anchor);
        proof {
            if anchor@.len() > 0 && !doc_path@.contains('#') && !heading_text@.contains('#') {
                assert forall|href: Seq<char>, base: Seq<char>|
                    #[trigger] spec_resolve(old(self)@.insert(spec_lowercase(anchor@), spec_target(doc_path@, heading_text@)), href, base)
                        == resolve_after_register(old(self)@, anchor@, doc_path@, heading_text@, href, base) by {
                    law_register_then_resolve(old(self)@, anchor@, doc_path@, heading_text@, href, base);
                }
            }
        }
        let key = chars_of(key_s.as_str());
        let mut value: Vec<char> = Vec::new();
        push_str(&mut value, doc_path);
        push_str(&mut value, "#");
        push_str(&mut value, heading_text);
        let ghost old_entries = self.entries@;
        self.entries.push((key, value));
        proof {
            assert(self.entries@.drop_last() =~= old_entries);
        }
    }

    /// Index of the entry that holds `key`, the latest one registered.
    fn lookup(&self, key: &Vec<char>) -> (r: Option<usize>)
        ensures
            match r {
                Some(i) => i < self.entries.len() && self@.contains_key(key@)
                    && self@[key@] == self.entries@[i as int].1@,
                None => !self@.contains_key(key@),
            },
    {
        let mut i: usize = self.entries.len();
        while i > 0
            invariant
                i <= self.entries.len(),
                forall|j: int| i <= j < self.entries.len() ==> (#[trigger] self.entries@[j]).0@ != key@,
            decreases i,
        {
            if eq_chars(&self.entries[i - 1].0, key) {
                proof {
                    lemma_entries_map_take(self.entries@, i as int, key@);
                    let t = self.entries@.take(i as int);
                    assert(t.drop_last() =~= self.entries@.take(i - 1));
                    assert(t.last() == self.entries@[i - 1]);
                }
                return Some(i - 1);
            }
            i = i - 1;
        }
        proof {
            lemma_entries_map_take(self.entries@, 0, key@);
            assert(self.entries@.take(0) =~= Seq::<(Vec<char>, Vec<char>)>::empty());
        }
        None
    }

    /// Resolve an href like "/bots/api#message" or "#sendmessage" to an
    /// Obsidian wiki-link like [[api/types#Message]], or None if unknown.
    /// An href without `#`, or whose fragment is empty, resolves to None.
    pub fn resolve(&self, href: &str, current_page_base: &str) -> (r: Option<String>)
        ensures
            match r {
                Some(s) => spec_resolve(self@, href@, current_page_base@) == Some(s@),
                None => spec_resolve(self@, href@, current_page_base@) is None,
            },
            rfind_char(href@, '#') matches Some(p) && href@.skip(p + 1).len() == 0 ==> r is None,
    {
        let h = chars_of(href);
        let pos = match rfind_in(&h, '#') {
            Some(p) => p,
            None => return None,
        };
        let frag = to_string(&slice(&h, pos + 1, h.len()));
        let anchor_s = lowercase(frag.as_str());
        let anchor = chars_of(anchor_s.as_str());
        if anchor.len() == 0 {
            return None;
        }
        match self.lookup(&anchor) {
            None => None,
            Some(idx) => {
                let target = &self.entries[idx].1;
                let target_file = before_char_in(target, '#');
                let base = chars_of(current_page_base);
                let mut out: Vec<char> = Vec::new();
                if eq_chars(&target_file, &base) {
                    let heading = match after_char_in(target, '#') {
                        Some(rest) => before_char_in(&rest, '#'),
                        None => anchor,
                    };
                    push_str(&mut out, "[[#");
                    push_chars(&mut out, &heading);
                    push_str(&mut out, "]]");
                } else {
                    push_str(&mut out, "[[");
                    push_chars(&mut out, target);
                    push_str(&mut out, "]]");
                }
                Some(to_string(&out))
            }
        }
    }
}


/// A registered anchor resolves: an href whose fragment (the text after its last `#`)
/// lowercases to the key of a registered anchor links to the registered heading, as a
/// same-page link `[[#heading]]` when the registered document is the current page, and as
/// `[[doc#heading]]` otherwise.
pub proof fn law_registered_anchor_resolves(
    m: Map<Seq<char>, Seq<char>>,
    anchor: Seq<char>,
    doc: Seq<char>,
    heading: Seq<char>,
    prefix: Seq<char>,
    frag: Seq<char>,
    base: Seq<char>,
)
    requires
        !frag.contains('#'),
        !doc.contains('#'),
        !heading.contains('#'),
        spec_lowercase(frag) == spec_lowercase(anchor),
        spec_lowercase(anchor).len() > 0,
    ensures
        spec_resolve(
            m.insert(spec_lowercase(anchor), spec_target(doc, heading)),
            prefix + "#"@ + frag,
            base,
        ) == (if doc == base {
            Some("[[#"@ + heading + "]]"@)
        } else {
            Some("[["@ + doc + "#"@ + heading + "]]"@)
        }),
{
    reveal_strlit("#");
    let href = prefix + "#"@ + frag;
    let p = prefix.len() as int;
    assert(href[p] == '#');
    assert forall|j: int| p + 1 <= j < href.len() implies #[trigger] href[j] != '#' by {
        assert(href[j] == frag[j - p - 1]);
    }
    lemma_rfind_char(href, '#', p + 1);
    assert(href.skip(p + 1) =~= frag);
    let target = spec_target(doc, heading);
    let d = doc.len() as int;
    assert(target[d] == '#');
    assert forall|j: int| 0 <= j < d implies #[trigger] target[j] != '#' by {
        assert(target[j] == doc[j]);
    }
    lemma_find_char(target, '#', d);
    assert(target.take(d) =~= doc);
    assert(target.skip(d + 1) =~= heading);
    assert forall|j: int| 0 <= j < heading.len() implies #[trigger] heading[j] != '#' by {
        if heading[j] == '#' {
            assert(heading.contains('#'));
        }
    }
    lemma_find_char(heading, '#', heading.len() as int);
}

/// The lowercase anchor of an href: what follows its last `#`, lower-cased; none without `#`.
pub open spec fn href_key(href: Seq<char>) -> Option<Seq<char>> {
    match rfind_char(href, '#') {
        Some(p) => Some(spec_lowercase(href.skip(p + 1))),
        None => None,
    }
}

/// What an href resolves to after `anchor` was registered for `doc`/`heading` in the map `m`:
/// an href whose anchor is that anchor gives the new link, any other what it gave before.
pub open spec fn resolve_after_register(m: Map<Seq<char>, Seq<char>>, anchor: Seq<char>, doc: Seq<char>, heading: Seq<char>, href: Seq<char>, base: Seq<char>) -> Option<Seq<char>> {
    if href_key(href) == Some(spec_lowercase(anchor)) {
        if doc == base {
            Some("[[#"@ + heading + "]]"@)
        } else {
            Some("[["@ + doc + "#"@ + heading + "]]"@)
        }
    } else {
        spec_resolve(m, href, base)
    }
}

/// Registering then resolving: after an anchor (whose lowercase is not empty) is registered
/// for a document and heading without `#`, every href whose anchor matches it resolves to
/// `[[#heading]]` from that document and to `[[doc#heading]]` from any other page, a later
/// registration replacing an earlier one; every other href resolves as before.
pub proof fn law_register_then_resolve(
    m: Map<Seq<char>, Seq<char>>,
    anchor: Seq<char>,
    doc: Seq<char>,
    heading: Seq<char>,
    href: Seq<char>,
    base: Seq<char>,
)
    requires
        spec_lowercase(anchor).len() > 0,
        !doc.contains('#'),
        !heading.contains('#'),
    ensures
        spec_resolve(m.insert(spec_lowercase(anchor), spec_target(doc, heading)), href, base)
            == resolve_after_register(m, anchor, doc, heading, href, base),
{
    let key = spec_lowercase(anchor);
    let target = spec_target(doc, heading);
    match rfind_char(href, '#') {
        Some(p) => {
            if spec_lowercase(href.skip(p + 1)) == key {
                reveal_strlit("#");
                let d = doc.len() as int;
                assert(target[d] == '#');
                assert forall|j: int| 0 <= j < d implies #[trigger] target[j] != '#' by {
                    assert(target[j] == doc[j]);
                    if doc[j] == '#' {
                        assert(doc.contains('#'));
                    }
                }
                lemma_find_char(target, '#', d);
                assert(target.take(d) =~= doc);
                assert(target.skip(d + 1) =~= heading);
                assert forall|j: int| 0 <= j < heading.len() implies #[trigger] heading[j] != '#' by {
                    if heading[j] == '#' {
                        assert(heading.contains('#'));
                    }
                }
                lemma_find_char(heading, '#', heading.len() as int);
            }
        },
        None => {},
    }
}

/// An anchor that was never registered resolves to nothing.
pub proof fn law_unknown_anchor_unresolved(m: Map<Seq<char>, Seq<char>>, href: Seq<char>, base: Seq<char>)
    requires
        forall|p: int| rfind_char(href, '#') == Some(p) ==> !m.contains_key(spec_lowercase(href.skip(p + 1))),
    ensures
        spec_resolve(m, href, base) is None,
{
}

} // verus!
