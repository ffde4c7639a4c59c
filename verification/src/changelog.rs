//! The python-telegram-bot changelog: releases read from the legacy RST file and from the
//! per-release directories of TOML fragments.
use vstd::prelude::*;
use crate::groups::{
    group_get, keys_sorted, law_insert_keeps_keys_sorted, seq_lt, sort_order, sorted_order, spec_group_all,
    spec_insert, SortedGroups,
};
use crate::pages::push_file;
use crate::ptb::char_utf8_len;
use crate::pattern::{captures, first_captures, group, group_of, is_match, test_match};
use crate::text::{
    chars_of, eq_str, has_prefix, lines, lines_in, lowercase, push_chars, push_piece, push_str, replace_char, replace_char_in, slice,
    spec_lowercase, starts_with_str, to_string, trim, trim_chars,
};

verus! {

/// One release of the changelog: its version, its date (possibly empty) and its items grouped
/// under section keys, keys in increasing order.
pub struct ChangelogEntry {
    pub version: String,
    pub date: String,
    pub sections: SortedGroups<String>,
}

/// The view of a release.
pub ghost struct ReleaseView {
    pub version: Seq<char>,
    pub date: Seq<char>,
    pub sections: Seq<(Seq<char>, Seq<Seq<char>>)>,
}

impl View for ChangelogEntry {
    type V = ReleaseView;

    open spec fn view(&self) -> ReleaseView {
        ReleaseView { version: self.version@, date: self.date@, sections: self.sections@ }
    }
}

/// The views of a list of releases.
pub open spec fn releases_view(es: Seq<ChangelogEntry>) -> Seq<ReleaseView> {
    es.map_values(|e: ChangelogEntry| e@)
}

/// A version header of the legacy file: "Version 21.11" or "Version 21.11.1".
pub open spec fn version_re() -> Seq<char> {
    "^Version (\\d+\\.\\d+(?:\\.\\d+)?)"@
}

/// A release date line of the legacy file: "*Released YYYY-MM-DD*".
pub open spec fn released_re() -> Seq<char> {
    "\\*Released (\\d{4}-\\d{2}-\\d{2})\\*"@
}

/// A line of dashes that underlines a section heading.
pub open spec fn underline_re() -> Seq<char> {
    "^-+$"@
}

/// The section key of a heading: lower case, spaces made `-`, commas and ampersands dropped.
pub open spec fn section_key(heading: Seq<char>) -> Seq<char> {
    replace_char(replace_char(replace_char(spec_lowercase(heading), ' ', "-"@), ',', Seq::empty()), '&', Seq::empty())
}

/// The text after the leading `-` and `*` marks of a bullet.
pub open spec fn strip_marks(s: Seq<char>) -> Seq<char>
    decreases s.len(),
{
    if s.len() > 0 && (s[0] == '-' || s[0] == '*') {
        strip_marks(s.drop_first())
    } else {
        s
    }
}

/// A release of the legacy file while its lines are being read: the section that bullets go
/// to is `current`.
pub ghost struct LegacyBlock {
    pub version: Seq<char>,
    pub date: Seq<char>,
    pub sections: Seq<(Seq<char>, Seq<Seq<char>>)>,
    pub current: Seq<char>,
}

/// The release that a block gives, kept when it has a date or at least one item.
pub open spec fn flush_block(b: Option<LegacyBlock>, acc: Seq<ReleaseView>) -> Seq<ReleaseView> {
    match b {
        Some(b) => if b.date.len() > 0 || b.sections.len() > 0 {
            acc.push(ReleaseView { version: b.version, date: b.date, sections: b.sections })
        } else {
            acc
        },
        None => acc,
    }
}

/// What line `i` (no version header) does to the open block: a date line sets the date; a
/// dash underline below a heading that is neither empty nor starts with `*` opens that
/// section; a bullet adds its text, when not empty, to the current section.
pub open spec fn legacy_line(ls: Seq<Seq<char>>, i: int, b: LegacyBlock) -> LegacyBlock {
    let l = ls[i];
    match first_captures(released_re(), l) {
        Some(c) => LegacyBlock { date: group(c, 1), ..b },
        None => {
            if is_match(underline_re(), l) && i > 0 && trim(ls[i - 1]).len() > 0 && !has_prefix(trim(ls[i - 1]), "*"@) {
                LegacyBlock { current: section_key(trim(ls[i - 1])), ..b }
            } else {
                let t = trim(l);
                if has_prefix(t, "-"@) || has_prefix(t, "*"@) {
                    let item = trim(strip_marks(t));
                    if item.len() > 0 {
                        LegacyBlock { sections: spec_insert(b.sections, b.current, item), ..b }
                    } else {
                        b
                    }
                } else {
                    b
                }
            }
        },
    }
}

/// The releases of the legacy file from line `i` on, with the block `b` open and the releases
/// `acc` already read. A version header closes the open block and opens a new one (in section
/// "other"), skipping a following `=` underline.
pub open spec fn legacy_fold(ls: Seq<Seq<char>>, i: int, b: Option<LegacyBlock>, acc: Seq<ReleaseView>) -> Seq<ReleaseView>
    decreases ls.len() - i,
{
    if i < 0 || i >= ls.len() {
        flush_block(b, acc)
    } else {
        match first_captures(version_re(), ls[i]) {
            Some(caps) => {
                let next = if i + 1 < ls.len() && has_prefix(ls[i + 1], "="@) { i + 2 } else { i + 1 };
                legacy_fold(
                    ls,
                    next,
                    Some(LegacyBlock { version: group(caps, 1), date: Seq::empty(), sections: Seq::empty(), current: "other"@ }),
                    flush_block(b, acc),
                )
            },
            None => match b {
                Some(blk) => legacy_fold(ls, i + 1, Some(legacy_line(ls, i, blk)), acc),
                None => legacy_fold(ls, i + 1, None, acc),
            },
        }
    }
}

/// The releases of the legacy RST changelog.
pub open spec fn spec_parse_legacy(text: Seq<char>) -> Seq<ReleaseView> {
    legacy_fold(lines(text), 0, None, Seq::empty())
}

/// Drops the leading `-` and `*` marks.
fn strip_marks_in(v: &Vec<char>) -> (r: Vec<char>)
    ensures
        r@ == strip_marks(v@),
{
    let mut i: usize = 0;
    proof {
        assert(v@.skip(0) =~= v@);
    }
    while i < v.len() && (v[i] == '-' || v[i] == '*')
        invariant
            i <= v.len(),
            strip_marks(v@) == strip_marks(v@.skip(i as int)),
        decreases v.len() - i,
    {
        proof {
            assert(v@.skip(i as int).drop_first() =~= v@.skip(i + 1));
        }
        i = i + 1;
    }
    proof {
        assert(v@.skip(i as int) =~= v@.subrange(i as int, v@.len() as int));
    }
    slice(v, i, v.len())
}

/// The section key of a heading.
fn section_key_in(heading: &Vec<char>) -> (r: Vec<char>)
    ensures
        r@ == section_key(heading@),
{
    let low = lowercase(to_string(heading).as_str());
    let a = replace_char_in(&chars_of(low.as_str()), ' ', "-");
    let b = replace_char_in(&a, ',', "");
    proof {
        reveal_strlit("");
        assert(""@ =~= Seq::<char>::empty());
    }
    replace_char_in(&b, '&', "")
}

/// A block being read, in executable form.
struct OpenBlock {
    version: String,
    date: String,
    sections: SortedGroups<String>,
    current: Vec<char>,
}

impl View for OpenBlock {
    type V = LegacyBlock;

    closed spec fn view(&self) -> LegacyBlock {
        LegacyBlock { version: self.version@, date: self.date@, sections: self.sections@, current: self.current@ }
    }
}

/// Closes a block into `out` as `flush_block` says.
fn flush_into(b: Option<OpenBlock>, out: &mut Vec<ChangelogEntry>)
    ensures
        releases_view(final(out)@) == flush_block(match b { Some(x) => Some(x@), None => None }, releases_view(old(out)@)),
{
    let ghost before = out@;
    match b {
        Some(x) => {
            let keep = x.date.as_str().is_empty() == false || x.sections.len() > 0;
            if keep {
                out.push(ChangelogEntry { version: x.version, date: x.date, sections: x.sections });
                proof {
                    assert(releases_view(out@) =~= releases_view(before).push(out@.last()@));
                }
            }
        },
        None => {},
    }
}

/// Applies one line that is not a version header to the open block.
fn legacy_line_exec(lines: &Vec<Vec<char>>, i: usize, b: &mut OpenBlock)
    requires
        i < lines@.len(),
    ensures
        final(b)@ == legacy_line(lines.deep_view(), i as int, old(b)@),
{
    let ghost ls = lines.deep_view();
    proof {
        assert(ls[i as int] == lines@[i as int]@);
    }
    let line = to_string(&lines[i]);
    match captures("\\*Released (\\d{4}-\\d{2}-\\d{2})\\*", line.as_str()) {
        Some(c) => {
            b.date = to_string(&group_of(&c, 1));
        },
        None => {
            let mut heading_key: Option<Vec<char>> = None;
            if test_match("^-+$", line.as_str()) && i > 0 {
                proof {
                    assert(ls[i - 1] == lines@[i - 1]@);
                }
                let h = trim_chars(&lines[i - 1]);
                if h.len() > 0 && !starts_with_str(&h, "*") {
                    heading_key = Some(section_key_in(&h));
                }
            }
            match heading_key {
                Some(k) => {
                    b.current = k;
                },
                None => {
                    let t = trim_chars(&lines[i]);
                    if starts_with_str(&t, "-") || starts_with_str(&t, "*") {
                        let item = trim_chars(&strip_marks_in(&t));
                        if item.len() > 0 {
                            let cur = slice(&b.current, 0, b.current.len());
                            proof {
                                assert(cur@ =~= b.current@);
                            }
                            b.sections.insert(cur, to_string(&item));
                        }
                    }
                },
            }
        },
    }
}

/// Reads the legacy RST changelog (releases before the per-release directories).
pub fn parse_legacy_rst(text: &str) -> (r: Vec<ChangelogEntry>)
    ensures
        releases_view(r@) == spec_parse_legacy(text@),
{
    let ls_in = lines_in(&chars_of(text));
    let ghost ls = ls_in.deep_view();
    let mut out: Vec<ChangelogEntry> = Vec::new();
    let mut block: Option<OpenBlock> = None;
    let mut i: usize = 0;
    proof {
        assert(releases_view(out@) =~= Seq::<ReleaseView>::empty());
    }
    while i < ls_in.len()
        invariant
            i <= ls_in@.len(),
            ls == ls_in.deep_view(),
            ls == lines(text@),
            legacy_fold(ls, i as int, match block { Some(x) => Some(x@), None => None }, releases_view(out@))
                == spec_parse_legacy(text@),
        decreases ls_in@.len() - i,
    {
        proof {
            assert(ls[i as int] == ls_in@[i as int]@);
        }
        let line = to_string(&ls_in[i]);
        match captures("^Version (\\d+\\.\\d+(?:\\.\\d+)?)", line.as_str()) {
            Some(caps) => {
                let old_block = block;
                flush_into(old_block, &mut out);
                let mut cur: Vec<char> = Vec::new();
                cur.push('o');
                cur.push('t');
                cur.push('h');
                cur.push('e');
                cur.push('r');
                proof {
                    reveal_strlit("other");
                    assert(cur@ =~= "other"@);
                }
                block = Some(OpenBlock {
                    version: to_string(&group_of(&caps, 1)),
                    date: String::new(),
                    sections: SortedGroups::new(),
                    current: cur,
                });
                let mut next = i + 1;
                if next < ls_in.len() {
                    proof {
                        assert(ls[next as int] == ls_in@[next as int]@);
                    }
                    if starts_with_str(&ls_in[next], "=") {
                        next = next + 1;
                    }
                }
                i = next;
            },
            None => {
                match block {
                    Some(mut blk) => {
                        legacy_line_exec(&ls_in, i, &mut blk);
                        block = Some(blk);
                    },
                    None => {},
                }
                i = i + 1;
            },
        }
    }
    flush_into(block, &mut out);
    out
}


/// `toml::de::Error`, the error of a TOML document that does not parse.
#[verifier::external_type_specification]
#[verifier::external_body]
pub struct ExTomlError(toml::de::Error);

/// The name of what `toml::from_str::<toml::Value>` gives on a text: `None` when it fails,
/// else the entries of the document's top-level table, each key with its value when that
/// value is a string (`None` for any other kind of value).
pub uninterp spec fn spec_toml_entries(text: Seq<char>) -> Option<Seq<(Seq<char>, Option<Seq<char>>)>>;

/// Parses a TOML document with `toml::from_str::<toml::Value>` and lists the entries of its
/// top-level table, keeping the text of string values. Claimed: the outcome is a function of
/// the text, named `spec_toml_entries` (what an error holds is not stated).
#[verifier::external_body]
fn toml_entries(text: &str) -> (r: Result<Vec<(String, Option<String>)>, toml::de::Error>)
    ensures
        match r {
            Ok(v) => spec_toml_entries(text@) == Some(v.deep_view()),
            Err(_) => spec_toml_entries(text@) is None,
        },
{
    match toml::from_str::<toml::Value>(text) {
        Ok(toml::Value::Table(t)) => Ok(t.into_iter().map(|(k, v)| match v {
            toml::Value::String(s) => (k, Some(s)),
            _ => (k, None),
        }).collect()),
        Ok(_) => Ok(Vec::new()),
        Err(e) => Err(e),
    }
}

/// What can go wrong while reading the changelog.
pub enum ChangelogError {
    /// A `.toml` fragment that is not a valid TOML document.
    Toml(toml::de::Error),
}

/// The section keys of the TOML fragments, in the order the release notes list them.
pub open spec fn section_order() -> Seq<Seq<char>> {
    seq![
        "highlights"@, "breaking"@, "security"@, "deprecations"@, "features"@,
        "bugfixes"@, "dependencies"@, "other"@, "documentation"@, "internal"@,
    ]
}

fn section_order_exec() -> (r: Vec<&'static str>)
    ensures
        r@.map_values(|s: &str| s@) == section_order(),
{
    let r = vec![
        "highlights", "breaking", "security", "deprecations", "features",
        "bugfixes", "dependencies", "other", "documentation", "internal",
    ];
    proof {
        assert(r@.map_values(|s: &str| s@) =~= section_order());
    }
    r
}

/// The string value under `k` among the entries, if the first entry with that key has one.
pub open spec fn lookup_string(es: Seq<(Seq<char>, Option<Seq<char>>)>, k: Seq<char>) -> Option<Seq<char>>
    decreases es.len(),
{
    if es.len() == 0 {
        None
    } else if es[0].0 == k {
        es[0].1
    } else {
        lookup_string(es.drop_first(), k)
    }
}

fn lookup_string_in(es: &Vec<(String, Option<String>)>, k: &str) -> (r: Option<Vec<char>>)
    ensures
        match r {
            Some(v) => lookup_string(es.deep_view(), k@) == Some(v@),
            None => lookup_string(es.deep_view(), k@) is None,
        },
{
    let ghost ev = es.deep_view();
    let mut j: usize = 0;
    proof {
        assert(ev.skip(0) =~= ev);
    }
    while j < es.len()
        invariant
            j <= es@.len(),
            ev == es.deep_view(),
            lookup_string(ev, k@) == lookup_string(ev.skip(j as int), k@),
        decreases es@.len() - j,
    {
        proof {
            assert(ev.skip(j as int)[0] == ev[j as int]);
            assert(ev[j as int] == es@[j as int].deep_view());
            assert(ev.skip(j as int).drop_first() =~= ev.skip(j + 1));
        }
        if eq_str(&chars_of(es[j].0.as_str()), k) {
            return match &es[j].1 {
                Some(s) => Some(chars_of(s.as_str())),
                None => None,
            };
        }
        j = j + 1;
    }
    None
}

/// Adds to the groups the items of one fragment for the first `j` section keys: for each key
/// whose value is a string, its trimmed text when not empty.
pub open spec fn add_fragment(g: Seq<(Seq<char>, Seq<Seq<char>>)>, es: Seq<(Seq<char>, Option<Seq<char>>)>, j: int) -> Seq<(Seq<char>, Seq<Seq<char>>)>
    decreases j,
{
    if j <= 0 {
        g
    } else {
        let g1 = add_fragment(g, es, j - 1);
        let k = section_order()[j - 1];
        match lookup_string(es, k) {
            Some(s) => if trim(s).len() > 0 { spec_insert(g1, k, trim(s)) } else { g1 },
            None => g1,
        }
    }
}

/// A TOML fragment's file name.
pub open spec fn toml_name_re() -> Seq<char> {
    "\\.toml$"@
}

/// The file names of a listing.
pub open spec fn names_of<T>(files: Seq<(Seq<char>, T)>) -> Seq<Seq<char>> {
    files.map_values(|f: (Seq<char>, T)| f.0)
}

/// The groups after the first `n` files in `order`, or `None` at the first `.toml` file that
/// does not parse.
pub open spec fn fragments_fold(files: Seq<(Seq<char>, Seq<char>)>, order: Seq<int>, n: int) -> Option<Seq<(Seq<char>, Seq<Seq<char>>)>>
    decreases n,
{
    if n <= 0 {
        Some(Seq::empty())
    } else {
        match fragments_fold(files, order, n - 1) {
            None => None,
            Some(g) => {
                let f = files[order[n - 1]];
                if is_match(toml_name_re(), f.0) {
                    match spec_toml_entries(f.1) {
                        None => None,
                        Some(es) => Some(add_fragment(g, es, 10)),
                    }
                } else {
                    Some(g)
                }
            },
        }
    }
}

/// The sections of a release directory, from its (file name, text) listing: the `.toml`
/// files in name order, `None` when one of them does not parse.
pub open spec fn spec_collect_sections(files: Seq<(Seq<char>, Seq<char>)>) -> Option<Seq<(Seq<char>, Seq<Seq<char>>)>> {
    fragments_fold(files, sort_order(names_of(files), files.len() as int), files.len() as int)
}

/// The file names of a listing, as character vectors.
fn names_in<U: DeepView>(files: &Vec<(String, U)>) -> (r: Vec<Vec<char>>)
    ensures
        r.deep_view() == names_of(files.deep_view()),
{
    let mut r: Vec<Vec<char>> = Vec::new();
    let mut i: usize = 0;
    while i < files.len()
        invariant
            i <= files@.len(),
            r.deep_view() =~= names_of(files.deep_view()).take(i as int),
        decreases files@.len() - i,
    {
        proof {
            assert(files.deep_view()[i as int] == files@[i as int].deep_view());
        }
        push_piece(&mut r, chars_of(files[i].0.as_str()));
        proof {
            assert(names_of(files.deep_view()).take(i + 1) =~= names_of(files.deep_view()).take(i as int).push(files@[i as int].0@));
        }
        i = i + 1;
    }
    proof {
        assert(names_of(files.deep_view()).take(files@.len() as int) =~= names_of(files.deep_view()));
    }
    r
}

/// Adds the items of one parsed fragment to the groups.
fn add_fragment_exec(g: &mut SortedGroups<String>, es: &Vec<(String, Option<String>)>, keys: &Vec<&'static str>)
    requires
        keys@.map_values(|s: &str| s@) == section_order(),
    ensures
        final(g)@ == add_fragment(old(g)@, es.deep_view(), 10),
{
    let ghost g0 = g@;
    let mut j: usize = 0;
    proof {
        assert(keys@.map_values(|s: &str| s@).len() == keys@.len());
    }
    while j < keys.len()
        invariant
            j <= keys@.len(),
            keys@.len() == 10,
            keys@.map_values(|s: &str| s@) == section_order(),
            g@ == add_fragment(g0, es.deep_view(), j as int),
        decreases keys@.len() - j,
    {
        let k = keys[j];
        proof {
            assert(k@ == section_order()[j as int]);
        }
        match lookup_string_in(es, k) {
            Some(s) => {
                let item = trim_chars(&s);
                if item.len() > 0 {
                    g.insert(chars_of(k), to_string(&item));
                }
            },
            None => {},
        }
        j = j + 1;
    }
}

proof fn lemma_fragments_fail(files: Seq<(Seq<char>, Seq<char>)>, order: Seq<int>, n: int, m: int)
    requires
        n <= m,
        fragments_fold(files, order, n) is None,
    ensures
        fragments_fold(files, order, m) is None,
    decreases m - n,
{
    if n < m {
        lemma_fragments_fail(files, order, n, m - 1);
    }
}

/// Reads the sections of one release directory from its (file name, text) listing: the
/// `.toml` files, in name order, each adding the trimmed non-empty string values of the
/// known section keys; keys end up in increasing order.
pub fn collect_toml_sections(files: &Vec<(String, String)>) -> (r: Result<SortedGroups<String>, ChangelogError>)
    ensures
        match r {
            Ok(g) => spec_collect_sections(files.deep_view()) == Some(g@),
            Err(_) => spec_collect_sections(files.deep_view()) is None,
        },
{
    let names = names_in(files);
    let order = sorted_order(&names);
    proof {
        assert(names.deep_view().len() == names@.len());
        assert(names_of(files.deep_view()).len() == files@.len());
    }
    let keys = section_order_exec();
    let ghost fv = files.deep_view();
    let ghost ov = order@.map_values(|x: usize| x as int);
    let mut g: SortedGroups<String> = SortedGroups::new();
    let mut n: usize = 0;
    while n < order.len()
        invariant
            n <= order@.len(),
            order@.len() == files@.len(),
            forall|a: int| 0 <= a < order@.len() ==> (#[trigger] order@[a]) < files@.len(),
            fv == files.deep_view(),
            ov == order@.map_values(|x: usize| x as int),
            ov == sort_order(names_of(fv), fv.len() as int),
            keys@.map_values(|s: &str| s@) == section_order(),
            fragments_fold(fv, ov, n as int) == Some(g@),
        decreases order@.len() - n,
    {
        let idx = order[n];
        proof {
            assert(ov[n as int] == idx as int);
            assert(fv[idx as int] == files@[idx as int].deep_view());
        }
        if test_match("\\.toml$", files[idx].0.as_str()) {
            match toml_entries(files[idx].1.as_str()) {
                Err(e) => {
                    proof {
                        lemma_fragments_fail(fv, ov, n + 1, fv.len() as int);
                    }
                    return Err(ChangelogError::Toml(e));
                },
                Ok(es) => {
                    add_fragment_exec(&mut g, &es, &keys);
                },
            }
        }
        n = n + 1;
    }
    Ok(g)
}



/// A release directory's name: "22.7_2026-03-16".
pub open spec fn release_dir_re() -> Seq<char> {
    "^(\\d+\\.\\d+(?:\\.\\d+)?)_(\\d{4}-\\d{2}-\\d{2})$"@
}

/// The releases of the first `n` directories in `order`: each directory whose name is a
/// release's gives that release, with its sections; `None` at the first one whose fragments
/// do not parse.
pub open spec fn dirs_fold(dirs: Seq<(Seq<char>, Seq<(Seq<char>, Seq<char>)>)>, order: Seq<int>, n: int) -> Option<Seq<ReleaseView>>
    decreases n,
{
    if n <= 0 {
        Some(Seq::empty())
    } else {
        match dirs_fold(dirs, order, n - 1) {
            None => None,
            Some(es) => {
                let d = dirs[order[n - 1]];
                match first_captures(release_dir_re(), d.0) {
                    None => Some(es),
                    Some(c) => match spec_collect_sections(d.1) {
                        None => None,
                        Some(g) => Some(es.push(ReleaseView { version: group(c, 1), date: group(c, 2), sections: g })),
                    },
                }
            },
        }
    }
}

/// The whole changelog: the releases of the legacy file when there is one, then those of the
/// release directories in name order; `None` when a fragment does not parse.
pub open spec fn spec_collect_changelog(dirs: Seq<(Seq<char>, Seq<(Seq<char>, Seq<char>)>)>, legacy: Option<Seq<char>>) -> Option<Seq<ReleaseView>> {
    match dirs_fold(dirs, sort_order(names_of(dirs), dirs.len() as int), dirs.len() as int) {
        None => None,
        Some(es) => Some(match legacy {
            Some(t) => spec_parse_legacy(t) + es,
            None => es,
        }),
    }
}

proof fn lemma_dirs_fail(dirs: Seq<(Seq<char>, Seq<(Seq<char>, Seq<char>)>)>, order: Seq<int>, n: int, m: int)
    requires
        n <= m,
        dirs_fold(dirs, order, n) is None,
    ensures
        dirs_fold(dirs, order, m) is None,
    decreases m - n,
{
    if n < m {
        lemma_dirs_fail(dirs, order, n, m - 1);
    }
}

/// Reads the changelog from the listing of the changes directory: each subdirectory's name
/// with its (file name, text) listing, and the text of the legacy RST file if there is one.
pub fn collect_changelog(dirs: &Vec<(String, Vec<(String, String)>)>, legacy: Option<&str>) -> (r: Result<Vec<ChangelogEntry>, ChangelogError>)
    ensures
        match r {
            Ok(es) => spec_collect_changelog(dirs.deep_view(), match legacy { Some(t) => Some(t@), None => None }) == Some(releases_view(es@)),
            Err(_) => spec_collect_changelog(dirs.deep_view(), match legacy { Some(t) => Some(t@), None => None }) is None,
        },
{
    let names = names_in(dirs);
    let order = sorted_order(&names);
    proof {
        assert(names.deep_view().len() == names@.len());
        assert(names_of(dirs.deep_view()).len() == dirs@.len());
    }
    let ghost dv = dirs.deep_view();
    let ghost ov = order@.map_values(|x: usize| x as int);
    let mut entries: Vec<ChangelogEntry> = Vec::new();
    let mut n: usize = 0;
    proof {
        assert(releases_view(entries@) =~= Seq::<ReleaseView>::empty());
    }
    while n < order.len()
        invariant
            n <= order@.len(),
            order@.len() == dirs@.len(),
            forall|a: int| 0 <= a < order@.len() ==> (#[trigger] order@[a]) < dirs@.len(),
            dv == dirs.deep_view(),
            ov == order@.map_values(|x: usize| x as int),
            ov == sort_order(names_of(dv), dv.len() as int),
            dirs_fold(dv, ov, n as int) == Some(releases_view(entries@)),
        decreases order@.len() - n,
    {
        let idx = order[n];
        proof {
            assert(ov[n as int] == idx as int);
            assert(dv[idx as int] == dirs@[idx as int].deep_view());
        }
        match captures("^(\\d+\\.\\d+(?:\\.\\d+)?)_(\\d{4}-\\d{2}-\\d{2})$", dirs[idx].0.as_str()) {
            Some(c) => {
                match collect_toml_sections(&dirs[idx].1) {
                    Err(e) => {
                        proof {
                            lemma_dirs_fail(dv, ov, n + 1, dv.len() as int);
                        }
                        return Err(e);
                    },
                    Ok(g) => {
                        let ghost before = entries@;
                        entries.push(ChangelogEntry {
                            version: to_string(&group_of(&c, 1)),
                            date: to_string(&group_of(&c, 2)),
                            sections: g,
                        });
                        proof {
                            assert(releases_view(entries@) =~= releases_view(before).push(entries@.last()@));
                        }
                    },
                }
            },
            None => {},
        }
        n = n + 1;
    }
    match legacy {
        Some(t) => {
            let mut all = parse_legacy_rst(t);
            let ghost a0 = all@;
            let ghost e0 = entries@;
            all.append(&mut entries);
            proof {
                assert(releases_view(all@) =~= releases_view(a0) + releases_view(e0));
            }
            Ok(all)
        },
        None => Ok(entries),
    }
}


/// Where the release notes live upstream.
pub open spec fn changes_url() -> Seq<char> {
    "https://github.com/python-telegram-bot/python-telegram-bot/blob/master/CHANGES.rst"@
}

/// The date shown for a release: its date, or "unknown" when it has none.
pub open spec fn shown_date(d: Seq<char>) -> Seq<char> {
    if d.len() == 0 { "unknown"@ } else { d }
}

/// The section keys with their headings, in the order they are shown.
pub open spec fn section_titles() -> Seq<(Seq<char>, Seq<char>)> {
    seq![
        ("highlights"@, "Highlights"@),
        ("breaking"@, "Breaking Changes"@),
        ("security"@, "Security"@),
        ("deprecations"@, "Deprecations"@),
        ("features"@, "New Features"@),
        ("bugfixes"@, "Bug Fixes"@),
        ("dependencies"@, "Dependencies"@),
        ("other"@, "Other Changes"@),
        ("documentation"@, "Documentation"@),
        ("internal"@, "Internal"@),
    ]
}

/// `- item` lines, a newline inside an item continuing it indented by two spaces.
pub open spec fn item_lines(items: Seq<Seq<char>>) -> Seq<char>
    decreases items.len(),
{
    if items.len() == 0 {
        Seq::empty()
    } else {
        item_lines(items.drop_last()) + "- "@ + replace_char(items.last(), '\n', "\n  "@) + "\n"@
    }
}

/// The block of one section: its heading and items, when it has items.
pub open spec fn section_block(sections: Seq<(Seq<char>, Seq<Seq<char>>)>, key: Seq<char>, title: Seq<char>) -> Seq<char> {
    match group_get(sections, key) {
        Some(items) => if items.len() > 0 { "## "@ + title + "\n\n"@ + item_lines(items) + "\n"@ } else { Seq::empty() },
        None => Seq::empty(),
    }
}

/// The blocks of the first `n` sections of `section_titles`.
pub open spec fn section_blocks(sections: Seq<(Seq<char>, Seq<Seq<char>>)>, n: int) -> Seq<char>
    decreases n,
{
    if n <= 0 {
        Seq::empty()
    } else {
        section_blocks(sections, n - 1) + section_block(sections, section_titles()[n - 1].0, section_titles()[n - 1].1)
    }
}

/// The Markdown page of a release.
pub open spec fn spec_render_release(e: ReleaseView) -> Seq<char> {
    let date = shown_date(e.date);
    "---\ntitle: \"PTB v"@ + e.version + "\"\ndate: "@ + date + "\nsource: "@ + changes_url()
        + "\ntags:\n  - ptb\n  - changelog\n---\n\n"@ + "# PTB v"@ + e.version + "\n\n"@
        + (if date.len() > 0 && date != "unknown"@ { "*Released: "@ + date + "*\n\n"@ } else { Seq::empty() })
        + section_blocks(e.sections, 10)
}

fn section_titles_exec() -> (r: Vec<(&'static str, &'static str)>)
    ensures
        r@.map_values(|p: (&str, &str)| (p.0@, p.1@)) == section_titles(),
{
    let r = vec![
        ("highlights", "Highlights"),
        ("breaking", "Breaking Changes"),
        ("security", "Security"),
        ("deprecations", "Deprecations"),
        ("features", "New Features"),
        ("bugfixes", "Bug Fixes"),
        ("dependencies", "Dependencies"),
        ("other", "Other Changes"),
        ("documentation", "Documentation"),
        ("internal", "Internal"),
    ];
    proof {
        assert(r@.map_values(|p: (&str, &str)| (p.0@, p.1@)) =~= section_titles());
    }
    r
}

/// Appends the item lines of a section.
fn push_items(out: &mut Vec<char>, items: &Vec<String>)
    ensures
        final(out)@ == old(out)@ + item_lines(items@.map_values(|s: String| s@)),
{
    let ghost iv = items@.map_values(|s: String| s@);
    let ghost head = out@;
    let mut i: usize = 0;
    proof {
        assert(iv.take(0) =~= Seq::<Seq<char>>::empty());
    }
    while i < items.len()
        invariant
            i <= items@.len(),
            iv == items@.map_values(|s: String| s@),
            out@ == head + item_lines(iv.take(i as int)),
        decreases items@.len() - i,
    {
        proof {
            assert(iv.take(i + 1).drop_last() =~= iv.take(i as int));
            assert(iv.take(i + 1).last() == items@[i as int]@);
        }
        push_str(out, "- ");
        let piece = replace_char_in(&chars_of(items[i].as_str()), '\n', "\n  ");
        push_chars(out, &piece);
        push_str(out, "\n");
        proof {
            assert(out@ =~= head + item_lines(iv.take(i + 1)));
        }
        i = i + 1;
    }
    proof {
        assert(iv.take(items@.len() as int) =~= iv);
    }
}

/// Renders a release as a Markdown page: frontmatter, title, release date when known, then
/// the non-empty sections in their fixed order with their items.
pub fn render_changelog_entry(entry: &ChangelogEntry, out_prefix: &str) -> (r: String)
    ensures
        r@ == spec_render_release(entry@),
{
    let date: Vec<char> = if entry.date.as_str().is_empty() {
        chars_of("unknown")
    } else {
        chars_of(entry.date.as_str())
    };
    let mut out: Vec<char> = Vec::new();
    push_str(&mut out, "---\ntitle: \"PTB v");
    push_str(&mut out, entry.version.as_str());
    push_str(&mut out, "\"\ndate: ");
    push_chars(&mut out, &date);
    push_str(&mut out, "\nsource: ");
    push_str(&mut out, "https://github.com/python-telegram-bot/python-telegram-bot/blob/master/CHANGES.rst");
    push_str(&mut out, "\ntags:\n  - ptb\n  - changelog\n---\n\n");
    push_str(&mut out, "# PTB v");
    push_str(&mut out, entry.version.as_str());
    push_str(&mut out, "\n\n");
    let ghost mid = out@;
    if date.len() > 0 && !eq_str(&date, "unknown") {
        push_str(&mut out, "*Released: ");
        push_chars(&mut out, &date);
        push_str(&mut out, "*\n\n");
    }
    proof {
        assert(out@ == mid + (if shown_date(entry@.date).len() > 0 && shown_date(entry@.date) != "unknown"@ {
            "*Released: "@ + shown_date(entry@.date) + "*\n\n"@
        } else {
            Seq::<char>::empty()
        }));
    }
    let titles = section_titles_exec();
    let ghost head = out@;
    let mut j: usize = 0;
    proof {
        assert(titles@.map_values(|p: (&str, &str)| (p.0@, p.1@)).len() == titles@.len());
    }
    while j < titles.len()
        invariant
            j <= titles@.len(),
            titles@.len() == 10,
            titles@.map_values(|p: (&str, &str)| (p.0@, p.1@)) == section_titles(),
            out@ == head + section_blocks(entry@.sections, j as int),
        decreases titles@.len() - j,
    {
        let (key, title) = titles[j];
        proof {
            assert(key@ == section_titles()[j as int].0);
            assert(title@ == section_titles()[j as int].1);
        }
        let ghost before = out@;
        match entry.sections.get(&chars_of(key)) {
            Some(items) => {
                if items.len() > 0 {
                    push_str(&mut out, "## ");
                    push_str(&mut out, title);
                    push_str(&mut out, "\n\n");
                    push_items(&mut out, items);
                    push_str(&mut out, "\n");
                }
                proof {
                    assert(items@.map_values(|s: String| s@).len() == items@.len());
                }
            },
            None => {},
        }
        proof {
            assert(out@ =~= before + section_block(entry@.sections, key@, title@));
        }
        j = j + 1;
    }
    let _ = out_prefix;
    to_string(&out)
}

/// The first `n` bytes of a text, when they end on a character boundary (`str::get(..n)`).
pub open spec fn byte_prefix(s: Seq<char>, n: int) -> Option<Seq<char>>
    decreases s.len(),
{
    if n == 0 {
        Some(Seq::empty())
    } else if n < 0 || s.len() == 0 || char_utf8_len(s[0]) > n {
        None
    } else {
        match byte_prefix(s.drop_first(), n - char_utf8_len(s[0])) {
            Some(p) => Some(seq![s[0]] + p),
            None => None,
        }
    }
}

/// The year a release is filed under: the first four bytes of its date, or "misc".
pub open spec fn year_of(date: Seq<char>) -> Seq<char> {
    match byte_prefix(date, 4) {
        Some(p) => p,
        None => "misc"@,
    }
}

/// The year a release is filed under.
pub fn year_of_exec(date: &str) -> (r: Vec<char>)
    ensures
        r@ == year_of(date@),
{
    let v = chars_of(date);
    let mut i: usize = 0;
    let mut used: u128 = 0;
    proof {
        assert(v@.take(0) + v@.skip(0) =~= v@);
        assert(v@.take(0) =~= Seq::<char>::empty());
        assert(v@.skip(0) =~= v@);
        assert(byte_prefix(v@, 4) == match byte_prefix(v@.skip(0), 4) {
            Some(p) => Some(v@.take(0) + p),
            None => None,
        }) by {
            match byte_prefix(v@, 4) {
                Some(p) => assert(v@.take(0) + p =~= p),
                None => {},
            }
        }
    }
    while used < 4 && i < v.len()
        invariant
            i <= v@.len(),
            used <= 4,
            v@ == date@,
            byte_prefix(v@, 4) == match byte_prefix(v@.skip(i as int), 4 - used) {
                Some(p) => Some(v@.take(i as int) + p),
                None => None,
            },
        decreases v@.len() - i,
    {
        let b = crate::ptb::char_bytes(v[i]);
        if b > 4 - used {
            proof {
                let s = v@.skip(i as int);
                assert(s.len() > 0);
                assert(s[0] == v@[i as int]);
                assert(byte_prefix(s, 4 - used) is None);
            }
            return chars_of("misc");
        }
        proof {
            let s = v@.skip(i as int);
            assert(s[0] == v@[i as int]);
            assert(s.drop_first() =~= v@.skip(i + 1));
            assert(v@.take(i + 1) =~= v@.take(i as int) + seq![v@[i as int]]);
            match byte_prefix(v@.skip(i + 1), 4 - used - b) {
                Some(p) => {
                    assert(v@.take(i as int) + (seq![v@[i as int]] + p) =~= v@.take(i + 1) + p);
                },
                None => {},
            }
        }
        used = used + b;
        i = i + 1;
    }
    if used == 4 {
        proof {
            assert(v@.take(i as int) + Seq::<char>::empty() =~= v@.take(i as int));
            assert(v@.take(i as int) =~= v@.subrange(0, i as int));
        }
        slice(&v, 0, i)
    } else {
        chars_of("misc")
    }
}


/// The (year, position) pairs of the releases, grouped to make the year indexes.
pub open spec fn release_years(es: Seq<ReleaseView>) -> Seq<(Seq<char>, usize)> {
    Seq::new(es.len(), |i: int| (year_of(es[i].date), i as usize))
}

/// A release's page: `changelog/<year>/v<version>.md` and its content.
pub open spec fn release_file(e: ReleaseView) -> (Seq<char>, Seq<char>) {
    ("changelog/"@ + year_of(e.date) + "/v"@ + e.version + ".md"@, spec_render_release(e))
}

/// The link lines of a year's releases, the last one first.
pub open spec fn year_entry_links(out: Seq<char>, year: Seq<char>, es: Seq<ReleaseView>, idxs: Seq<usize>) -> Seq<char>
    decreases idxs.len(),
{
    if idxs.len() == 0 {
        Seq::empty()
    } else if idxs.last() < es.len() {
        let e = es[idxs.last() as int];
        "- [["@ + out + "/changelog/"@ + year + "/v"@ + e.version + "|PTB v"@ + e.version + "]] - "@ + e.date + "\n"@
            + year_entry_links(out, year, es, idxs.drop_last())
    } else {
        year_entry_links(out, year, es, idxs.drop_last())
    }
}

/// The index page of one year of releases.
pub open spec fn spec_release_year_index(out: Seq<char>, year: Seq<char>, es: Seq<ReleaseView>, idxs: Seq<usize>) -> Seq<char> {
    "---\ntitle: PTB Changelog "@ + year + "\nsource: "@ + changes_url() + "\ntags:\n  - ptb\n  - changelog\n---\n\n# PTB Changelog "@
        + year + "\n\n"@ + year_entry_links(out, year, es, idxs)
}

/// The link lines of the years, the last one first.
pub open spec fn release_year_links(out: Seq<char>, years: Seq<Seq<char>>) -> Seq<char>
    decreases years.len(),
{
    if years.len() == 0 {
        Seq::empty()
    } else {
        "- [["@ + out + "/changelog/"@ + years.last() + "/index|"@ + years.last() + "]]\n"@ + release_year_links(out, years.drop_last())
    }
}

/// The top index page of the changelog.
pub open spec fn spec_release_index(out: Seq<char>, years: Seq<Seq<char>>) -> Seq<char> {
    "---\ntitle: PTB Changelog\nsource: "@ + changes_url() + "\ntags:\n  - ptb\n  - changelog\n---\n\n# PTB Changelog\n\n"@
        + release_year_links(out, years)
}

/// The changelog's files, paths relative to the output directory: each release's page, then
/// each year's index (years in increasing order), then the top index.
pub open spec fn spec_plan_changelog(es: Seq<ReleaseView>, out: Seq<char>) -> Seq<(Seq<char>, Seq<char>)> {
    let groups = spec_group_all(release_years(es));
    es.map_values(|e: ReleaseView| release_file(e))
        + groups.map_values(|g: (Seq<char>, Seq<usize>)| ("changelog/"@ + g.0 + "/index.md"@, spec_release_year_index(out, g.0, es, g.1)))
        + seq![("changelog/index.md"@, spec_release_index(out, groups.map_values(|g: (Seq<char>, Seq<usize>)| g.0)))]
}

fn release_year_index(out_prefix: &str, year: &Vec<char>, entries: &Vec<ChangelogEntry>, idxs: &Vec<usize>) -> (r: String)
    ensures
        r@ == spec_release_year_index(out_prefix@, year@, releases_view(entries@), idxs@),
{
    let ghost ev = releases_view(entries@);
    let mut head: Vec<char> = Vec::new();
    push_str(&mut head, "---\ntitle: PTB Changelog ");
    push_chars(&mut head, year);
    push_str(&mut head, "\nsource: ");
    push_str(&mut head, "https://github.com/python-telegram-bot/python-telegram-bot/blob/master/CHANGES.rst");
    push_str(&mut head, "\ntags:\n  - ptb\n  - changelog\n---\n\n# PTB Changelog ");
    push_chars(&mut head, year);
    push_str(&mut head, "\n\n");
    let mut out = head;
    let ghost h = out@;
    let mut k: usize = idxs.len();
    proof {
        assert(idxs@.take(idxs@.len() as int) =~= idxs@);
        assert(idxs@.take(idxs@.len() as int).skip(0) =~= idxs@);
    }
    while k > 0
        invariant
            k <= idxs@.len(),
            ev == releases_view(entries@),
            out@ + year_entry_links(out_prefix@, year@, ev, idxs@.take(k as int))
                == h + year_entry_links(out_prefix@, year@, ev, idxs@),
        decreases k,
    {
        proof {
            assert(idxs@.take(k as int).drop_last() =~= idxs@.take(k - 1));
            assert(idxs@.take(k as int).last() == idxs@[k - 1]);
        }
        let ix = idxs[k - 1];
        if ix < entries.len() {
            let e = &entries[ix];
            let ghost before = out@;
            push_str(&mut out, "- [[");
            push_str(&mut out, out_prefix);
            push_str(&mut out, "/changelog/");
            push_chars(&mut out, year);
            push_str(&mut out, "/v");
            push_str(&mut out, e.version.as_str());
            push_str(&mut out, "|PTB v");
            push_str(&mut out, e.version.as_str());
            push_str(&mut out, "]] - ");
            push_str(&mut out, e.date.as_str());
            push_str(&mut out, "\n");
            proof {
                assert(ev[ix as int] == e@);
                let link = "- [["@ + out_prefix@ + "/changelog/"@ + year@ + "/v"@ + e@.version + "|PTB v"@ + e@.version
                    + "]] - "@ + e@.date + "\n"@;
                assert(out@ =~= before + link);
                assert(year_entry_links(out_prefix@, year@, ev, idxs@.take(k as int))
                    == link + year_entry_links(out_prefix@, year@, ev, idxs@.take(k - 1)));
                assert(out@ + year_entry_links(out_prefix@, year@, ev, idxs@.take(k - 1))
                    =~= before + year_entry_links(out_prefix@, year@, ev, idxs@.take(k as int)));
            }
        }
        k = k - 1;
    }
    proof {
        assert(idxs@.take(0) =~= Seq::<usize>::empty());
        assert(out@ + Seq::<char>::empty() =~= out@);
    }
    to_string(&out)
}

fn release_index(out_prefix: &str, years: &Vec<Vec<char>>) -> (r: String)
    ensures
        r@ == spec_release_index(out_prefix@, years.deep_view()),
{
    let ghost yv = years.deep_view();
    let mut out: Vec<char> = Vec::new();
    push_str(&mut out, "---\ntitle: PTB Changelog\nsource: ");
    push_str(&mut out, "https://github.com/python-telegram-bot/python-telegram-bot/blob/master/CHANGES.rst");
    push_str(&mut out, "\ntags:\n  - ptb\n  - changelog\n---\n\n# PTB Changelog\n\n");
    let ghost h = out@;
    let mut k: usize = years.len();
    proof {
        assert(yv.take(years@.len() as int) =~= yv);
    }
    while k > 0
        invariant
            k <= years@.len(),
            yv == years.deep_view(),
            out@ + release_year_links(out_prefix@, yv.take(k as int)) == h + release_year_links(out_prefix@, yv),
        decreases k,
    {
        proof {
            assert(yv.take(k as int).drop_last() =~= yv.take(k - 1));
            assert(yv.take(k as int).last() == years@[k - 1]@);
        }
        let ghost before = out@;
        push_str(&mut out, "- [[");
        push_str(&mut out, out_prefix);
        push_str(&mut out, "/changelog/");
        push_chars(&mut out, &years[k - 1]);
        push_str(&mut out, "/index|");
        push_chars(&mut out, &years[k - 1]);
        push_str(&mut out, "]]\n");
        proof {
            let y = years@[k - 1]@;
            let link = "- [["@ + out_prefix@ + "/changelog/"@ + y + "/index|"@ + y + "]]\n"@;
            assert(out@ =~= before + link);
            assert(out@ + release_year_links(out_prefix@, yv.take(k - 1))
                =~= before + release_year_links(out_prefix@, yv.take(k as int)));
        }
        k = k - 1;
    }
    proof {
        assert(yv.take(0) =~= Seq::<Seq<char>>::empty());
        assert(out@ + Seq::<char>::empty() =~= out@);
    }
    to_string(&out)
}

/// The files that make up the changelog: (path relative to the output directory, content).
pub fn plan_changelog(entries: &Vec<ChangelogEntry>, out_prefix: &str) -> (r: Vec<(String, String)>)
    ensures
        r.deep_view() == spec_plan_changelog(releases_view(entries@), out_prefix@),
{
    let ghost es = releases_view(entries@);
    let mut files: Vec<(String, String)> = Vec::new();
    let mut groups: SortedGroups<usize> = SortedGroups::new();
    let mut i: usize = 0;
    proof {
        assert(es.take(0).map_values(|e: ReleaseView| release_file(e)) =~= Seq::<(Seq<char>, Seq<char>)>::empty());
        assert(files.deep_view() =~= Seq::<(Seq<char>, Seq<char>)>::empty());
        assert(release_years(es).take(0) =~= Seq::<(Seq<char>, usize)>::empty());
    }
    while i < entries.len()
        invariant
            i <= entries@.len(),
            es == releases_view(entries@),
            files.deep_view() == es.take(i as int).map_values(|e: ReleaseView| release_file(e)),
            groups@ == spec_group_all(release_years(es).take(i as int)),
        decreases entries@.len() - i,
    {
        let e = &entries[i];
        let year = year_of_exec(e.date.as_str());
        let mut path: Vec<char> = Vec::new();
        push_str(&mut path, "changelog/");
        push_chars(&mut path, &year);
        push_str(&mut path, "/v");
        push_str(&mut path, e.version.as_str());
        push_str(&mut path, ".md");
        let md = render_changelog_entry(e, out_prefix);
        push_file(&mut files, path, md);
        groups.insert(year, i);
        proof {
            assert(es[i as int] == e@);
            let f = |x: ReleaseView| release_file(x);
            assert(es.take(i + 1).map_values(f) =~= es.take(i as int).map_values(f).push(f(es[i as int])));
            let ry = release_years(es);
            assert(ry.take(i + 1).drop_last() =~= ry.take(i as int));
            assert(ry.take(i + 1).last() == (year_of(es[i as int].date), i));
        }
        i = i + 1;
    }
    proof {
        assert(es.take(entries@.len() as int) =~= es);
        assert(release_years(es).take(entries@.len() as int) =~= release_years(es));
    }
    let ghost gv = groups@;
    let ghost mid = files.deep_view();
    let mut years: Vec<Vec<char>> = Vec::new();
    let mut g: usize = 0;
    while g < groups.len()
        invariant
            g <= groups@.len(),
            gv == groups@,
            es == releases_view(entries@),
            gv == spec_group_all(release_years(es)),
            years.deep_view() =~= gv.take(g as int).map_values(|x: (Seq<char>, Seq<usize>)| x.0),
            files.deep_view() == mid + gv.take(g as int).map_values(|x: (Seq<char>, Seq<usize>)| (
                "changelog/"@ + x.0 + "/index.md"@,
                spec_release_year_index(out_prefix@, x.0, es, x.1),
            )),
        decreases groups@.len() - g,
    {
        let key = groups.key(g);
        let idxs = groups.values(g);
        proof {
            assert(idxs@.map_values(|x: usize| x@) =~= idxs@);
            assert(idxs@ == gv[g as int].1);
            assert(key@ == gv[g as int].0);
        }
        let mut path: Vec<char> = Vec::new();
        push_str(&mut path, "changelog/");
        push_chars(&mut path, key);
        push_str(&mut path, "/index.md");
        let idx = release_year_index(out_prefix, key, entries, idxs);
        push_file(&mut files, path, idx);
        push_piece(&mut years, slice(key, 0, key.len()));
        proof {
            assert(key@.subrange(0, key@.len() as int) =~= key@);
            let f = |x: (Seq<char>, Seq<usize>)| (
                "changelog/"@ + x.0 + "/index.md"@,
                spec_release_year_index(out_prefix@, x.0, es, x.1),
            );
            assert(gv.take(g + 1).map_values(f) =~= gv.take(g as int).map_values(f).push(f(gv[g as int])));
            let h = |x: (Seq<char>, Seq<usize>)| x.0;
            assert(gv.take(g + 1).map_values(h) =~= gv.take(g as int).map_values(h).push(h(gv[g as int])));
        }
        g = g + 1;
    }
    proof {
        assert(gv.take(groups@.len() as int) =~= gv);
    }
    let top = release_index(out_prefix, &years);
    push_file(&mut files, chars_of("changelog/index.md"), top);
    files
}


/// Whether every group holds at least one item and every item is non-empty.
pub open spec fn groups_nonblank(g: Seq<(Seq<char>, Seq<Seq<char>>)>) -> bool {
    forall|i: int| 0 <= i < g.len() ==> (#[trigger] g[i]).1.len() > 0
        && forall|j: int| 0 <= j < g[i].1.len() ==> (#[trigger] g[i].1[j]).len() > 0
}

/// Whether the sections of a release are well formed: keys strictly increasing, no empty
/// section, no empty item.
pub open spec fn sections_ok(g: Seq<(Seq<char>, Seq<Seq<char>>)>) -> bool {
    keys_sorted(g) && groups_nonblank(g)
}

proof fn lemma_insert_nonblank(g: Seq<(Seq<char>, Seq<Seq<char>>)>, k: Seq<char>, v: Seq<char>)
    requires
        groups_nonblank(g),
        v.len() > 0,
    ensures
        groups_nonblank(spec_insert(g, k, v)),
    decreases g.len(),
{
    let r = spec_insert(g, k, v);
    if g.len() == 0 {
        assert(r[0].1 =~= seq![v]);
    } else if g[0].0 == k {
        assert forall|i: int| 0 <= i < r.len() implies (#[trigger] r[i]).1.len() > 0
            && forall|j: int| 0 <= j < r[i].1.len() ==> (#[trigger] r[i].1[j]).len() > 0 by {
            if i > 0 {
                assert(r[i] == g[i]);
            } else {
                assert(r[0].1 == g[0].1.push(v));
                assert forall|j: int| 0 <= j < r[0].1.len() implies (#[trigger] r[0].1[j]).len() > 0 by {
                    if j < g[0].1.len() {
                        assert(r[0].1[j] == g[0].1[j]);
                    }
                }
            }
        }
    } else if seq_lt(k, g[0].0) {
        assert forall|i: int| 0 <= i < r.len() implies (#[trigger] r[i]).1.len() > 0
            && forall|j: int| 0 <= j < r[i].1.len() ==> (#[trigger] r[i].1[j]).len() > 0 by {
            if i > 0 {
                assert(r[i] == g[i - 1]);
            } else {
                assert(r[0].1 =~= seq![v]);
            }
        }
    } else {
        let t = g.drop_first();
        assert forall|i: int| 0 <= i < t.len() implies (#[trigger] t[i]).1.len() > 0
            && forall|j: int| 0 <= j < t[i].1.len() ==> (#[trigger] t[i].1[j]).len() > 0 by {
            assert(t[i] == g[i + 1]);
        }
        lemma_insert_nonblank(t, k, v);
        let rt = spec_insert(t, k, v);
        assert forall|i: int| 0 <= i < r.len() implies (#[trigger] r[i]).1.len() > 0
            && forall|j: int| 0 <= j < r[i].1.len() ==> (#[trigger] r[i].1[j]).len() > 0 by {
            if i > 0 {
                assert(r[i] == rt[i - 1]);
            } else {
                assert(r[0] == g[0]);
            }
        }
    }
}

proof fn lemma_insert_ok(g: Seq<(Seq<char>, Seq<Seq<char>>)>, k: Seq<char>, v: Seq<char>)
    requires
        sections_ok(g),
        v.len() > 0,
    ensures
        sections_ok(spec_insert(g, k, v)),
{
    law_insert_keeps_keys_sorted(g, k, v);
    lemma_insert_nonblank(g, k, v);
}

/// Whether a release of the legacy file is well formed: sections well formed, and a date or
/// at least one section.
pub open spec fn legacy_release_ok(r: ReleaseView) -> bool {
    sections_ok(r.sections) && (r.date.len() > 0 || r.sections.len() > 0)
}

proof fn lemma_legacy_fold_ok(ls: Seq<Seq<char>>, i: int, b: Option<LegacyBlock>, acc: Seq<ReleaseView>)
    requires
        forall|j: int| 0 <= j < acc.len() ==> legacy_release_ok(#[trigger] acc[j]),
        b matches Some(blk) ==> sections_ok(blk.sections),
    ensures
        forall|j: int| 0 <= j < legacy_fold(ls, i, b, acc).len() ==> legacy_release_ok(#[trigger] legacy_fold(ls, i, b, acc)[j]),
    decreases ls.len() - i,
{
    let f = flush_block(b, acc);
    assert forall|j: int| 0 <= j < f.len() implies legacy_release_ok(#[trigger] f[j]) by {
        if j < acc.len() {
            match b {
                Some(blk) => if blk.date.len() > 0 || blk.sections.len() > 0 {
                    assert(f[j] == acc[j]);
                },
                None => {},
            }
        }
    }
    if i < 0 || i >= ls.len() {
        assert(legacy_fold(ls, i, b, acc) == f);
    } else {
        match first_captures(version_re(), ls[i]) {
            Some(caps) => {
                let next = if i + 1 < ls.len() && has_prefix(ls[i + 1], "="@) { i + 2 } else { i + 1 };
                let nb = LegacyBlock { version: group(caps, 1), date: Seq::empty(), sections: Seq::empty(), current: "other"@ };
                lemma_legacy_fold_ok(ls, next, Some(nb), f);
                assert(legacy_fold(ls, i, b, acc) == legacy_fold(ls, next, Some(nb), f));
            },
            None => match b {
                Some(blk) => {
                    let nb = legacy_line(ls, i, blk);
                    let l = ls[i];
                    let t = trim(l);
                    match first_captures(released_re(), l) {
                        Some(_) => {},
                        None => {
                            if is_match(underline_re(), l) && i > 0 && trim(ls[i - 1]).len() > 0 && !has_prefix(trim(ls[i - 1]), "*"@) {
                            } else if has_prefix(t, "-"@) || has_prefix(t, "*"@) {
                                let item = trim(strip_marks(t));
                                if item.len() > 0 {
                                    lemma_insert_ok(blk.sections, blk.current, item);
                                }
                            }
                        },
                    }
                    lemma_legacy_fold_ok(ls, i + 1, Some(nb), acc);
                    assert(legacy_fold(ls, i, b, acc) == legacy_fold(ls, i + 1, Some(nb), acc));
                },
                None => {
                    lemma_legacy_fold_ok(ls, i + 1, None, acc);
                    assert(legacy_fold(ls, i, b, acc) == legacy_fold(ls, i + 1, None, acc));
                },
            },
        }
    }
}

/// Every release read from the legacy file has well-formed sections and has a date or at
/// least one section.
pub proof fn law_legacy_releases_well_formed(text: Seq<char>)
    ensures
        forall|j: int| 0 <= j < spec_parse_legacy(text).len() ==> legacy_release_ok(#[trigger] spec_parse_legacy(text)[j]),
{
    lemma_legacy_fold_ok(lines(text), 0, None, Seq::empty());
}

proof fn lemma_add_fragment_ok(g: Seq<(Seq<char>, Seq<Seq<char>>)>, es: Seq<(Seq<char>, Option<Seq<char>>)>, j: int)
    requires
        sections_ok(g),
    ensures
        sections_ok(add_fragment(g, es, j)),
    decreases j,
{
    if j > 0 {
        lemma_add_fragment_ok(g, es, j - 1);
        let g1 = add_fragment(g, es, j - 1);
        let k = section_order()[j - 1];
        match lookup_string(es, k) {
            Some(s) => if trim(s).len() > 0 {
                lemma_insert_ok(g1, k, trim(s));
            },
            None => {},
        }
    }
}

proof fn lemma_fragments_ok(files: Seq<(Seq<char>, Seq<char>)>, order: Seq<int>, n: int)
    ensures
        fragments_fold(files, order, n) matches Some(g) ==> sections_ok(g),
    decreases n,
{
    if n > 0 {
        lemma_fragments_ok(files, order, n - 1);
        match fragments_fold(files, order, n - 1) {
            Some(g) => match spec_toml_entries(files[order[n - 1]].1) {
                Some(es) => lemma_add_fragment_ok(g, es, 10),
                None => {},
            },
            None => {},
        }
    }
}

/// The sections read from a release directory are well formed.
pub proof fn law_collected_sections_well_formed(files: Seq<(Seq<char>, Seq<char>)>)
    ensures
        spec_collect_sections(files) matches Some(g) ==> sections_ok(g),
{
    lemma_fragments_ok(files, sort_order(names_of(files), files.len() as int), files.len() as int);
}

proof fn lemma_dirs_ok(dirs: Seq<(Seq<char>, Seq<(Seq<char>, Seq<char>)>)>, order: Seq<int>, n: int)
    ensures
        dirs_fold(dirs, order, n) matches Some(es) ==> forall|j: int| 0 <= j < es.len() ==> sections_ok(#[trigger] es[j].sections),
    decreases n,
{
    if n > 0 {
        lemma_dirs_ok(dirs, order, n - 1);
        match dirs_fold(dirs, order, n - 1) {
            Some(es) => {
                let d = dirs[order[n - 1]];
                match first_captures(release_dir_re(), d.0) {
                    Some(c) => {
                        law_collected_sections_well_formed(d.1);
                        match spec_collect_sections(d.1) {
                            Some(g) => {
                                let es2 = es.push(ReleaseView { version: group(c, 1), date: group(c, 2), sections: g });
                                assert forall|j: int| 0 <= j < es2.len() implies sections_ok(#[trigger] es2[j].sections) by {
                                    if j < es.len() {
                                        assert(es2[j] == es[j]);
                                    }
                                }
                            },
                            None => {},
                        }
                    },
                    None => {},
                }
            },
            None => {},
        }
    }
}

/// Every release of the changelog has well-formed sections: keys strictly increasing, no
/// empty section, no empty item.
pub proof fn law_changelog_sections_well_formed(dirs: Seq<(Seq<char>, Seq<(Seq<char>, Seq<char>)>)>, legacy: Option<Seq<char>>)
    ensures
        spec_collect_changelog(dirs, legacy) matches Some(es)
            ==> forall|j: int| 0 <= j < es.len() ==> sections_ok(#[trigger] es[j].sections),
{
    let order = sort_order(names_of(dirs), dirs.len() as int);
    lemma_dirs_ok(dirs, order, dirs.len() as int);
    match legacy {
        Some(t) => {
            law_legacy_releases_well_formed(t);
            match dirs_fold(dirs, order, dirs.len() as int) {
                Some(es) => {
                    let all = spec_parse_legacy(t) + es;
                    assert forall|j: int| 0 <= j < all.len() implies sections_ok(#[trigger] all[j].sections) by {
                        if j < spec_parse_legacy(t).len() {
                            assert(all[j] == spec_parse_legacy(t)[j]);
                            assert(legacy_release_ok(spec_parse_legacy(t)[j]));
                        } else {
                            assert(all[j] == es[j - spec_parse_legacy(t).len()]);
                        }
                    }
                },
                None => {},
            }
        },
        None => {},
    }
}


proof fn lemma_byte_prefix_ascii(s: Seq<char>, n: int)
    requires
        0 <= n <= s.len(),
        forall|i: int| 0 <= i < n ==> (#[trigger] s[i] as u32) < 0x80,
    ensures
        byte_prefix(s, n) == Some(s.take(n)),
    decreases n,
{
    if n == 0 {
        assert(s.take(0) =~= Seq::<char>::empty());
    } else {
        let t = s.drop_first();
        assert((s[0] as u32) < 0x80);
        assert(char_utf8_len(s[0]) == 1);
        assert forall|i: int| 0 <= i < n - 1 implies (#[trigger] t[i] as u32) < 0x80 by {
            assert(t[i] == s[i + 1]);
        }
        lemma_byte_prefix_ascii(t, n - 1);
        assert(seq![s[0]] + t.take(n - 1) =~= s.take(n));
    }
}

/// A date whose first four characters are ASCII (as "2024-01-31") is filed under those four
/// characters.
pub proof fn law_year_of_ascii_date(date: Seq<char>)
    requires
        date.len() >= 4,
        forall|i: int| 0 <= i < 4 ==> (#[trigger] date[i] as u32) < 0x80,
    ensures
        year_of(date) == date.take(4),
{
    lemma_byte_prefix_ascii(date, 4);
}


/// Whether a file of a release directory is a TOML fragment (its name ends in `.toml`).
pub fn is_toml_fragment(name: &str) -> (r: bool)
    ensures
        r == is_match(toml_name_re(), name@),
{
    test_match("\\.toml$", name)
}

/// Whether a directory of the changes is a release's ("22.7_2026-03-16").
pub fn is_release_dir(name: &str) -> (r: bool)
    ensures
        r == is_match(release_dir_re(), name@),
{
    test_match("^(\\d+\\.\\d+(?:\\.\\d+)?)_(\\d{4}-\\d{2}-\\d{2})$", name)
}

proof fn lemma_legacy_acc(ls: Seq<Seq<char>>, j: int, b: Option<LegacyBlock>, acc: Seq<ReleaseView>)
    ensures
        legacy_fold(ls, j, b, acc) == acc + legacy_fold(ls, j, b, Seq::empty()),
    decreases ls.len() - j,
{
    let e = Seq::<ReleaseView>::empty();
    assert(flush_block(b, acc) =~= acc + flush_block(b, e));
    if j < 0 || j >= ls.len() {
    } else {
        match first_captures(version_re(), ls[j]) {
            Some(caps) => {
                let next = if j + 1 < ls.len() && has_prefix(ls[j + 1], "="@) { j + 2 } else { j + 1 };
                let nb = Some(LegacyBlock { version: group(caps, 1), date: Seq::empty(), sections: Seq::empty(), current: "other"@ });
                lemma_legacy_acc(ls, next, nb, flush_block(b, acc));
                lemma_legacy_acc(ls, next, nb, flush_block(b, e));
                assert(legacy_fold(ls, j, b, acc) == legacy_fold(ls, next, nb, flush_block(b, acc)));
                assert(legacy_fold(ls, j, b, e) == legacy_fold(ls, next, nb, flush_block(b, e)));
                assert(flush_block(b, acc) + legacy_fold(ls, next, nb, e) =~= acc + (flush_block(b, e) + legacy_fold(ls, next, nb, e)));
            },
            None => match b {
                Some(blk) => {
                    lemma_legacy_acc(ls, j + 1, Some(legacy_line(ls, j, blk)), acc);
                },
                None => {
                    lemma_legacy_acc(ls, j + 1, None, acc);
                },
            },
        }
    }
}

proof fn lemma_legacy_shift(ls: Seq<Seq<char>>, i: int, j: int, b: Option<LegacyBlock>, acc: Seq<ReleaseView>)
    requires
        0 <= i < j <= ls.len(),
    ensures
        legacy_fold(ls, j, b, acc) == legacy_fold(ls.skip(i), j - i, b, acc),
    decreases ls.len() - j,
{
    let t = ls.skip(i);
    if j < ls.len() {
        assert(t[j - i] == ls[j]);
        assert(t[j - i - 1] == ls[j - 1]);
        if j + 1 < ls.len() {
            assert(t[j - i + 1] == ls[j + 1]);
        }
        match first_captures(version_re(), ls[j]) {
            Some(caps) => {
                let next = if j + 1 < ls.len() && has_prefix(ls[j + 1], "="@) { j + 2 } else { j + 1 };
                let nb = Some(LegacyBlock { version: group(caps, 1), date: Seq::empty(), sections: Seq::empty(), current: "other"@ });
                lemma_legacy_shift(ls, i, next, nb, flush_block(b, acc));
            },
            None => match b {
                Some(blk) => {
                    assert(legacy_line(ls, j, blk) == legacy_line(t, j - i, blk));
                    lemma_legacy_shift(ls, i, j + 1, Some(legacy_line(ls, j, blk)), acc);
                },
                None => {
                    lemma_legacy_shift(ls, i, j + 1, None, acc);
                },
            },
        }
    }
}

proof fn lemma_legacy_split(ls: Seq<Seq<char>>, i: int, j: int, b: Option<LegacyBlock>, acc: Seq<ReleaseView>)
    requires
        0 <= j <= i < ls.len(),
        first_captures(version_re(), ls[i]) is Some,
        !has_prefix(ls[i], "="@),
    ensures
        legacy_fold(ls, j, b, acc)
            == legacy_fold(ls.take(i), j, b, acc) + legacy_fold(ls.skip(i), 0, None, Seq::empty()),
    decreases i - j,
{
    let t = ls.take(i);
    let s = ls.skip(i);
    let e = Seq::<ReleaseView>::empty();
    if j == i {
        let caps = first_captures(version_re(), ls[i])->0;
        let next = if i + 1 < ls.len() && has_prefix(ls[i + 1], "="@) { i + 2 } else { i + 1 };
        let nb = Some(LegacyBlock { version: group(caps, 1), date: Seq::empty(), sections: Seq::empty(), current: "other"@ });
        assert(s[0] == ls[i]);
        if i + 1 < ls.len() {
            assert(s[1] == ls[i + 1]);
        }
        let f = flush_block(b, acc);
        assert(legacy_fold(ls, j, b, acc) == legacy_fold(ls, next, nb, f));
        assert(legacy_fold(t, j, b, acc) == f);
        assert(flush_block(None, e) == e);
        assert(legacy_fold(s, 0, None, e) == legacy_fold(s, next - i, nb, e));
        lemma_legacy_shift(ls, i, next, nb, f);
        lemma_legacy_acc(s, next - i, nb, f);
    } else {
        assert(t[j] == ls[j]);
        if j > 0 {
            assert(t[j - 1] == ls[j - 1]);
        }
        if j + 1 < i {
            assert(t[j + 1] == ls[j + 1]);
        }
        match first_captures(version_re(), ls[j]) {
            Some(caps) => {
                let next = if j + 1 < ls.len() && has_prefix(ls[j + 1], "="@) { j + 2 } else { j + 1 };
                let nb = Some(LegacyBlock { version: group(caps, 1), date: Seq::empty(), sections: Seq::empty(), current: "other"@ });
                lemma_legacy_split(ls, i, next, nb, flush_block(b, acc));
            },
            None => match b {
                Some(blk) => {
                    assert(legacy_line(ls, j, blk) == legacy_line(t, j, blk));
                    lemma_legacy_split(ls, i, j + 1, Some(legacy_line(ls, j, blk)), acc);
                },
                None => {
                    lemma_legacy_split(ls, i, j + 1, None, acc);
                },
            },
        }
    }
}

/// Each release of the legacy file is read on its own: at a version header (a line that is not
/// a `=` underline), the releases of the whole file are those of the lines before it followed
/// by those of the file that begins there. So a release starts in section "other" and owes
/// nothing to the section the release before it ended in.
pub proof fn law_legacy_releases_read_independently(text: Seq<char>, i: int)
    requires
        0 <= i < lines(text).len(),
        first_captures(version_re(), lines(text)[i]) is Some,
        !has_prefix(lines(text)[i], "="@),
    ensures
        spec_parse_legacy(text) == legacy_fold(lines(text).take(i), 0, None, Seq::empty())
            + legacy_fold(lines(text).skip(i), 0, None, Seq::empty()),
{
    lemma_legacy_split(lines(text), i, 0, None, Seq::empty());
}

} // verus!
