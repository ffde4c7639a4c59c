//! The python-telegram-bot sources: classes parsed from Python files, RST docstrings turned
//! into Markdown, and the changelog.
use vstd::prelude::*;
use crate::anchor_index::{spec_resolve, AnchorIndex};
use crate::pattern::{
    captures, first_captures, group, group_of, replace_all, replace_all_exec, replace_with, splice_into,
    split_captures, TemplatePart, TemplateView,
};
use crate::text::{
    chars_of, ends_with_str, has_prefix, has_sub, has_suffix, is_blank, is_ws, join, join_in, lines,
    lines_in, push_chars, push_piece, push_str, slice, starts_with_str, to_string, trim, trim_chars,
    trim_end_matches, trim_end_matches_str, trim_start, trim_start_chars, trim_start_matches,
    trim_start_matches_str, contains_str, blank, lowercase, spec_lowercase,
};

verus! {

/// The number of bytes of a character in UTF-8.
pub open spec fn char_utf8_len(c: char) -> nat {
    if (c as u32) < 0x80 {
        1
    } else if (c as u32) < 0x800 {
        2
    } else if (c as u32) < 0x10000 {
        3
    } else {
        4
    }
}

/// The number of bytes of a text in UTF-8 (`str::len`).
pub open spec fn utf8_len(s: Seq<char>) -> nat
    decreases s.len(),
{
    if s.len() == 0 {
        0
    } else {
        utf8_len(s.drop_last()) + char_utf8_len(s.last())
    }
}

proof fn lemma_utf8_len_split(s: Seq<char>, k: int)
    requires
        0 <= k <= s.len(),
    ensures
        utf8_len(s) == utf8_len(s.take(k)) + utf8_len(s.skip(k)),
    decreases s.len() - k,
{
    if k < s.len() {
        lemma_utf8_len_split(s.drop_last(), k);
        assert(s.drop_last().take(k) =~= s.take(k));
        assert(s.skip(k).drop_last() =~= s.drop_last().skip(k));
        assert(s.skip(k).last() == s.last());
    } else {
        assert(s.take(k) =~= s);
        assert(s.skip(k) =~= Seq::<char>::empty());
    }
}

pub(crate) fn char_bytes(c: char) -> (r: u128)
    ensures
        r == char_utf8_len(c),
{
    let u = c as u32;
    if u < 0x80 {
        1
    } else if u < 0x800 {
        2
    } else if u < 0x10000 {
        3
    } else {
        4
    }
}

/// The number of UTF-8 bytes of the characters `v[a..b]`.
fn bytes_of(v: &Vec<char>, a: usize, b: usize) -> (r: u128)
    requires
        a <= b <= v.len(),
    ensures
        r == utf8_len(v@.subrange(a as int, b as int)),
        r <= 4 * (b - a),
{
    let mut r: u128 = 0;
    let mut i: usize = a;
    while i < b
        invariant
            a <= i <= b <= v.len(),
            r == utf8_len(v@.subrange(a as int, i as int)),
            r <= 4 * (i - a),
        decreases b - i,
    {
        proof {
            assert(v@.subrange(a as int, i + 1).drop_last() =~= v@.subrange(a as int, i as int));
        }
        r = r + char_bytes(v[i]);
        i = i + 1;
    }
    r
}

/// The indentation of a line in bytes (`line.len() - line.trim_start().len()`).
pub open spec fn indent_of(l: Seq<char>) -> int {
    utf8_len(l) - utf8_len(trim_start(l))
}

pub fn indent(l: &Vec<char>) -> (r: u128)
    ensures
        r == indent_of(l@),
        r <= 4 * l.len(),
{
    let k = crate::text::first_non_ws(l);
    proof {
        assert(trim_start(l@) =~= l@.skip(k as int));
        lemma_utf8_len_split(l@, k as int);
        assert(l@.take(k as int) =~= l@.subrange(0, k as int));
    }
    bytes_of(l, 0, k)
}

/// A class of the Python sources.
pub struct ClassDef {
    /// "telegram" or "telegram.ext" etc.
    pub namespace: String,
    pub name: String,
    pub docstring: String,
    pub bases: Vec<String>,
    pub attrs: Vec<AttrDef>,
    pub methods: Vec<MethodDef>,
    /// source file relative to repo root
    pub source_file: String,
}

/// An annotated class-level attribute.
pub struct AttrDef {
    pub name: String,
    pub type_hint: String,
    pub docstring: String,
}

/// A method of a class.
pub struct MethodDef {
    pub name: String,
    pub is_async: bool,
    pub signature: String,
    pub docstring: String,
}

pub ghost struct AttrView {
    pub name: Seq<char>,
    pub type_hint: Seq<char>,
    pub docstring: Seq<char>,
}

pub ghost struct MethodView {
    pub name: Seq<char>,
    pub is_async: bool,
    pub signature: Seq<char>,
    pub docstring: Seq<char>,
}

pub ghost struct ClassView {
    pub namespace: Seq<char>,
    pub name: Seq<char>,
    pub docstring: Seq<char>,
    pub bases: Seq<Seq<char>>,
    pub attrs: Seq<AttrView>,
    pub methods: Seq<MethodView>,
    pub source_file: Seq<char>,
}

impl View for AttrDef {
    type V = AttrView;

    open spec fn view(&self) -> AttrView {
        AttrView { name: self.name@, type_hint: self.type_hint@, docstring: self.docstring@ }
    }
}

impl View for MethodDef {
    type V = MethodView;

    open spec fn view(&self) -> MethodView {
        MethodView { name: self.name@, is_async: self.is_async, signature: self.signature@, docstring: self.docstring@ }
    }
}

impl View for ClassDef {
    type V = ClassView;

    open spec fn view(&self) -> ClassView {
        ClassView {
            namespace: self.namespace@,
            name: self.name@,
            docstring: self.docstring@,
            bases: self.bases.deep_view(),
            attrs: self.attrs@.map_values(|a: AttrDef| a@),
            methods: self.methods@.map_values(|m: MethodDef| m@),
            source_file: self.source_file@,
        }
    }
}

/// The doc path of a class: its namespace with `.` made `/`, then `/` and its name.
pub open spec fn spec_class_doc_path(namespace: Seq<char>, class_name: Seq<char>) -> Seq<char> {
    crate::text::replace_char(namespace, '.', "/"@) + "/"@ + class_name
}

/// "telegram" -> "telegram/Bot", "telegram.ext" -> "telegram/ext/Application".
pub fn class_doc_path(namespace: &str, class_name: &str) -> (r: String)
    ensures
        r@ == spec_class_doc_path(namespace@, class_name@),
{
    let mut out = crate::text::replace_char_in(&chars_of(namespace), '.', "/");
    push_str(&mut out, "/");
    push_str(&mut out, class_name);
    to_string(&out)
}

/// The position of the `)` that closes the parenthesis left open at depth `depth`, scanning
/// `s` from `i` and counting nested parentheses.
pub open spec fn closing_paren(s: Seq<char>, i: int, depth: int) -> Option<int>
    decreases s.len() - i,
{
    if i < 0 || i >= s.len() {
        None
    } else if s[i] == '(' {
        closing_paren(s, i + 1, depth + 1)
    } else if s[i] == ')' {
        if depth <= 1 {
            Some(i)
        } else {
            closing_paren(s, i + 1, depth - 1)
        }
    } else {
        closing_paren(s, i + 1, depth)
    }
}

/// Whether the first `(` of a text is closed in it.
pub open spec fn params_closed(buf: Seq<char>) -> bool {
    match crate::text::find_char(buf, '(') {
        Some(st) => closing_paren(buf, st + 1, 1) is Some,
        None => false,
    }
}

/// The signature buffer of a `def`: the line, then following lines (trimmed, after a space)
/// until the first `(` is closed, at most 30 lines in all.
pub open spec fn sig_buf(ls: Seq<Seq<char>>, d: int, buf: Seq<char>, i: int) -> Seq<char>
    decreases ls.len() - i,
{
    if !params_closed(buf) && 0 <= i < ls.len() {
        let buf2 = buf + " "@ + trim(ls[i]);
        if i + 1 - d > 30 {
            buf2
        } else {
            sig_buf(ls, d, buf2, i + 1)
        }
    } else {
        buf
    }
}

/// The parameters of the `def` at line `d`: the text between its first `(` and the `)` that
/// closes it, trimmed (up to the end of the buffer when it is never closed); empty when the
/// signature has no `(`.
pub open spec fn spec_collect_signature(ls: Seq<Seq<char>>, d: int) -> Seq<char> {
    let buf = sig_buf(ls, d, trim_start(ls[d]), d + 1);
    match crate::text::find_char(buf, '(') {
        Some(st) => match closing_paren(buf, st + 1, 1) {
            Some(e) => trim(buf.subrange(st + 1, e)),
            None => trim(buf.skip(st + 1)),
        },
        None => Seq::empty(),
    }
}

/// The position of the `)` closing the parenthesis open just before `start`.
fn closing_paren_in(v: &Vec<char>, start: usize) -> (r: Option<usize>)
    requires
        1 <= start <= v.len(),
    ensures
        match r {
            Some(e) => closing_paren(v@, start as int, 1) == Some(e as int) && start <= e < v.len(),
            None => closing_paren(v@, start as int, 1) is None,
        },
{
    let mut i: usize = start;
    let mut depth: usize = 1;
    while i < v.len()
        invariant
            start <= i <= v.len(),
            1 <= depth <= i,
            closing_paren(v@, start as int, 1) == closing_paren(v@, i as int, depth as int),
        decreases v.len() - i,
    {
        if v[i] == '(' {
            depth = depth + 1;
        } else if v[i] == ')' {
            if depth <= 1 {
                return Some(i);
            }
            depth = depth - 1;
        }
        i = i + 1;
    }
    None
}

/// Whether the first `(` of a text is closed in it.
fn params_closed_in(v: &Vec<char>) -> (r: bool)
    ensures
        r == params_closed(v@),
{
    match crate::text::find_in(v, '(') {
        Some(st) => {
            closing_paren_in(v, st + 1).is_some()
        },
        None => false,
    }
}

/// Collect the full parameter list for a def, handling multi-line signatures: the text
/// between the def's opening parenthesis and the one that closes it.
pub fn collect_signature(lines: &Vec<Vec<char>>, def_line: usize) -> (r: Vec<char>)
    requires
        def_line < lines.len(),
    ensures
        r@ == spec_collect_signature(lines.deep_view(), def_line as int),
{
    let ghost ls = lines.deep_view();
    proof {
        assert(ls[def_line as int] == lines@[def_line as int]@);
    }
    let mut buf = trim_start_chars(&lines[def_line]);
    let mut i: usize = def_line + 1;
    while !params_closed_in(&buf) && i < lines.len()
        invariant_except_break
            sig_buf(ls, def_line as int, trim_start(ls[def_line as int]), def_line + 1) == sig_buf(ls, def_line as int, buf@, i as int),
        invariant
            def_line < i <= lines.len(),
            ls == lines.deep_view(),
        ensures
            sig_buf(ls, def_line as int, trim_start(ls[def_line as int]), def_line + 1) == buf@,
        decreases lines.len() - i,
    {
        proof {
            assert(ls[i as int] == lines@[i as int]@);
        }
        push_str(&mut buf, " ");
        push_chars(&mut buf, &trim_chars(&lines[i]));
        i = i + 1;
        if i - def_line > 30 {
            break;
        }
    }
    match crate::text::find_in(&buf, '(') {
        Some(st) => {
            match closing_paren_in(&buf, st + 1) {
                Some(e) => trim_chars(&slice(&buf, st + 1, e)),
                None => {
                    proof {
                        assert(buf@.skip(st + 1) =~= buf@.subrange(st + 1, buf@.len() as int));
                    }
                    trim_chars(&slice(&buf, st + 1, buf.len()))
                },
            }
        },
        None => Vec::new(),
    }
}

/// The first line at or after `i` that is not blank, or the end.
pub open spec fn skip_blank(ls: Seq<Seq<char>>, i: int) -> int
    decreases ls.len() - i,
{
    if 0 <= i < ls.len() && trim(ls[i]).len() == 0 {
        skip_blank(ls, i + 1)
    } else {
        i
    }
}

/// The lines of a docstring from line `i` on, up to the line that ends with the delimiter
/// (which is kept without it), each trimmed, after the pieces `buf`.
pub open spec fn doc_tail(ls: Seq<Seq<char>>, i: int, delim: Seq<char>, buf: Seq<Seq<char>>) -> Seq<Seq<char>>
    decreases ls.len() - i,
{
    if i < 0 || i >= ls.len() {
        buf
    } else {
        let l = trim(ls[i]);
        if has_suffix(l, delim) {
            buf.push(trim_end_matches(l, delim))
        } else {
            doc_tail(ls, i + 1, delim, buf.push(l))
        }
    }
}

/// The first triple-quoted docstring after line `after`: the first line that is not blank must
/// open it with `"""` or `'''`.
pub open spec fn spec_docstring_after(ls: Seq<Seq<char>>, after: int) -> Seq<char> {
    let i = skip_blank(ls, after + 1);
    if i < 0 || i >= ls.len() {
        Seq::empty()
    } else {
        let first = trim(ls[i]);
        if !has_prefix(first, "\"\"\""@) && !has_prefix(first, "'''"@) {
            Seq::empty()
        } else {
            let delim = if has_prefix(first, "\"\"\""@) { "\"\"\""@ } else { "'''"@ };
            let sc = trim_start_matches(first, delim);
            if has_suffix(sc, delim) && utf8_len(sc) > utf8_len(delim) {
                trim(trim_end_matches(sc, delim))
            } else {
                trim(join(doc_tail(ls, i + 1, delim, seq![sc]), "\n"@))
            }
        }
    }
}

/// Extract the first triple-quoted docstring following line `after`.
pub fn extract_docstring_after(lines: &Vec<Vec<char>>, after: usize) -> (r: Vec<char>)
    requires
        after < usize::MAX,
    ensures
        r@ == spec_docstring_after(lines.deep_view(), after as int),
{
    let ghost ls = lines.deep_view();
    if after >= lines.len() {
        return Vec::new();
    }
    let mut i: usize = after + 1;
    while i < lines.len() && blank(&lines[i])
        invariant
            after < i <= lines.len(),
            ls == lines.deep_view(),
            skip_blank(ls, after + 1) == skip_blank(ls, i as int),
        decreases lines.len() - i,
    {
        proof {
            assert(ls[i as int] == lines@[i as int]@);
        }
        i = i + 1;
    }
    proof {
        if i < lines.len() {
            assert(ls[i as int] == lines@[i as int]@);
        }
    }
    if i >= lines.len() {
        return Vec::new();
    }
    let first = trim_chars(&lines[i]);
    let tq = starts_with_str(&first, "\"\"\"");
    if !tq && !starts_with_str(&first, "'''") {
        return Vec::new();
    }
    let delim: &str = if tq { "\"\"\"" } else { "'''" };
    let sc = trim_start_matches_str(&first, delim);
    let dv = chars_of(delim);
    if ends_with_str(&sc, delim) && bytes_of(&sc, 0, sc.len()) > bytes_of(&dv, 0, dv.len()) {
        proof {
            assert(sc@.subrange(0, sc@.len() as int) =~= sc@);
            assert(dv@.subrange(0, dv@.len() as int) =~= dv@);
        }
        return trim_chars(&trim_end_matches_str(&sc, delim));
    }
    proof {
        assert(sc@.subrange(0, sc@.len() as int) =~= sc@);
        assert(dv@.subrange(0, dv@.len() as int) =~= dv@);
    }
    let ghost sv = sc@;
    let mut buf: Vec<Vec<char>> = Vec::new();
    proof {
        assert(buf.deep_view() =~= Seq::<Seq<char>>::empty());
    }
    push_piece(&mut buf, sc);
    proof {
        assert(buf.deep_view() =~= seq![sv]);
    }
    let mut j: usize = i + 1;
    while j < lines.len()
        invariant_except_break
            doc_tail(ls, i + 1, delim@, seq![sv]) == doc_tail(ls, j as int, delim@, buf.deep_view()),
        invariant
            i < j <= lines.len(),
            ls == lines.deep_view(),
        ensures
            doc_tail(ls, i + 1, delim@, seq![sv]) == buf.deep_view(),
        decreases lines.len() - j,
    {
        proof {
            assert(ls[j as int] == lines@[j as int]@);
        }
        let l = trim_chars(&lines[j]);
        if ends_with_str(&l, delim) {
            push_piece(&mut buf, trim_end_matches_str(&l, delim));
            break;
        }
        push_piece(&mut buf, l);
        j = j + 1;
    }
    trim_chars(&join_in(&buf, "\n"))
}

/// The pattern of a method definition line: `def name(` or `async def name(`.
pub open spec fn method_re() -> Seq<char> {
    "^(async\\s+)?def\\s+(\\w+)\\s*\\("@
}

/// The pattern of an annotated attribute line: `name: type`.
pub open spec fn attr_re() -> Seq<char> {
    "^(\\w+):\\s*(.+)"@
}

/// Whether a line at member level starts the next member (or leaves the method body).
pub open spec fn starts_member(s: Seq<char>) -> bool {
    has_prefix(s, "def "@) || has_prefix(s, "async def "@) || has_prefix(s, "class "@) || has_prefix(s, "@"@)
}

/// The members of a class body from line `i` on: methods and annotated attributes at the
/// member indentation (`ci + 4` bytes), until a line at the class indentation or less. While
/// `skipping`, the lines of a method body are passed over up to the next member-level
/// `def`/`async def`/`class`/decorator or a line indented less than a member.
pub open spec fn body_members(ls: Seq<Seq<char>>, i: int, ci: int, skipping: bool, attrs: Seq<AttrView>, methods: Seq<MethodView>) -> (Seq<AttrView>, Seq<MethodView>)
    decreases ls.len() - i, (if skipping { 1int } else { 0int }),
{
    if i < 0 || i >= ls.len() {
        (attrs, methods)
    } else {
        let line = ls[i];
        if skipping {
            if trim(line).len() == 0 {
                body_members(ls, i + 1, ci, true, attrs, methods)
            } else if indent_of(line) < ci + 4 || (indent_of(line) == ci + 4 && starts_member(trim_start(line))) {
                body_members(ls, i, ci, false, attrs, methods)
            } else {
                body_members(ls, i + 1, ci, true, attrs, methods)
            }
        } else if trim(line).len() == 0 {
            body_members(ls, i + 1, ci, false, attrs, methods)
        } else if indent_of(line) <= ci {
            (attrs, methods)
        } else if indent_of(line) != ci + 4 {
            body_members(ls, i + 1, ci, false, attrs, methods)
        } else {
            let stripped = trim_start(line);
            match first_captures(method_re(), stripped) {
                Some(c) => {
                    let mname = group(c, 2);
                    let m = MethodView {
                        name: mname,
                        is_async: 1 < c.len() && c[1] is Some,
                        signature: spec_collect_signature(ls, i),
                        docstring: spec_docstring_after(ls, i),
                    };
                    let methods2 = if !has_prefix(mname, "_"@) || has_prefix(mname, "__"@) { methods.push(m) } else { methods };
                    body_members(ls, i + 1, ci, true, attrs, methods2)
                },
                None => match first_captures(attr_re(), stripped) {
                    Some(c) => {
                        let an = group(c, 1);
                        let attrs2 = if !has_prefix(an, "_"@) && an != "def"@ && an != "class"@ {
                            attrs.push(AttrView {
                                name: an,
                                type_hint: trim(crate::text::before_char(group(c, 2), '=')),
                                docstring: Seq::empty(),
                            })
                        } else {
                            attrs
                        };
                        body_members(ls, i + 1, ci, false, attrs2, methods)
                    },
                    None => body_members(ls, i + 1, ci, false, attrs, methods),
                },
            }
        }
    }
}

/// The attributes and methods of the class whose header ends at line `class_line`.
pub fn parse_class_body(lines: &Vec<Vec<char>>, class_line: usize) -> (r: (Vec<AttrDef>, Vec<MethodDef>))
    requires
        class_line < lines.len(),
    ensures
        (r.0@.map_values(|a: AttrDef| a@), r.1@.map_values(|m: MethodDef| m@)) == body_members(
            lines.deep_view(), class_line + 1, indent_of(lines.deep_view()[class_line as int]), false,
            Seq::empty(), Seq::empty()),
{
    let ghost ls = lines.deep_view();
    proof {
        assert(ls[class_line as int] == lines@[class_line as int]@);
    }
    let ci = indent(&lines[class_line]);
    let mi = ci + 4;
    let mut attrs: Vec<AttrDef> = Vec::new();
    let mut methods: Vec<MethodDef> = Vec::new();
    let ghost target = body_members(ls, class_line + 1, ci as int, false, Seq::empty(), Seq::empty());
    proof {
        assert(attrs@.map_values(|a: AttrDef| a@) =~= Seq::<AttrView>::empty());
        assert(methods@.map_values(|m: MethodDef| m@) =~= Seq::<MethodView>::empty());
    }
    let mut i: usize = class_line + 1;
    while i < lines.len()
        invariant_except_break
            target == body_members(ls, i as int, ci as int, false, attrs@.map_values(|a: AttrDef| a@), methods@.map_values(|m: MethodDef| m@)),
        invariant
            class_line < i <= lines.len(),
            ls == lines.deep_view(),
            mi == ci + 4,
            ci <= 4 * lines@[class_line as int].len(),
        ensures
            target == (attrs@.map_values(|a: AttrDef| a@), methods@.map_values(|m: MethodDef| m@)),
        decreases lines.len() - i,
    {
        proof {
            assert(ls[i as int] == lines@[i as int]@);
        }
        let line = &lines[i];
        if blank(line) {
            proof {
                crate::text::lemma_blank_trim(line@);
            }
            i = i + 1;
            continue;
        }
        proof {
            crate::text::lemma_blank_trim(line@);
        }
        let ind = indent(line);
        if ind <= ci {
            break;
        }
        if ind != mi {
            i = i + 1;
            continue;
        }
        let stripped = to_string(&trim_start_chars(line));
        match captures("^(async\\s+)?def\\s+(\\w+)\\s*\\(", stripped.as_str()) {
            Some(c) => {
                let is_async = c.len() > 1 && c[1].is_some();
                proof {
                    if c.len() > 1 {
                        assert(c.deep_view()[1] == c@[1].deep_view());
                    }
                }
                let mname = group_of(&c, 2);
                let sig = collect_signature(lines, i);
                let doc = extract_docstring_after(lines, i);
                let keep = !starts_with_str(&mname, "_") || starts_with_str(&mname, "__");
                if keep {
                    let m = MethodDef {
                        name: to_string(&mname),
                        is_async: is_async,
                        signature: to_string(&sig),
                        docstring: to_string(&doc),
                    };
                    let ghost before = methods@;
                    methods.push(m);
                    proof {
                        assert(methods@.map_values(|m: MethodDef| m@) =~= before.map_values(|m: MethodDef| m@).push(m@));
                    }
                }
                let ghost i0 = i;
                i = i + 1;
                while i < lines.len()
                    invariant_except_break
                        target == body_members(ls, i as int, ci as int, true, attrs@.map_values(|a: AttrDef| a@), methods@.map_values(|m: MethodDef| m@)),
                    invariant
                        class_line < i0 < i <= lines.len(),
                        ls == lines.deep_view(),
                        mi == ci + 4,
                    ensures
                        target == body_members(ls, i as int, ci as int, false, attrs@.map_values(|a: AttrDef| a@), methods@.map_values(|m: MethodDef| m@)),
                    decreases lines.len() - i,
                {
                    proof {
                        assert(ls[i as int] == lines@[i as int]@);
                        crate::text::lemma_blank_trim(lines@[i as int]@);
                    }
                    let l = &lines[i];
                    if blank(l) {
                        i = i + 1;
                        continue;
                    }
                    let ind2 = indent(l);
                    if ind2 < mi {
                        break;
                    }
                    if ind2 == mi {
                        let s = trim_start_chars(l);
                        if starts_with_str(&s, "def ") || starts_with_str(&s, "async def ")
                            || starts_with_str(&s, "class ") || starts_with_str(&s, "@") {
                            break;
                        }
                    }
                    i = i + 1;
                }
                continue;
            },
            None => {},
        }
        match captures("^(\\w+):\\s*(.+)", stripped.as_str()) {
            Some(c) => {
                let an = group_of(&c, 1);
                if !starts_with_str(&an, "_") && !crate::text::eq_str(&an, "def") && !crate::text::eq_str(&an, "class") {
                    let th = trim_chars(&crate::text::before_char_in(&group_of(&c, 2), '='));
                    let a = AttrDef { name: to_string(&an), type_hint: to_string(&th), docstring: String::new() };
                    let ghost before = attrs@;
                    attrs.push(a);
                    proof {
                        assert(attrs@.map_values(|a: AttrDef| a@) =~= before.map_values(|a: AttrDef| a@).push(a@));
                    }
                }
            },
            None => {},
        }
        i = i + 1;
    }
    (attrs, methods)
}

/// The pieces, trimmed, that are not empty.
pub open spec fn trimmed_nonempty(ps: Seq<Seq<char>>) -> Seq<Seq<char>>
    decreases ps.len(),
{
    if ps.len() == 0 {
        Seq::empty()
    } else {
        trimmed_nonempty(ps.drop_last()) + if trim(ps.last()).len() > 0 { seq![trim(ps.last())] } else { Seq::empty() }
    }
}

/// The pattern of a class header: `class Name(bases)`.
pub open spec fn class_re() -> Seq<char> {
    "class\\s+(\\w+)\\s*\\(([^)]*)\\)"@
}

/// The class of a header (its name must not start with `_`), with the docstring and the
/// members that follow the header's last line `class_line`.
pub open spec fn spec_class_header(header: Seq<char>, ls: Seq<Seq<char>>, class_line: int, namespace: Seq<char>, path: Seq<char>) -> Option<ClassView> {
    match first_captures(class_re(), header) {
        None => None,
        Some(c) => {
            let name = group(c, 1);
            if has_prefix(name, "_"@) {
                None
            } else {
                let members = body_members(ls, class_line + 1, indent_of(ls[class_line]), false, Seq::empty(), Seq::empty());
                Some(ClassView {
                    namespace: namespace,
                    name: name,
                    docstring: spec_docstring_after(ls, class_line),
                    bases: trimmed_nonempty(crate::text::split_char(group(c, 2), ',')),
                    attrs: members.0,
                    methods: members.1,
                    source_file: path,
                })
            }
        },
    }
}

fn trimmed_nonempty_in(ps: &Vec<Vec<char>>) -> (r: Vec<String>)
    ensures
        r.deep_view() == trimmed_nonempty(ps.deep_view()),
{
    let ghost pv = ps.deep_view();
    let mut r: Vec<String> = Vec::new();
    let mut i: usize = 0;
    proof {
        assert(r.deep_view() =~= Seq::<Seq<char>>::empty());
    }
    while i < ps.len()
        invariant
            i <= ps.len(),
            pv == ps.deep_view(),
            r.deep_view() == trimmed_nonempty(pv.take(i as int)),
        decreases ps.len() - i,
    {
        proof {
            assert(pv.take(i + 1).drop_last() =~= pv.take(i as int));
            assert(pv.take(i + 1).last() == ps@[i as int]@);
        }
        let t = trim_chars(&ps[i]);
        if t.len() > 0 {
            let ghost before = r.deep_view();
            crate::text::push_deep(&mut r, to_string(&t));
        } else {
            proof {
                assert(r.deep_view() =~= r.deep_view() + Seq::<Seq<char>>::empty());
            }
        }
        i = i + 1;
    }
    proof {
        assert(pv.take(ps.len() as int) =~= pv);
    }
    r
}

/// The class of a header whose last line is `class_line`, if it is a public class.
pub fn parse_class_header(header: &str, lines: &Vec<Vec<char>>, class_line: usize, namespace: &str, path: &str) -> (r: Option<ClassDef>)
    requires
        class_line < lines.len(),
    ensures
        match r {
            Some(c) => spec_class_header(header@, lines.deep_view(), class_line as int, namespace@, path@) == Some(c@),
            None => spec_class_header(header@, lines.deep_view(), class_line as int, namespace@, path@) is None,
        },
{
    let c = match captures("class\\s+(\\w+)\\s*\\(([^)]*)\\)", header) {
        Some(c) => c,
        None => return None,
    };
    let name = group_of(&c, 1);
    if starts_with_str(&name, "_") {
        return None;
    }
    let bases_raw = group_of(&c, 2);
    let bases = trimmed_nonempty_in(&crate::text::split_char_in(&bases_raw, ','));
    let docstring = extract_docstring_after(lines, class_line);
    let (attrs, methods) = parse_class_body(lines, class_line);
    Some(ClassDef {
        namespace: String::from_str(namespace),
        name: to_string(&name),
        docstring: to_string(&docstring),
        bases: bases,
        attrs: attrs,
        methods: methods,
        source_file: String::from_str(path),
    })
}

/// The classes of a Python source from line `i` on. `hdr` holds the header being collected,
/// whose last line so far is line `i`: it grows by the next line (trimmed, after a space)
/// until it holds `):` or the source ends.
pub open spec fn classes_from(ls: Seq<Seq<char>>, i: int, namespace: Seq<char>, path: Seq<char>, acc: Seq<ClassView>, hdr: Option<Seq<char>>) -> Seq<ClassView>
    decreases ls.len() - i, (if hdr is Some { 0int } else { 1int }),
{
    if i < 0 || i >= ls.len() {
        acc
    } else {
        match hdr {
            None => {
                let line = trim_start(ls[i]);
                if has_prefix(line, "class "@) && line.contains('(') {
                    classes_from(ls, i, namespace, path, acc, Some(line))
                } else {
                    classes_from(ls, i + 1, namespace, path, acc, None)
                }
            },
            Some(h) => if !has_sub(h, "):"@) && i + 1 < ls.len() {
                classes_from(ls, i + 1, namespace, path, acc, Some(h + " "@ + trim(ls[i + 1])))
            } else {
                let acc2 = match spec_class_header(h, ls, i, namespace, path) {
                    Some(c) => acc.push(c),
                    None => acc,
                };
                classes_from(ls, i + 1, namespace, path, acc2, None)
            },
        }
    }
}

/// The public classes of a Python source file, in order.
pub open spec fn spec_python_classes(src: Seq<char>, namespace: Seq<char>, path: Seq<char>) -> Seq<ClassView> {
    classes_from(lines(src), 0, namespace, path, Seq::empty(), None)
}

/// The views of a list of classes.
pub open spec fn classes_view(cs: Seq<ClassDef>) -> Seq<ClassView> {
    cs.map_values(|c: ClassDef| c@)
}

/// Find class definitions (handles multi-line bases).
pub fn parse_python_classes(src: &str, namespace: &str, path: &str) -> (r: Vec<ClassDef>)
    ensures
        classes_view(r@) == spec_python_classes(src@, namespace@, path@),
{
    let lines = lines_in(&chars_of(src));
    let ghost ls = lines.deep_view();
    let mut classes: Vec<ClassDef> = Vec::new();
    let ghost target = spec_python_classes(src@, namespace@, path@);
    proof {
        assert(classes_view(classes@) =~= Seq::<ClassView>::empty());
    }
    let mut i: usize = 0;
    while i < lines.len()
        invariant
            i <= lines.len(),
            ls == lines.deep_view(),
            target == classes_from(ls, i as int, namespace@, path@, classes_view(classes@), None),
        decreases lines.len() - i,
    {
        proof {
            assert(ls[i as int] == lines@[i as int]@);
        }
        let line = trim_start_chars(&lines[i]);
        if starts_with_str(&line, "class ") && crate::text::find_in(&line, '(').is_some() {
            proof {
                match crate::text::find_char(line@, '(') {
                    Some(k) => {
                        assert(line@.contains('(')) by {
                            crate::text::lemma_find_char_some(line@, '(');
                        }
                    },
                    None => {},
                }
            }
            let mut header = slice(&line, 0, line.len());
            let mut j: usize = i;
            proof {
                assert(line@.subrange(0, line@.len() as int) =~= line@);
            }
            while !contains_str(&header, "):") && j + 1 < lines.len()
                invariant
                    i <= j < lines.len(),
                    ls == lines.deep_view(),
                    target == classes_from(ls, j as int, namespace@, path@, classes_view(classes@), Some(header@)),
                decreases lines.len() - j,
            {
                proof {
                    assert(ls[j + 1] == lines@[j + 1]@);
                }
                j = j + 1;
                push_str(&mut header, " ");
                push_chars(&mut header, &trim_chars(&lines[j]));
            }
            let hs = to_string(&header);
            match parse_class_header(hs.as_str(), &lines, j, namespace, path) {
                Some(cls) => {
                    let ghost before = classes@;
                    classes.push(cls);
                    proof {
                        assert(classes_view(classes@) =~= classes_view(before).push(cls@));
                    }
                },
                None => {},
            }
            i = j + 1;
        } else {
            proof {
                if line@.contains('(') {
                    let k = choose|k: int| 0 <= k < line@.len() && line@[k] == '(';
                    crate::text::lemma_find_char_none(line@, '(', k);
                }
            }
            i = i + 1;
        }
    }
    classes
}

/// The pattern of a code directive line: `.. code:: lang` or `.. code-block:: lang`.
pub open spec fn directive_re() -> Seq<char> {
    "^\\s*\\.\\. code(?:-block)?::?\\s*(\\w*)$"@
}

/// Whether a line belongs to the indented body of a code directive.
pub open spec fn in_code_body(l: Seq<char>) -> bool {
    trim(l).len() == 0 || has_prefix(l, "    "@) || has_prefix(l, "\t"@)
}

/// A body line without its first four spaces.
pub open spec fn strip4(l: Seq<char>) -> Seq<char> {
    if has_prefix(l, "    "@) { l.skip(4) } else { l }
}

/// The body without its trailing blank lines.
pub open spec fn drop_trailing_blank(b: Seq<Seq<char>>) -> Seq<Seq<char>>
    decreases b.len(),
{
    if b.len() > 0 && trim(b.last()).len() == 0 {
        drop_trailing_blank(b.drop_last())
    } else {
        b
    }
}

/// A fenced code block: the fence with the language, the body, the closing fence.
pub open spec fn fenced(lang: Seq<char>, body: Seq<Seq<char>>) -> Seq<Seq<char>> {
    seq!["```"@ + lang] + drop_trailing_blank(body) + seq!["```"@]
}

/// The output lines of the code-block conversion from line `i` on; `st` holds the language
/// and body lines of a code block being read.
pub open spec fn code_blocks_from(ls: Seq<Seq<char>>, i: int, out: Seq<Seq<char>>, st: Option<(Seq<char>, Seq<Seq<char>>)>) -> Seq<Seq<char>>
    decreases ls.len() - i, (if st is Some { 1int } else { 0int }),
{
    if i < 0 || i >= ls.len() {
        match st {
            None => out,
            Some(b) => out + fenced(b.0, b.1),
        }
    } else {
        match st {
            None => match first_captures(directive_re(), ls[i]) {
                Some(c) => {
                    let lang = trim(group(c, 1));
                    if i + 1 < ls.len() && trim(ls[i + 1]).len() == 0 {
                        code_blocks_from(ls, i + 2, out, Some((lang, Seq::empty())))
                    } else {
                        code_blocks_from(ls, i + 1, out, Some((lang, Seq::empty())))
                    }
                },
                None => code_blocks_from(ls, i + 1, out.push(ls[i]), None),
            },
            Some(b) => if in_code_body(ls[i]) {
                code_blocks_from(ls, i + 1, out, Some((b.0, b.1.push(strip4(ls[i])))))
            } else {
                code_blocks_from(ls, i, out + fenced(b.0, b.1), None)
            },
        }
    }
}

/// RST code directives as fenced code blocks, the other lines as they are, joined by `\n`.
pub open spec fn spec_code_blocks(text: Seq<char>) -> Seq<char> {
    join(code_blocks_from(lines(text), 0, Seq::empty(), None), "\n"@)
}

/// Appends a fenced code block.
fn push_fenced(out: &mut Vec<Vec<char>>, lang: &Vec<char>, body: &mut Vec<Vec<char>>)
    ensures
        final(out).deep_view() == old(out).deep_view() + fenced(lang@, old(body).deep_view()),
{
    let ghost b0 = body.deep_view();
    while body.len() > 0 && blank(&body[body.len() - 1])
        invariant
            drop_trailing_blank(b0) == drop_trailing_blank(body.deep_view()),
        decreases body.len(),
    {
        proof {
            assert(body.deep_view().last() == body@[body.len() - 1]@);
            crate::text::lemma_blank_trim(body@[body.len() - 1]@);
        }
        let ghost before = body@;
        let ghost bd = body.deep_view();
        body.pop();
        proof {
            assert forall|j: int| 0 <= j < body@.len() implies #[trigger] body.deep_view()[j] == bd.drop_last()[j] by {
                assert(body@[j] == before[j]);
            }
            assert(body.deep_view() =~= bd.drop_last());
        }
    }
    proof {
        if body.len() > 0 {
            assert(body.deep_view().last() == body@[body.len() - 1]@);
            crate::text::lemma_blank_trim(body@[body.len() - 1]@);
        }
        assert(drop_trailing_blank(body.deep_view()) == body.deep_view());
    }
    let ghost start = out.deep_view();
    let mut fence: Vec<char> = Vec::new();
    push_str(&mut fence, "```");
    push_chars(&mut fence, lang);
    push_piece(out, fence);
    let ghost mid = out.deep_view();
    let mut i: usize = 0;
    while i < body.len()
        invariant
            i <= body.len(),
            out.deep_view() == mid + body.deep_view().take(i as int),
        decreases body.len() - i,
    {
        let piece = slice(&body[i], 0, body[i].len());
        proof {
            assert(piece@ =~= body.deep_view()[i as int]);
            assert(body.deep_view().take(i + 1) =~= body.deep_view().take(i as int).push(piece@));
        }
        push_piece(out, piece);
        i = i + 1;
    }
    proof {
        assert(body.deep_view().take(body.len() as int) =~= body.deep_view());
    }
    push_piece(out, chars_of("```"));
    proof {
        assert(out.deep_view() =~= start + fenced(lang@, b0));
    }
}

/// Converts RST `.. code::` / `.. code-block::` directives to fenced code blocks.
pub fn convert_rst_code_blocks(text: &str) -> (r: String)
    ensures
        r@ == spec_code_blocks(text@),
{
    let ls = lines_in(&chars_of(text));
    let ghost lv = ls.deep_view();
    let ghost target = code_blocks_from(lv, 0, Seq::empty(), None);
    let mut out: Vec<Vec<char>> = Vec::new();
    proof {
        assert(out.deep_view() =~= Seq::<Seq<char>>::empty());
    }
    let mut i: usize = 0;
    while i < ls.len()
        invariant
            i <= ls.len(),
            lv == ls.deep_view(),
            target == code_blocks_from(lv, i as int, out.deep_view(), None),
        decreases ls.len() - i,
    {
        let ghost i_start = i;
        proof {
            assert(lv[i as int] == ls@[i as int]@);
        }
        let line = to_string(&ls[i]);
        match captures("^\\s*\\.\\. code(?:-block)?::?\\s*(\\w*)$", line.as_str()) {
            Some(c) => {
                let lang = trim_chars(&group_of(&c, 1));
                if i + 1 < ls.len() && blank(&ls[i + 1]) {
                    proof {
                        assert(lv[i + 1] == ls@[i + 1]@);
                        crate::text::lemma_blank_trim(lv[i + 1]);
                    }
                    i = i + 2;
                } else {
                    proof {
                        if i + 1 < ls.len() {
                            assert(lv[i + 1] == ls@[i + 1]@);
                            crate::text::lemma_blank_trim(lv[i + 1]);
                        }
                    }
                    i = i + 1;
                }
                let mut body: Vec<Vec<char>> = Vec::new();
                proof {
                    assert(body.deep_view() =~= Seq::<Seq<char>>::empty());
                    reveal_strlit("    ");
                }
                let ghost i0 = i;
                assert(i0 > i_start);
                while i < ls.len() && (blank(&ls[i]) || starts_with_str(&ls[i], "    ") || starts_with_str(&ls[i], "\t"))
                    invariant
                        i_start < i0 <= i <= ls.len(),
                        lv == ls.deep_view(),
                        target == code_blocks_from(lv, i as int, out.deep_view(), Some((lang@, body.deep_view()))),
                    decreases ls.len() - i,
                {
                    proof {
                        assert(lv[i as int] == ls@[i as int]@);
                        crate::text::lemma_blank_trim(lv[i as int]);
                    }
                    let raw = &ls[i];
                    proof {
                        reveal_strlit("    ");
                    }
                    let stripped = if starts_with_str(raw, "    ") { slice(raw, 4, raw.len()) } else { slice(raw, 0, raw.len()) };
                    proof {
                        assert(stripped@ =~= strip4(lv[i as int]));
                    }
                    push_piece(&mut body, stripped);
                    i = i + 1;
                }
                proof {
                    if i < ls.len() {
                        assert(lv[i as int] == ls@[i as int]@);
                        crate::text::lemma_blank_trim(lv[i as int]);
                    }
                }
                push_fenced(&mut out, &lang, &mut body);
            },
            None => {
                push_piece(&mut out, slice(&ls[i], 0, ls[i].len()));
                proof {
                    assert(ls@[i as int]@.subrange(0, ls@[i as int]@.len() as int) =~= lv[i as int]);
                }
                i = i + 1;
            },
        }
    }
    to_string(&join_in(&out, "\n"))
}

/// The template `` `$1` ``.
pub open spec fn tick_group1() -> Seq<TemplateView> {
    seq![TemplateView::Lit("`"@), TemplateView::Group(1), TemplateView::Lit("`"@)]
}

fn tick_group1_exec() -> (r: Vec<TemplatePart>)
    ensures
        r@.map_values(|p: TemplatePart| p@) == tick_group1(),
{
    let r = vec![TemplatePart::Lit(String::from_str("`")), TemplatePart::Group(1), TemplatePart::Lit(String::from_str("`"))];
    proof {
        assert(r@.map_values(|p: TemplatePart| p@) =~= tick_group1());
    }
    r
}

/// The RST conversions other than `:class:` and `:meth:`: `:attr:`, `:obj:`, `:any:`/`:ref:`/
/// `:wiki:` roles as inline code, code directives as fenced blocks, version notes as quoted
/// emphasis, `seealso` as bold, admonitions as quoted bold labels.
pub open spec fn spec_rst_rest(rst: Seq<char>) -> Seq<char> {
    let a = replace_all(":attr:`([^`]+)`"@, rst, tick_group1());
    let b = replace_all(":obj:`([^`]+)`"@, a, tick_group1());
    let c = replace_all(":(?:any|ref|wiki):`([^<`]+?)\\s*(?:<[^>]+>)?`"@, b, tick_group1());
    let d = spec_code_blocks(c);
    let e = replace_all("\\.\\. version(?:added|changed|deprecated)::\\s*(\\S+)([^\\n]*)"@, d,
        seq![TemplateView::Lit("> *"@), TemplateView::Group(0), TemplateView::Lit("*"@)]);
    let f = replace_all("\\.\\. seealso::([^\\n]*)"@, e,
        seq![TemplateView::Lit("**See also:**"@), TemplateView::Group(1)]);
    replace_all("\\.\\. (note|tip|warning|caution)::([^\\n]*)"@, f,
        seq![TemplateView::Lit("> **"@), TemplateView::Group(1), TemplateView::Lit(":**"@), TemplateView::Group(2)])
}

/// Same as `rst_to_md` but skips :class: and :meth: (already resolved by the caller).
pub fn rst_to_md_no_class_meth(rst: &str) -> (r: String)
    ensures
        r@ == spec_rst_rest(rst@),
{
    let t = tick_group1_exec();
    let a = replace_all_exec(":attr:`([^`]+)`", rst, &t);
    let b = replace_all_exec(":obj:`([^`]+)`", a.as_str(), &t);
    let c = replace_all_exec(":(?:any|ref|wiki):`([^<`]+?)\\s*(?:<[^>]+>)?`", b.as_str(), &t);
    let d = convert_rst_code_blocks(c.as_str());
    let tv = vec![TemplatePart::Lit(String::from_str("> *")), TemplatePart::Group(0), TemplatePart::Lit(String::from_str("*"))];
    proof {
        assert(tv@.map_values(|p: TemplatePart| p@) =~= seq![TemplateView::Lit("> *"@), TemplateView::Group(0), TemplateView::Lit("*"@)]);
    }
    let e = replace_all_exec("\\.\\. version(?:added|changed|deprecated)::\\s*(\\S+)([^\\n]*)", d.as_str(), &tv);
    let ts = vec![TemplatePart::Lit(String::from_str("**See also:**")), TemplatePart::Group(1)];
    proof {
        assert(ts@.map_values(|p: TemplatePart| p@) =~= seq![TemplateView::Lit("**See also:**"@), TemplateView::Group(1)]);
    }
    let f = replace_all_exec("\\.\\. seealso::([^\\n]*)", e.as_str(), &ts);
    let ta = vec![
        TemplatePart::Lit(String::from_str("> **")),
        TemplatePart::Group(1),
        TemplatePart::Lit(String::from_str(":**")),
        TemplatePart::Group(2),
    ];
    proof {
        assert(ta@.map_values(|p: TemplatePart| p@) =~= seq![TemplateView::Lit("> **"@), TemplateView::Group(1), TemplateView::Lit(":**"@), TemplateView::Group(2)]);
    }
    replace_all_exec("\\.\\. (note|tip|warning|caution)::([^\\n]*)", f.as_str(), &ta)
}

/// The text before the last `c`, or nothing (`rsplitn(2, c)` second part, else `""`).
pub open spec fn before_last_char(s: Seq<char>, c: char) -> Seq<char> {
    match crate::text::rfind_char(s, c) {
        Some(i) => s.take(i),
        None => Seq::empty(),
    }
}

/// The replacement of a `:class:` role: a link through the anchor index to the class's short
/// name, else a wiki-link built from the dotted path under `source_prefix`.
pub open spec fn class_link(caps: Seq<Option<Seq<char>>>, m: Map<Seq<char>, Seq<char>>, current_doc: Seq<char>, source_prefix: Seq<char>) -> Seq<char> {
    let full = group(caps, 1);
    let short = crate::text::after_last_char(full, '.');
    let key = spec_lowercase(short);
    match spec_resolve(m, "#"@ + key, current_doc) {
        Some(wiki) => "["@ + short + "]("@ + wiki + ")"@,
        None => "[["@ + source_prefix + "/"@ + crate::text::replace_char(full, '.', "/"@) + "|"@ + short + "]]"@,
    }
}

/// The replacement of a `:meth:` role: a link through the anchor index (`class.method`,
/// lowercase) to the method name, else the method name as inline code.
pub open spec fn meth_link(caps: Seq<Option<Seq<char>>>, m: Map<Seq<char>, Seq<char>>, current_doc: Seq<char>) -> Seq<char> {
    let full = group(caps, 1);
    let method = crate::text::after_last_char(full, '.');
    let class_path = before_last_char(full, '.');
    let key = spec_lowercase(crate::text::after_last_char(class_path, '.')) + "."@ + spec_lowercase(method);
    match spec_resolve(m, "#"@ + key, current_doc) {
        Some(wiki) => "["@ + method + "]("@ + wiki + ")"@,
        None => "`"@ + method + "`"@,
    }
}

/// RST to Markdown with Obsidian wiki-link resolution for `:class:` and `:meth:` roles.
pub open spec fn spec_rst_links(rst: Seq<char>, m: Map<Seq<char>, Seq<char>>, current_doc: Seq<char>, source_prefix: Seq<char>) -> Seq<char> {
    let a = replace_with(":class:`([^`]+)`"@, rst, |c: Seq<Option<Seq<char>>>| class_link(c, m, current_doc, source_prefix));
    let b = replace_with(":meth:`([^`]+)`"@, a, |c: Seq<Option<Seq<char>>>| meth_link(c, m, current_doc));
    spec_rst_rest(b)
}

fn class_link_exec(caps: &Vec<Option<String>>, index: &AnchorIndex, current_doc: &str, source_prefix: &str) -> (r: Vec<char>)
    ensures
        r@ == class_link(caps.deep_view(), index@, current_doc@, source_prefix@),
{
    let full = group_of(caps, 1);
    let short = crate::text::after_last_char_in(&full, '.');
    let key = lowercase(to_string(&short).as_str());
    let mut href: Vec<char> = Vec::new();
    push_str(&mut href, "#");
    push_str(&mut href, key.as_str());
    let mut out: Vec<char> = Vec::new();
    match index.resolve(to_string(&href).as_str(), current_doc) {
        Some(wiki) => {
            push_str(&mut out, "[");
            push_chars(&mut out, &short);
            push_str(&mut out, "](");
            push_str(&mut out, wiki.as_str());
            push_str(&mut out, ")");
        },
        None => {
            push_str(&mut out, "[[");
            push_str(&mut out, source_prefix);
            push_str(&mut out, "/");
            push_chars(&mut out, &crate::text::replace_char_in(&full, '.', "/"));
            push_str(&mut out, "|");
            push_chars(&mut out, &short);
            push_str(&mut out, "]]");
        },
    }
    out
}

fn meth_link_exec(caps: &Vec<Option<String>>, index: &AnchorIndex, current_doc: &str) -> (r: Vec<char>)
    ensures
        r@ == meth_link(caps.deep_view(), index@, current_doc@),
{
    let full = group_of(caps, 1);
    let method = crate::text::after_last_char_in(&full, '.');
    let class_path = match crate::text::rfind_in(&full, '.') {
        Some(i) => slice(&full, 0, i),
        None => Vec::new(),
    };
    proof {
        match crate::text::rfind_char(full@, '.') {
            Some(i) => { assert(full@.take(i) =~= full@.subrange(0, i)); },
            None => {},
        }
    }
    let cls_low = lowercase(to_string(&crate::text::after_last_char_in(&class_path, '.')).as_str());
    let m_low = lowercase(to_string(&method).as_str());
    let mut href: Vec<char> = Vec::new();
    push_str(&mut href, "#");
    push_str(&mut href, cls_low.as_str());
    push_str(&mut href, ".");
    push_str(&mut href, m_low.as_str());
    proof {
        assert(class_path@ == before_last_char(full@, '.'));
        assert(href@ =~= "#"@ + (spec_lowercase(crate::text::after_last_char(class_path@, '.')) + "."@ + spec_lowercase(method@)));
    }
    let mut out: Vec<char> = Vec::new();
    match index.resolve(to_string(&href).as_str(), current_doc) {
        Some(wiki) => {
            push_str(&mut out, "[");
            push_chars(&mut out, &method);
            push_str(&mut out, "](");
            push_str(&mut out, wiki.as_str());
            push_str(&mut out, ")");
        },
        None => {
            push_str(&mut out, "`");
            push_chars(&mut out, &method);
            push_str(&mut out, "`");
        },
    }
    out
}

/// `Regex::replace_all` of `:class:` roles by their links.
fn replace_class_roles(text: &str, index: &AnchorIndex, current_doc: &str, source_prefix: &str) -> (r: String)
    ensures
        r@ == replace_with(":class:`([^`]+)`"@, text@, |c: Seq<Option<Seq<char>>>| class_link(c, index@, current_doc@, source_prefix@)),
{
    let ghost f = |c: Seq<Option<Seq<char>>>| class_link(c, index@, current_doc@, source_prefix@);
    match split_captures(":class:`([^`]+)`", text) {
        Some((gaps, caps)) => {
            let ghost cv = caps.deep_view();
            let mut reps: Vec<Vec<char>> = Vec::new();
            let mut i: usize = 0;
            while i < caps.len()
                invariant
                    i <= caps.len(),
                    cv == caps.deep_view(),
                    f == |c: Seq<Option<Seq<char>>>| class_link(c, index@, current_doc@, source_prefix@),
                    reps.deep_view() =~= cv.take(i as int).map_values(f),
                decreases caps.len() - i,
            {
                let one = class_link_exec(&caps[i], index, current_doc, source_prefix);
                proof {
                    assert(cv[i as int] == caps@[i as int].deep_view());
                }
                push_piece(&mut reps, one);
                proof {
                    assert(cv.take(i + 1).map_values(f) =~= cv.take(i as int).map_values(f).push(f(cv[i as int])));
                }
                i = i + 1;
            }
            proof {
                assert(cv.take(caps.len() as int) =~= cv);
            }
            let mut out: Vec<char> = Vec::new();
            splice_into(&gaps, &reps, &mut out);
            to_string(&out)
        },
        None => to_string(&chars_of(text)),
    }
}

/// `Regex::replace_all` of `:meth:` roles by their links.
fn replace_meth_roles(text: &str, index: &AnchorIndex, current_doc: &str) -> (r: String)
    ensures
        r@ == replace_with(":meth:`([^`]+)`"@, text@, |c: Seq<Option<Seq<char>>>| meth_link(c, index@, current_doc@)),
{
    let ghost f = |c: Seq<Option<Seq<char>>>| meth_link(c, index@, current_doc@);
    match split_captures(":meth:`([^`]+)`", text) {
        Some((gaps, caps)) => {
            let ghost cv = caps.deep_view();
            let mut reps: Vec<Vec<char>> = Vec::new();
            let mut i: usize = 0;
            while i < caps.len()
                invariant
                    i <= caps.len(),
                    cv == caps.deep_view(),
                    f == |c: Seq<Option<Seq<char>>>| meth_link(c, index@, current_doc@),
                    reps.deep_view() =~= cv.take(i as int).map_values(f),
                decreases caps.len() - i,
            {
                let one = meth_link_exec(&caps[i], index, current_doc);
                proof {
                    assert(cv[i as int] == caps@[i as int].deep_view());
                }
                push_piece(&mut reps, one);
                proof {
                    assert(cv.take(i + 1).map_values(f) =~= cv.take(i as int).map_values(f).push(f(cv[i as int])));
                }
                i = i + 1;
            }
            proof {
                assert(cv.take(caps.len() as int) =~= cv);
            }
            let mut out: Vec<char> = Vec::new();
            splice_into(&gaps, &reps, &mut out);
            to_string(&out)
        },
        None => to_string(&chars_of(text)),
    }
}

/// RST -> MD with Obsidian wiki-link resolution for :class:/:meth: refs.
pub fn rst_to_md_with_links(rst: &str, index: &AnchorIndex, current_doc: &str, source_prefix: &str) -> (r: String)
    ensures
        r@ == spec_rst_links(rst@, index@, current_doc@, source_prefix@),
{
    let a = replace_class_roles(rst, index, current_doc, source_prefix);
    let b = replace_meth_roles(a.as_str(), index, current_doc);
    rst_to_md_no_class_meth(b.as_str())
}

/// The short name of a `:class:` or `:meth:` role as inline code.
pub open spec fn short_code(caps: Seq<Option<Seq<char>>>) -> Seq<char> {
    "`"@ + crate::text::after_last_char(group(caps, 1), '.') + "`"@
}

/// A role replaced by its last dotted name as inline code. A text that does not hold the
/// role's opening `lit` is kept as it is, without running the pattern, which begins with it.
pub open spec fn short_role(pattern: Seq<char>, lit: Seq<char>, text: Seq<char>) -> Seq<char> {
    if has_sub(text, lit) {
        replace_with(pattern, text, |c: Seq<Option<Seq<char>>>| short_code(c))
    } else {
        text
    }
}

/// Minimal RST to Markdown conversion for docstrings, without links.
pub open spec fn spec_rst_to_md(rst: Seq<char>) -> Seq<char> {
    let a = short_role(":class:`([^`]+)`"@, ":class:`"@, rst);
    let b = short_role(":meth:`([^`]+)`"@, ":meth:`"@, a);
    spec_rst_rest(b)
}

fn replace_short(pattern: &str, text: &str) -> (r: String)
    ensures
        r@ == replace_with(pattern@, text@, |c: Seq<Option<Seq<char>>>| short_code(c)),
{
    let ghost f = |c: Seq<Option<Seq<char>>>| short_code(c);
    match split_captures(pattern, text) {
        Some((gaps, caps)) => {
            let ghost cv = caps.deep_view();
            let mut reps: Vec<Vec<char>> = Vec::new();
            let mut i: usize = 0;
            while i < caps.len()
                invariant
                    i <= caps.len(),
                    cv == caps.deep_view(),
                    f == |c: Seq<Option<Seq<char>>>| short_code(c),
                    reps.deep_view() =~= cv.take(i as int).map_values(f),
                decreases caps.len() - i,
            {
                let mut one: Vec<char> = Vec::new();
                push_str(&mut one, "`");
                push_chars(&mut one, &crate::text::after_last_char_in(&group_of(&caps[i], 1), '.'));
                push_str(&mut one, "`");
                proof {
                    assert(cv[i as int] == caps@[i as int].deep_view());
                }
                push_piece(&mut reps, one);
                proof {
                    assert(cv.take(i + 1).map_values(f) =~= cv.take(i as int).map_values(f).push(f(cv[i as int])));
                }
                i = i + 1;
            }
            proof {
                assert(cv.take(caps.len() as int) =~= cv);
            }
            let mut out: Vec<char> = Vec::new();
            splice_into(&gaps, &reps, &mut out);
            to_string(&out)
        },
        None => to_string(&chars_of(text)),
    }
}

/// Minimal RST -> Markdown conversion for docstrings.
pub fn rst_to_md(rst: &str) -> (r: String)
    ensures
        r@ == spec_rst_to_md(rst@),
{
    let a = short_role_exec(":class:`([^`]+)`", ":class:`", rst);
    let b = short_role_exec(":meth:`([^`]+)`", ":meth:`", a.as_str());
    rst_to_md_no_class_meth(b.as_str())
}

fn short_role_exec(pattern: &str, lit: &str, text: &str) -> (r: String)
    ensures
        r@ == short_role(pattern@, lit@, text@),
{
    let t = chars_of(text);
    if contains_str(&t, lit) {
        replace_short(pattern, text)
    } else {
        to_string(&t)
    }
}


/// On a text that holds neither `:class:`` nor `:meth:``, the conversion without those
/// roles is the full conversion.
pub proof fn law_no_roles_same_conversion(rst: Seq<char>)
    requires
        !has_sub(rst, ":class:`"@),
        !has_sub(rst, ":meth:`"@),
    ensures
        spec_rst_rest(rst) == spec_rst_to_md(rst),
{
}

/// The names of a list of methods.
pub open spec fn method_names(ms: Seq<MethodView>) -> Seq<Seq<char>> {
    ms.map_values(|m: MethodView| m.name)
}

proof fn lemma_body_members_stop(
    ls: Seq<Seq<char>>,
    e: int,
    i: int,
    ci: int,
    skipping: bool,
    attrs: Seq<AttrView>,
    methods: Seq<MethodView>,
    methods2: Seq<MethodView>,
)
    requires
        0 <= i <= e < ls.len(),
        trim(ls[e]).len() > 0,
        indent_of(ls[e]) <= ci,
        method_names(methods) == method_names(methods2),
    ensures
        body_members(ls, i, ci, skipping, attrs, methods).0 == body_members(ls.take(e), i, ci, skipping, attrs, methods2).0,
        method_names(body_members(ls, i, ci, skipping, attrs, methods).1)
            == method_names(body_members(ls.take(e), i, ci, skipping, attrs, methods2).1),
    decreases e - i, (if skipping { 1int } else { 0int }),
{
    let t = ls.take(e);
    if i == e {
        if skipping {
            lemma_body_members_stop(ls, e, i, ci, false, attrs, methods, methods2);
        }
    } else {
        let line = ls[i];
        assert(t[i] == line);
        if skipping {
            if trim(line).len() == 0 {
                lemma_body_members_stop(ls, e, i + 1, ci, true, attrs, methods, methods2);
            } else if indent_of(line) < ci + 4 || (indent_of(line) == ci + 4 && starts_member(trim_start(line))) {
                lemma_body_members_stop(ls, e, i, ci, false, attrs, methods, methods2);
            } else {
                lemma_body_members_stop(ls, e, i + 1, ci, true, attrs, methods, methods2);
            }
        } else if trim(line).len() == 0 {
            lemma_body_members_stop(ls, e, i + 1, ci, false, attrs, methods, methods2);
        } else if indent_of(line) <= ci {
        } else if indent_of(line) != ci + 4 {
            lemma_body_members_stop(ls, e, i + 1, ci, false, attrs, methods, methods2);
        } else {
            let stripped = trim_start(line);
            match first_captures(method_re(), stripped) {
                Some(c) => {
                    let mname = group(c, 2);
                    let m1 = MethodView {
                        name: mname,
                        is_async: 1 < c.len() && c[1] is Some,
                        signature: spec_collect_signature(ls, i),
                        docstring: spec_docstring_after(ls, i),
                    };
                    let m2 = MethodView {
                        name: mname,
                        is_async: 1 < c.len() && c[1] is Some,
                        signature: spec_collect_signature(t, i),
                        docstring: spec_docstring_after(t, i),
                    };
                    if !has_prefix(mname, "_"@) || has_prefix(mname, "__"@) {
                        assert(method_names(methods.push(m1)) =~= method_names(methods).push(mname));
                        assert(method_names(methods2.push(m2)) =~= method_names(methods2).push(mname));
                        lemma_body_members_stop(ls, e, i + 1, ci, true, attrs, methods.push(m1), methods2.push(m2));
                    } else {
                        lemma_body_members_stop(ls, e, i + 1, ci, true, attrs, methods, methods2);
                    }
                },
                None => match first_captures(attr_re(), stripped) {
                    Some(c) => {
                        let an = group(c, 1);
                        let attrs2 = if !has_prefix(an, "_"@) && an != "def"@ && an != "class"@ {
                            attrs.push(AttrView {
                                name: an,
                                type_hint: trim(crate::text::before_char(group(c, 2), '=')),
                                docstring: Seq::empty(),
                            })
                        } else {
                            attrs
                        };
                        lemma_body_members_stop(ls, e, i + 1, ci, false, attrs2, methods, methods2);
                    },
                    None => {
                        lemma_body_members_stop(ls, e, i + 1, ci, false, attrs, methods, methods2);
                    },
                },
            }
        }
    }
}

/// A class body ends at the first non-blank line indented no deeper than the class header:
/// cutting the source at that line leaves the attributes of the class and the names of its
/// methods as they are, so nothing after it (such as a later class at the same indentation)
/// is taken for a member.
pub proof fn law_class_body_ends_at_dedent(ls: Seq<Seq<char>>, class_line: int, e: int)
    requires
        0 <= class_line < e < ls.len(),
        trim(ls[e]).len() > 0,
        indent_of(ls[e]) <= indent_of(ls[class_line]),
    ensures
        body_members(ls, class_line + 1, indent_of(ls[class_line]), false, Seq::empty(), Seq::empty()).0
            == body_members(ls.take(e), class_line + 1, indent_of(ls.take(e)[class_line]), false, Seq::empty(), Seq::empty()).0,
        method_names(body_members(ls, class_line + 1, indent_of(ls[class_line]), false, Seq::empty(), Seq::empty()).1)
            == method_names(body_members(ls.take(e), class_line + 1, indent_of(ls.take(e)[class_line]), false, Seq::empty(), Seq::empty()).1),
{
    assert(ls.take(e)[class_line] == ls[class_line]);
    lemma_body_members_stop(ls, e, class_line + 1, indent_of(ls[class_line]), false, Seq::empty(), Seq::empty(), Seq::empty());
}

/// Body lines without their first four spaces.
pub open spec fn dedent4(b: Seq<Seq<char>>) -> Seq<Seq<char>> {
    b.map_values(|l: Seq<char>| l.skip(4))
}

proof fn lemma_code_body_to_end(ls: Seq<Seq<char>>, j: int, out: Seq<Seq<char>>, lang: Seq<char>, acc: Seq<Seq<char>>)
    requires
        0 <= j <= ls.len(),
        forall|k: int| j <= k < ls.len() ==> has_prefix(#[trigger] ls[k], "    "@),
    ensures
        code_blocks_from(ls, j, out, Some((lang, acc))) == out + fenced(lang, acc + dedent4(ls.subrange(j, ls.len() as int))),
    decreases ls.len() - j,
{
    if j == ls.len() {
        assert(acc + dedent4(ls.subrange(j, ls.len() as int)) =~= acc);
    } else {
        assert(has_prefix(ls[j], "    "@));
        assert(in_code_body(ls[j]));
        assert(strip4(ls[j]) == ls[j].skip(4));
        lemma_code_body_to_end(ls, j + 1, out, lang, acc.push(ls[j].skip(4)));
        assert(acc.push(ls[j].skip(4)) + dedent4(ls.subrange(j + 1, ls.len() as int))
            =~= acc + dedent4(ls.subrange(j, ls.len() as int)));
    }
}

/// A code directive (`.. code:: lang`, a blank line, then lines indented by four spaces) becomes
/// a fenced block in that language whose lines are the body lines with exactly their first
/// four spaces removed, so the code keeps its own relative indentation.
pub proof fn law_code_block_keeps_relative_indent(text: Seq<char>)
    requires
        lines(text).len() >= 2,
        first_captures(directive_re(), lines(text)[0]) is Some,
        trim(lines(text)[1]).len() == 0,
        forall|k: int| 2 <= k < lines(text).len() ==> has_prefix(#[trigger] lines(text)[k], "    "@),
    ensures
        spec_code_blocks(text) == join(fenced(
            trim(group(first_captures(directive_re(), lines(text)[0])->0, 1)),
            dedent4(lines(text).skip(2)),
        ), "\n"@),
{
    let ls = lines(text);
    let lang = trim(group(first_captures(directive_re(), ls[0])->0, 1));
    lemma_code_body_to_end(ls, 2, Seq::empty(), lang, Seq::empty());
    assert(ls.subrange(2, ls.len() as int) =~= ls.skip(2));
    assert(Seq::<Seq<char>>::empty() + dedent4(ls.skip(2)) =~= dedent4(ls.skip(2)));
    assert(Seq::<Seq<char>>::empty() + fenced(lang, dedent4(ls.skip(2))) =~= fenced(lang, dedent4(ls.skip(2))));
}

} // verus!
