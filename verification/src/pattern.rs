//! Regular-expression searches (through the `regex` crate) and the splicing of replacements.
use vstd::prelude::*;
use crate::text::{chars_of, push_chars, push_str, to_string};

verus! {

/// The name of what `regex::Regex::new(pattern)` and then `Regex::captures_iter(text)` give:
/// `None` when the pattern does not compile, else for each successive non-overlapping match
/// its capture groups (group 0 is the whole match; a group that did not take part is `None`).
pub uninterp spec fn spec_regex_captures(pattern: Seq<char>, text: Seq<char>) -> Option<Seq<Seq<Option<Seq<char>>>>>;

/// The name of what `regex::Regex::new(pattern)` and then `Regex::split(text)` give: `None`
/// when the pattern does not compile, else the pieces of `text` between the matches.
pub uninterp spec fn spec_regex_split(pattern: Seq<char>, text: Seq<char>) -> Option<Seq<Seq<char>>>;

/// Compiles `pattern` with `regex::Regex::new` and collects `Regex::captures_iter` over `text`.
/// Claimed: the result is a function of the two texts, named `spec_regex_captures`.
#[verifier::external_body]
fn regex_captures_all(pattern: &str, text: &str) -> (r: Option<Vec<Vec<Option<String>>>>)
    ensures
        r.deep_view() == spec_regex_captures(pattern@, text@),
{
    regex::Regex::new(pattern).ok().map(|re| {
        re.captures_iter(text).map(|c| c.iter().map(|m| m.map(|m| m.as_str().to_string())).collect()).collect()
    })
}

/// Compiles `pattern` with `regex::Regex::new` and collects `Regex::split` over `text`.
/// Claimed: the result is a function of the two texts, named `spec_regex_split`.
#[verifier::external_body]
fn regex_split(pattern: &str, text: &str) -> (r: Option<Vec<String>>)
    ensures
        r.deep_view() == spec_regex_split(pattern@, text@),
{
    regex::Regex::new(pattern).ok().map(|re| re.split(text).map(|s| s.to_string()).collect())
}

/// The capture groups of the first match, if the pattern compiles and matches
/// (`Regex::captures`).
pub open spec fn first_captures(pattern: Seq<char>, text: Seq<char>) -> Option<Seq<Option<Seq<char>>>> {
    match spec_regex_captures(pattern, text) {
        Some(cs) => if cs.len() > 0 { Some(cs[0]) } else { None },
        None => None,
    }
}

/// Whether the pattern matches somewhere in the text (`Regex::is_match`).
pub open spec fn is_match(pattern: Seq<char>, text: Seq<char>) -> bool {
    first_captures(pattern, text) is Some
}

/// A capture group of a match, or the empty text where it did not take part.
pub open spec fn group(caps: Seq<Option<Seq<char>>>, i: int) -> Seq<char> {
    if 0 <= i < caps.len() && caps[i] is Some {
        caps[i]->0
    } else {
        Seq::empty()
    }
}

/// The capture groups of the first match of `pattern` in `text`.
pub fn captures(pattern: &str, text: &str) -> (r: Option<Vec<Option<String>>>)
    ensures
        r.deep_view() == first_captures(pattern@, text@),
{
    match regex_captures_all(pattern, text) {
        Some(mut cs) => {
            if cs.len() > 0 {
                proof {
                    assert(cs.deep_view()[0] == cs@[0].deep_view());
                }
                Some(cs.swap_remove(0))
            } else {
                None
            }
        },
        None => None,
    }
}

/// Whether `pattern` matches somewhere in `text`.
pub fn test_match(pattern: &str, text: &str) -> (r: bool)
    ensures
        r == is_match(pattern@, text@),
{
    captures(pattern, text).is_some()
}

/// A group of a match as characters (none where the group did not take part).
pub fn group_of(caps: &Vec<Option<String>>, i: usize) -> (r: Vec<char>)
    ensures
        r@ == group(caps.deep_view(), i as int),
{
    if i < caps.len() {
        match &caps[i] {
            Some(s) => {
                proof {
                    assert(caps.deep_view()[i as int] == caps@[i as int].deep_view());
                }
                chars_of(s.as_str())
            },
            None => {
                proof {
                    assert(caps.deep_view()[i as int] == caps@[i as int].deep_view());
                }
                Vec::new()
            },
        }
    } else {
        Vec::new()
    }
}

/// One part of a replacement template: literal text, or a capture group (`$n`).
pub enum TemplatePart {
    Lit(String),
    Group(usize),
}

pub ghost enum TemplateView {
    Lit(Seq<char>),
    Group(nat),
}

impl View for TemplatePart {
    type V = TemplateView;

    open spec fn view(&self) -> TemplateView {
        match self {
            TemplatePart::Lit(s) => TemplateView::Lit(s@),
            TemplatePart::Group(i) => TemplateView::Group(*i as nat),
        }
    }
}

/// A template with the groups of a match put in (`Captures::expand`).
pub open spec fn expand(t: Seq<TemplateView>, caps: Seq<Option<Seq<char>>>) -> Seq<char>
    decreases t.len(),
{
    if t.len() == 0 {
        Seq::empty()
    } else {
        expand(t.drop_last(), caps) + match t.last() {
            TemplateView::Lit(s) => s,
            TemplateView::Group(i) => group(caps, i as int),
        }
    }
}

/// The text with the replacements put between the pieces: piece 0, replacement 0, piece 1, ...
/// (a replacement that is missing counts as empty).
pub open spec fn splice(gaps: Seq<Seq<char>>, reps: Seq<Seq<char>>) -> Seq<char>
    decreases gaps.len(),
{
    if gaps.len() == 0 {
        Seq::empty()
    } else {
        splice(gaps.drop_last(), reps) + (if gaps.len() >= 2 && gaps.len() - 2 < reps.len() {
            reps[gaps.len() - 2]
        } else {
            Seq::empty()
        }) + gaps.last()
    }
}

/// `Regex::replace_all` with a template: each match replaced by the template expanded with its
/// groups; the text is left as it is when the pattern does not compile.
pub open spec fn replace_all(pattern: Seq<char>, text: Seq<char>, t: Seq<TemplateView>) -> Seq<char> {
    match (spec_regex_split(pattern, text), spec_regex_captures(pattern, text)) {
        (Some(gaps), Some(cs)) => splice(gaps, cs.map_values(|c: Seq<Option<Seq<char>>>| expand(t, c))),
        _ => text,
    }
}

fn expand_into(t: &Vec<TemplatePart>, caps: &Vec<Option<String>>, out: &mut Vec<char>)
    ensures
        final(out)@ == old(out)@ + expand(t@.map_values(|p: TemplatePart| p@), caps.deep_view()),
{
    let ghost tv = t@.map_values(|p: TemplatePart| p@);
    let ghost start = out@;
    let mut i: usize = 0;
    while i < t.len()
        invariant
            i <= t.len(),
            tv == t@.map_values(|p: TemplatePart| p@),
            out@ == start + expand(tv.take(i as int), caps.deep_view()),
        decreases t.len() - i,
    {
        proof {
            assert(tv.take(i + 1).drop_last() =~= tv.take(i as int));
            assert(tv.take(i + 1).last() == t@[i as int]@);
        }
        match &t[i] {
            TemplatePart::Lit(s) => push_str(out, s.as_str()),
            TemplatePart::Group(g) => push_chars(out, &group_of(caps, *g)),
        }
        i = i + 1;
    }
    proof {
        assert(tv.take(t.len() as int) =~= tv);
    }
}

/// Appends the pieces of a text with replacements put between them.
pub fn splice_into(gaps: &Vec<String>, reps: &Vec<Vec<char>>, out: &mut Vec<char>)
    ensures
        final(out)@ == old(out)@ + splice(gaps.deep_view(), reps.deep_view()),
{
    let ghost gv = gaps.deep_view();
    let ghost start = out@;
    let mut i: usize = 0;
    while i < gaps.len()
        invariant
            i <= gaps.len(),
            gv == gaps.deep_view(),
            out@ == start + splice(gv.take(i as int), reps.deep_view()),
        decreases gaps.len() - i,
    {
        proof {
            assert(gv.take(i + 1).drop_last() =~= gv.take(i as int));
            assert(gv.take(i + 1).last() == gaps@[i as int]@);
        }
        if i >= 1 && i - 1 < reps.len() {
            proof {
                assert(reps.deep_view()[i - 1] == reps@[i - 1]@);
            }
            push_chars(out, &reps[i - 1]);
        }
        push_str(out, gaps[i].as_str());
        i = i + 1;
    }
    proof {
        assert(gv.take(gaps.len() as int) =~= gv);
    }
}

/// `Regex::replace_all` of `pattern` in `text` by the template `t`.
pub fn replace_all_exec(pattern: &str, text: &str, t: &Vec<TemplatePart>) -> (r: String)
    ensures
        r@ == replace_all(pattern@, text@, t@.map_values(|p: TemplatePart| p@)),
{
    let gaps = regex_split(pattern, text);
    let caps = regex_captures_all(pattern, text);
    match (gaps, caps) {
        (Some(g), Some(cs)) => {
            let ghost tv = t@.map_values(|p: TemplatePart| p@);
            let ghost cv = cs.deep_view();
            let mut reps: Vec<Vec<char>> = Vec::new();
            let mut i: usize = 0;
            while i < cs.len()
                invariant
                    i <= cs.len(),
                    cv == cs.deep_view(),
                    tv == t@.map_values(|p: TemplatePart| p@),
                    reps.deep_view() =~= cv.take(i as int).map_values(|c: Seq<Option<Seq<char>>>| expand(tv, c)),
                decreases cs.len() - i,
            {
                let mut one: Vec<char> = Vec::new();
                expand_into(t, &cs[i], &mut one);
                proof {
                    assert(cv[i as int] == cs@[i as int].deep_view());
                }
                crate::text::push_piece(&mut reps, one);
                proof {
                    assert(cv.take(i + 1).map_values(|c: Seq<Option<Seq<char>>>| expand(tv, c)) =~= cv.take(i as int).map_values(|c: Seq<Option<Seq<char>>>| expand(tv, c)).push(expand(tv, cv[i as int])));
                }
                i = i + 1;
            }
            proof {
                assert(cv.take(cs.len() as int) =~= cv);
            }
            let mut out: Vec<char> = Vec::new();
            splice_into(&g, &reps, &mut out);
            to_string(&out)
        },
        _ => {
            let v = chars_of(text);
            to_string(&v)
        },
    }
}

/// `Regex::replace_all` with a replacement computed from each match: each match replaced by `f`
/// of its groups; the text is left as it is when the pattern does not compile.
pub open spec fn replace_with(pattern: Seq<char>, text: Seq<char>, f: spec_fn(Seq<Option<Seq<char>>>) -> Seq<char>) -> Seq<char> {
    match (spec_regex_split(pattern, text), spec_regex_captures(pattern, text)) {
        (Some(gaps), Some(cs)) => splice(gaps, cs.map_values(f)),
        _ => text,
    }
}

/// The pieces between the matches of `pattern` in `text`, and the groups of each match.
pub fn split_captures(pattern: &str, text: &str) -> (r: Option<(Vec<String>, Vec<Vec<Option<String>>>)>)
    ensures
        match r {
            Some(p) => spec_regex_split(pattern@, text@) == Some(p.0.deep_view())
                && spec_regex_captures(pattern@, text@) == Some(p.1.deep_view()),
            None => spec_regex_split(pattern@, text@) is None || spec_regex_captures(pattern@, text@) is None,
        },
{
    match (regex_split(pattern, text), regex_captures_all(pattern, text)) {
        (Some(g), Some(c)) => Some((g, c)),
        _ => None,
    }
}


} // verus!
