//! Which driver fetches a source and which parser converts it, and the plain data a driver
//! hands to a parser.
use vstd::prelude::*;
use crate::text::{chars_of, eq_str, push_str, to_string};

verus! {

/// The drivers that fetch sources.
pub enum DriverKind {
    /// Pages fetched over HTTP.
    Http,
    /// A git repository cloned or pulled.
    Git,
}

/// The parsers that convert fetched sources.
pub enum ParserKind {
    /// The Bot API web pages.
    TgHtml,
    /// The python-telegram-bot repository.
    Ptb,
}

/// The driver a source names, or the message of an unknown one.
pub fn driver_kind(driver: &str) -> (r: Result<DriverKind, String>)
    ensures
        match r {
            Ok(DriverKind::Http) => driver@ == "http"@,
            Ok(DriverKind::Git) => driver@ == "git"@,
            Err(m) => driver@ != "http"@ && driver@ != "git"@ && m@ == "unknown driver: "@ + driver@,
        },
{
    let d = chars_of(driver);
    if eq_str(&d, "http") {
        Ok(DriverKind::Http)
    } else if eq_str(&d, "git") {
        Ok(DriverKind::Git)
    } else {
        let mut m = chars_of("unknown driver: ");
        push_str(&mut m, driver);
        Err(to_string(&m))
    }
}

/// The parser a source names, or the message of an unknown one.
pub fn parser_kind(parser: &str) -> (r: Result<ParserKind, String>)
    ensures
        match r {
            Ok(ParserKind::TgHtml) => parser@ == "tg-html"@,
            Ok(ParserKind::Ptb) => parser@ == "ptb"@,
            Err(m) => parser@ != "tg-html"@ && parser@ != "ptb"@ && m@ == "unknown parser: "@ + parser@,
        },
{
    let p = chars_of(parser);
    if eq_str(&p, "tg-html") {
        Ok(ParserKind::TgHtml)
    } else if eq_str(&p, "ptb") {
        Ok(ParserKind::Ptb)
    } else {
        let mut m = chars_of("unknown parser: ");
        push_str(&mut m, parser);
        Err(to_string(&m))
    }
}

/// Raw data returned by a driver before parsing.
pub enum RawData {
    /// (URL path, HTML text) of each fetched page (http driver).
    Html(Vec<(String, String)>),
    /// Path to a local git clone (git driver).
    Repo(String),
}

/// The first page fetched under `path`, if any.
pub open spec fn page_lookup(pages: Seq<(Seq<char>, Seq<char>)>, path: Seq<char>) -> Option<Seq<char>>
    decreases pages.len(),
{
    if pages.len() == 0 {
        None
    } else if pages[0].0 == path {
        Some(pages[0].1)
    } else {
        page_lookup(pages.drop_first(), path)
    }
}

/// The HTML of the page fetched under `path`: an error when the data is a repository, or
/// when no page was fetched under that path.
pub fn html_of(raw: &RawData, path: &str) -> (r: Result<String, String>)
    ensures
        match raw {
            RawData::Html(pages) => match page_lookup(pages.deep_view(), path@) {
                Some(h) => r matches Ok(s) && s@ == h,
                None => r matches Err(m) && m@ == "no page fetched for "@ + path@,
            },
            RawData::Repo(_) => r matches Err(m) && m@ == "tg-html parser expects Html data"@,
        },
{
    match raw {
        RawData::Html(pages) => {
            let ghost pv = pages.deep_view();
            proof {
                assert(*raw == RawData::Html(*pages));
            }
            let mut i: usize = 0;
            proof {
                assert(pv.skip(0) =~= pv);
            }
            while i < pages.len()
                invariant
                    i <= pages@.len(),
                    pv == pages.deep_view(),
                    *raw == RawData::Html(*pages),
                    page_lookup(pv, path@) == page_lookup(pv.skip(i as int), path@),
                decreases pages@.len() - i,
            {
                proof {
                    assert(pv.skip(i as int)[0] == pv[i as int]);
                    assert(pv[i as int] == pages@[i as int].deep_view());
                    assert(pv.skip(i as int).drop_first() =~= pv.skip(i + 1));
                }
                if eq_str(&chars_of(pages[i].0.as_str()), path) {
                    let h = to_string(&chars_of(pages[i].1.as_str()));
                    proof {
                        assert(pv.skip(i as int)[0].0 == path@);
                        assert(page_lookup(pv, path@) == Some(h@));
                    }
                    return Ok(h);
                }
                i = i + 1;
            }
            let mut m = chars_of("no page fetched for ");
            push_str(&mut m, path);
            Err(to_string(&m))
        },
        RawData::Repo(_) => Err(String::from_str("tg-html parser expects Html data")),
    }
}

/// The path of the cloned repository, or an error when the data is web pages.
pub fn repo_of(raw: &RawData) -> (r: Result<String, String>)
    ensures
        match raw {
            RawData::Repo(p) => r matches Ok(s) && s@ == p@,
            RawData::Html(_) => r matches Err(m) && m@ == "ptb parser expects Repo data"@,
        },
{
    match raw {
        RawData::Repo(p) => Ok(to_string(&chars_of(p.as_str()))),
        RawData::Html(_) => Err(String::from_str("ptb parser expects Repo data")),
    }
}

/// The arguments of the `git` command that makes a shallow clone of one branch.
pub open spec fn clone_args(repo: Seq<char>, dest: Seq<char>, git_ref: Seq<char>) -> Seq<Seq<char>> {
    seq!["clone"@, "--depth"@, "1"@, "--branch"@, git_ref, "--single-branch"@, repo, dest]
}

/// The arguments of `git clone` for a source: depth one, the configured branch only.
pub fn git_clone_args(repo: &str, dest: &str, git_ref: &str) -> (r: Vec<String>)
    ensures
        r.deep_view() == clone_args(repo@, dest@, git_ref@),
{
    let r = vec![
        String::from_str("clone"),
        String::from_str("--depth"),
        String::from_str("1"),
        String::from_str("--branch"),
        String::from_str(git_ref),
        String::from_str("--single-branch"),
        String::from_str(repo),
        String::from_str(dest),
    ];
    proof {
        assert(r.deep_view() =~= clone_args(repo@, dest@, git_ref@));
    }
    r
}

/// The proxy an http source goes through: the configured one, unless it is empty.
pub open spec fn proxy_setting(proxy: Option<Seq<char>>) -> Option<Seq<char>> {
    match proxy {
        Some(p) => if p.len() > 0 { Some(p) } else { None },
        None => None,
    }
}

/// The proxy to configure the HTTP client with, if any.
pub fn proxy_to_use(proxy: &Option<String>) -> (r: Option<String>)
    ensures
        r.deep_view() == proxy_setting(proxy.deep_view()),
{
    match proxy {
        Some(p) => {
            if p.as_str().is_empty() {
                None
            } else {
                Some(to_string(&chars_of(p.as_str())))
            }
        },
        None => None,
    }
}

} // verus!
