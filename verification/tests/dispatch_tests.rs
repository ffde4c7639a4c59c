use tgdoc::dispatch::{driver_kind, git_clone_args, html_of, parser_kind, proxy_to_use, repo_of, DriverKind, ParserKind, RawData};

#[test]
fn drivers() {
    assert!(matches!(driver_kind("http"), Ok(DriverKind::Http)));
    assert!(matches!(driver_kind("git"), Ok(DriverKind::Git)));
    assert_eq!(driver_kind("svn").err(), Some("unknown driver: svn".to_string()));
}

#[test]
fn parsers() {
    assert!(matches!(parser_kind("tg-html"), Ok(ParserKind::TgHtml)));
    assert!(matches!(parser_kind("ptb"), Ok(ParserKind::Ptb)));
    assert_eq!(parser_kind("md").err(), Some("unknown parser: md".to_string()));
}

#[test]
fn fetched_pages() {
    let raw = RawData::Html(vec![
        ("/bots".to_string(), "<p>a</p>".to_string()),
        ("/bots/api".to_string(), "<p>b</p>".to_string()),
    ]);
    assert_eq!(html_of(&raw, "/bots/api"), Ok("<p>b</p>".to_string()));
    assert_eq!(html_of(&raw, "/faq"), Err("no page fetched for /faq".to_string()));
    assert_eq!(repo_of(&raw), Err("ptb parser expects Repo data".to_string()));
}

#[test]
fn cloned_repository() {
    let raw = RawData::Repo("repos/ptb".to_string());
    assert_eq!(repo_of(&raw), Ok("repos/ptb".to_string()));
    assert_eq!(html_of(&raw, "/bots"), Err("tg-html parser expects Html data".to_string()));
}

#[test]
fn clone_arguments() {
    assert_eq!(
        git_clone_args("https://example.com/r.git", "repos/r", "main"),
        vec!["clone", "--depth", "1", "--branch", "main", "--single-branch", "https://example.com/r.git", "repos/r"]
    );
}

#[test]
fn proxies() {
    assert_eq!(proxy_to_use(&None), None);
    assert_eq!(proxy_to_use(&Some(String::new())), None);
    assert_eq!(proxy_to_use(&Some("http://127.0.0.1:8580".to_string())), Some("http://127.0.0.1:8580".to_string()));
}
