use tgdoc::config::{config_search_order, default_ref, Config, ConfigError, GitConfig, HttpConfig, SourceConfig};

fn source(id: &str, driver: &str, http: bool, git: Option<Option<&str>>) -> SourceConfig {
    SourceConfig {
        id: id.to_string(),
        driver: driver.to_string(),
        parser: "tg-html".to_string(),
        out: id.to_string(),
        http: if http {
            Some(HttpConfig { base_url: "https://core.telegram.org".to_string(), proxy: None })
        } else {
            None
        },
        git: git.map(|d| GitConfig {
            repo: "https://github.com/python-telegram-bot/python-telegram-bot".to_string(),
            git_ref: default_ref(),
            clone_dir: d.map(|s| s.to_string()),
        }),
    }
}

#[test]
fn default_branch_is_master() {
    assert_eq!(default_ref(), "master");
}

#[test]
fn valid_sources() {
    assert!(source("tg", "http", true, None).validate().is_ok());
    assert!(source("ptb", "git", false, Some(None)).validate().is_ok());
}

#[test]
fn http_without_settings() {
    match source("tg", "http", false, None).validate() {
        Err(e) => {
            assert!(matches!(e, ConfigError::MissingHttp { .. }));
            assert_eq!(e.message(), "source 'tg': driver=http requires [source.http]");
        },
        Ok(_) => panic!("must fail"),
    }
}

#[test]
fn git_without_settings() {
    match source("ptb", "git", true, None).validate() {
        Err(e) => assert_eq!(e.message(), "source 'ptb': driver=git requires [source.git]"),
        Ok(_) => panic!("must fail"),
    }
}

#[test]
fn unknown_driver() {
    match source("x", "ftp", true, Some(None)).validate() {
        Err(e) => assert_eq!(e.message(), "source 'x': unknown driver 'ftp'"),
        Ok(_) => panic!("must fail"),
    }
}

#[test]
fn clone_directories() {
    assert_eq!(source("ptb", "git", false, Some(None)).clone_dir(), "repos/ptb");
    assert_eq!(source("ptb", "git", false, Some(Some("vendor/ptb"))).clone_dir(), "vendor/ptb");
    assert_eq!(source("tg", "http", true, None).clone_dir(), "repos/tg");
}

#[test]
fn sources_by_id() {
    let cfg = Config { sources: vec![source("tg", "http", true, None), source("ptb", "git", false, Some(None))] };
    match cfg.get("ptb") {
        Ok(s) => assert_eq!(s.driver, "git"),
        Err(_) => panic!("ptb is configured"),
    }
    match cfg.get("nope") {
        Err(e) => assert_eq!(e.message(), "unknown source id: nope"),
        Ok(_) => panic!("unknown id"),
    }
}

#[test]
fn first_invalid_source_reported() {
    let good = Config { sources: vec![source("tg", "http", true, None)] };
    assert!(good.validate_sources().is_ok());
    let bad = Config { sources: vec![source("tg", "http", true, None), source("a", "zip", true, None), source("b", "git", true, None)] };
    match bad.validate_sources() {
        Err(e) => assert_eq!(e.message(), "source 'a': unknown driver 'zip'"),
        Ok(_) => panic!("must fail"),
    }
}

#[test]
fn where_the_sources_file_is_looked_for() {
    assert_eq!(config_search_order(Some("my.toml"), Some("/opt/tgdoc")), vec!["my.toml".to_string()]);
    assert_eq!(
        config_search_order(None, Some("/opt/tgdoc")),
        vec!["sources.toml".to_string(), "/opt/tgdoc/sources.toml".to_string()]
    );
    assert_eq!(config_search_order(None, None), vec!["sources.toml".to_string()]);
}
