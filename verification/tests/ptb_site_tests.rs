use tgdoc::anchor_index::AnchorIndex;
use tgdoc::config::SourceConfig;
use tgdoc::ptb::{AttrDef, ClassDef, MethodDef};
use tgdoc::ptb_site::{plan_ptb_classes, ptb_anchor_index, ptb_dry_lines, render_class, walk_steps, WalkStep};

fn cfg() -> SourceConfig {
    SourceConfig {
        id: "ptb".to_string(),
        driver: "git".to_string(),
        parser: "ptb".to_string(),
        out: "ptb".to_string(),
        http: None,
        git: None,
    }
}

fn class(ns: &str, name: &str, methods: &[&str]) -> ClassDef {
    ClassDef {
        namespace: ns.to_string(),
        name: name.to_string(),
        docstring: String::new(),
        bases: vec![],
        attrs: vec![],
        methods: methods
            .iter()
            .map(|m| MethodDef { name: m.to_string(), is_async: false, signature: "self".to_string(), docstring: String::new() })
            .collect(),
        source_file: format!("src/telegram/{}.py", name),
    }
}

#[test]
fn class_page() {
    let c = ClassDef {
        namespace: "telegram.ext".to_string(),
        name: "Application".to_string(),
        docstring: "The app. See :class:`telegram.Bot`.".to_string(),
        bases: vec!["telegram.ext.BaseApp".to_string(), "Generic".to_string()],
        attrs: vec![AttrDef { name: "bot".to_string(), type_hint: "Bot".to_string(), docstring: String::new() }],
        methods: vec![MethodDef {
            name: "run".to_string(),
            is_async: true,
            signature: "self".to_string(),
            docstring: "Runs.".to_string(),
        }],
        source_file: "/tmp/repo/src/telegram/ext/_application.py".to_string(),
    };
    let idx = AnchorIndex::new();
    let md = render_class(&c, &idx, &cfg(), "telegram/ext/Application");
    assert_eq!(
        md,
        "---\ntitle: Application\nsource: https://github.com/python-telegram-bot/python-telegram-bot/blob/master/src/telegram/ext/_application.py\ntags:\n  - ptb\n  - ptb-telegram-ext\n---\n\n# Application\n\n**Inherits:** `BaseApp`, `Generic`\n\nThe app. See [[ptb/telegram/Bot|Bot]].\n\n## Attributes\n\n### bot\n\n**Type:** `Bot`\n\n## Methods\n\n### run\n\n```python\nasync def run(self)\n```\n\nRuns.\n"
    );
}

#[test]
fn class_page_minimal() {
    let mut c = class("telegram", "Chat", &[]);
    c.source_file = "elsewhere/chat.py".to_string();
    let idx = AnchorIndex::new();
    assert_eq!(
        render_class(&c, &idx, &cfg(), "telegram/Chat"),
        "---\ntitle: Chat\nsource: https://github.com/python-telegram-bot/python-telegram-bot/blob/master/elsewhere/chat.py\ntags:\n  - ptb\n  - ptb-telegram\n---\n\n# Chat\n\n"
    );
}

#[test]
fn anchors_of_classes_and_methods() {
    let cs = vec![class("telegram", "Bot", &["send_message"])];
    let idx = ptb_anchor_index(&cs, "ptb");
    assert_eq!(idx.resolve("#bot", "x"), Some("[[ptb/telegram/Bot#Bot]]".to_string()));
    assert_eq!(idx.resolve("#bot.send_message", "x"), Some("[[ptb/telegram/Bot#send_message]]".to_string()));
    assert_eq!(idx.resolve("#chat", "x"), None);
}

#[test]
fn class_files_and_indexes() {
    let cs = vec![class("telegram.ext", "Application", &[]), class("telegram", "Bot", &["get_me"])];
    let files = plan_ptb_classes(&cs, &cfg());
    let paths: Vec<&str> = files.iter().map(|f| f.0.as_str()).collect();
    assert_eq!(
        paths,
        vec!["telegram/ext/Application.md", "telegram/Bot.md", "telegram/index.md", "telegram/ext/index.md", "index.md"]
    );
    assert_eq!(
        files[2].1,
        "---\ntitle: telegram\nsource: https://github.com/python-telegram-bot/python-telegram-bot\ntags:\n  - ptb\n  - telegram\n---\n\n# telegram\n\n- [[ptb/telegram/Bot|Bot]]\n"
    );
    assert_eq!(
        files[4].1,
        "---\ntitle: python-telegram-bot\nsource: https://github.com/python-telegram-bot/python-telegram-bot\ntags:\n  - ptb\n---\n\n# python-telegram-bot\n\n- [[ptb/telegram/index|telegram]]\n- [[ptb/telegram/ext/index|telegram.ext]]\n- [[ptb/changelog/index|Changelog]]\n"
    );
}

#[test]
fn dry_run_lines() {
    let cs = vec![class("telegram", "Bot", &["get_me", "close"])];
    assert_eq!(
        ptb_dry_lines(&cs, 3),
        vec!["[ptb] telegram.Bot (2 methods, 0 attrs)".to_string(), "[ptb] 3 changelog entries".to_string()]
    );
}

#[test]
fn walk_over_a_directory() {
    let entries = vec![
        ("_utils".to_string(), true),
        ("ext".to_string(), true),
        ("bot.py".to_string(), false),
        ("__init__.py".to_string(), false),
        ("README.md".to_string(), false),
        ("__pycache__".to_string(), true),
        (".py".to_string(), false),
        ("a.py".to_string(), true),
    ];
    let steps = walk_steps(&entries, "telegram");
    let shown: Vec<String> = steps
        .iter()
        .map(|s| match s {
            WalkStep::Descend { name, namespace } => format!("dir {} {}", name, namespace),
            WalkStep::Parse { name } => format!("file {}", name),
        })
        .collect();
    assert_eq!(shown, vec!["dir a.py telegram.a.py", "file bot.py", "dir ext telegram.ext"]);
}

#[test]
fn docstring_roles_link_across_classes() {
    let bot = class("telegram", "Bot", &["send_message"]);
    let mut update = class("telegram", "Update", &[]);
    update.docstring = "Use :meth:`telegram.Bot.send_message` on :class:`telegram.Bot`.".to_string();
    let files = plan_ptb_classes(&vec![bot, update], &cfg());
    assert_eq!(files[1].0, "telegram/Update.md");
    assert!(files[1].1.ends_with(
        "# Update\n\nUse [send_message]([[ptb/telegram/Bot#send_message]]) on [Bot]([[ptb/telegram/Bot#Bot]]).\n\n"
    ));
}

#[test]
fn links_to_the_own_class_stay_local() {
    let mut bot = class("telegram", "Bot", &["send_message"]);
    bot.docstring = "See :class:`telegram.Bot`.".to_string();
    let files = plan_ptb_classes(&vec![bot], &cfg());
    assert!(files[0].1.ends_with("# Bot\n\nSee [Bot]([[#Bot]]).\n\n## Methods\n\n### send_message\n\n```python\ndef send_message(self)\n```\n\n"));
}
