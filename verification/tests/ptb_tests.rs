use tgdoc::anchor_index::AnchorIndex;
use tgdoc::ptb::{
    class_doc_path, collect_signature, convert_rst_code_blocks, extract_docstring_after, indent,
    parse_python_classes, rst_to_md, rst_to_md_no_class_meth, rst_to_md_with_links,
};

fn lines_of(s: &str) -> Vec<Vec<char>> {
    s.lines().map(|l| l.chars().collect()).collect()
}

fn text(v: &[char]) -> String {
    v.iter().collect()
}

#[test]
fn doc_paths_follow_namespaces() {
    assert_eq!(class_doc_path("telegram", "Bot"), "telegram/Bot");
    assert_eq!(class_doc_path("telegram.ext", "Application"), "telegram/ext/Application");
}

#[test]
fn indentation_counts_bytes() {
    assert_eq!(indent(&"    def f():".chars().collect()), 4);
    assert_eq!(indent(&"\tx".chars().collect()), 1);
    assert_eq!(indent(&"\u{3000}x".chars().collect()), 3);
    assert_eq!(indent(&"".chars().collect()), 0);
}

#[test]
fn signature_on_one_line() {
    let ls = lines_of("    def send(self, chat_id: int) -> None:\n        pass");
    assert_eq!(text(&collect_signature(&ls, 0)), "self, chat_id: int");
}

#[test]
fn signature_over_lines() {
    let ls = lines_of("    async def send(\n        self,\n        text: str,\n    ) -> Message:\n        ...");
    assert_eq!(text(&collect_signature(&ls, 0)), "self, text: str,");
}

#[test]
fn signature_without_parenthesis() {
    let ls = lines_of("x = 1");
    assert_eq!(text(&collect_signature(&ls, 0)), "");
}

#[test]
fn single_line_docstring() {
    let ls = lines_of("class A(B):\n\n    \"\"\"Short doc.\"\"\"\n");
    assert_eq!(text(&extract_docstring_after(&ls, 0)), "Short doc.");
}

#[test]
fn multi_line_docstring() {
    let ls = lines_of("def f():\n    '''First line\n\n    More text\n    '''\n    return 1");
    assert_eq!(text(&extract_docstring_after(&ls, 0)), "First line\n\nMore text");
}

#[test]
fn no_docstring() {
    let ls = lines_of("def f():\n    return 1");
    assert_eq!(text(&extract_docstring_after(&ls, 0)), "");
}

#[test]
fn classes_of_a_module() {
    let src = "import x\n\nclass Bot(TelegramObject, Generic[T]):\n    \"\"\"The bot.\"\"\"\n\n    token: str = ''\n    _private: int\n\n    def __init__(self, token: str):\n        self.token = token\n\n    async def get_me(self) -> User:\n        \"\"\"Returns the bot.\"\"\"\n        return await self._post()\n\n    def _helper(self):\n        pass\n\nclass _Hidden(object):\n    pass\n";
    let cs = parse_python_classes(src, "telegram", "src/telegram/_bot.py");
    assert_eq!(cs.len(), 1);
    let c = &cs[0];
    assert_eq!(c.namespace, "telegram");
    assert_eq!(c.name, "Bot");
    assert_eq!(c.docstring, "The bot.");
    assert_eq!(c.bases, vec!["TelegramObject".to_string(), "Generic[T]".to_string()]);
    assert_eq!(c.source_file, "src/telegram/_bot.py");
    assert_eq!(c.attrs.len(), 1);
    assert_eq!(c.attrs[0].name, "token");
    assert_eq!(c.attrs[0].type_hint, "str");
    assert_eq!(c.methods.len(), 2);
    assert_eq!(c.methods[0].name, "__init__");
    assert!(!c.methods[0].is_async);
    assert_eq!(c.methods[0].signature, "self, token: str");
    assert_eq!(c.methods[1].name, "get_me");
    assert!(c.methods[1].is_async);
    assert_eq!(c.methods[1].signature, "self");
    assert_eq!(c.methods[1].docstring, "Returns the bot.");
}

#[test]
fn multi_line_class_header() {
    let src = "class Chat(\n    TelegramObject,\n):\n    id: int\n";
    let cs = parse_python_classes(src, "telegram", "p.py");
    assert_eq!(cs.len(), 1);
    assert_eq!(cs[0].name, "Chat");
    assert_eq!(cs[0].bases, vec!["TelegramObject".to_string()]);
    assert_eq!(cs[0].attrs.len(), 1);
    assert_eq!(cs[0].attrs[0].type_hint, "int");
}

#[test]
fn rst_roles_to_code() {
    let md = rst_to_md("See :class:`telegram.Bot` and :meth:`telegram.Bot.send_message`, :attr:`id`, :obj:`True`, :any:`label <target>`.");
    assert_eq!(md, "See `Bot` and `send_message`, `id`, `True`, `label`.");
}

#[test]
fn rst_directives() {
    let md = rst_to_md(".. versionadded:: 20.0\n.. seealso:: other\n.. note:: careful");
    assert_eq!(md, "> *.. versionadded:: 20.0*\n**See also:** other\n> **note:** careful");
}

#[test]
fn code_blocks_fenced() {
    let t = "Example:\n\n.. code:: python\n\n    bot = Bot()\n    bot.run()\n\nAfter";
    assert_eq!(convert_rst_code_blocks(t), "Example:\n\n```python\nbot = Bot()\nbot.run()\n```\nAfter");
}

#[test]
fn code_block_without_language() {
    let t = ".. code-block::\n    x = 1\ny";
    assert_eq!(convert_rst_code_blocks(t), "```\nx = 1\n```\ny");
}

#[test]
fn links_for_known_classes_and_methods() {
    let mut idx = AnchorIndex::new();
    idx.register("bot", "telegram/Bot", "Bot");
    idx.register("bot.send_message", "telegram/Bot#send_message", "send_message");
    let md = rst_to_md_with_links(
        "Use :class:`telegram.Bot` or :class:`telegram.Chat`; call :meth:`telegram.Bot.send_message` or :meth:`stop`.",
        &idx,
        "telegram/Update",
        "ptb",
    );
    assert_eq!(
        md,
        "Use [Bot]([[telegram/Bot#Bot]]) or [[ptb/telegram/Chat|Chat]]; call [send_message]([[telegram/Bot#send_message#send_message]]) or `stop`."
    );
}

#[test]
fn links_stay_local_in_same_document() {
    let mut idx = AnchorIndex::new();
    idx.register("bot", "telegram/Bot", "Bot");
    let md = rst_to_md_with_links(":class:`Bot`", &idx, "telegram/Bot", "ptb");
    assert_eq!(md, "[Bot]([[#Bot]])");
}

#[test]
fn rest_of_rst_without_roles() {
    assert_eq!(rst_to_md_no_class_meth(":class:`x` :attr:`y`"), ":class:`x` `y`");
}

#[test]
fn docstring_after_the_last_line() {
    let ls = lines_of("class A(B):\n    pass");
    assert_eq!(text(&extract_docstring_after(&ls, 1)), "");
    assert_eq!(text(&extract_docstring_after(&ls, 7)), "");
}

#[test]
fn signature_with_return_annotation() {
    let ls = lines_of("def f(self) -> int:\n    return g(1)");
    assert_eq!(text(&collect_signature(&ls, 0)), "self");
}

#[test]
fn signature_with_nested_parentheses() {
    let ls = lines_of("def f(self, a=(1, 2),\n      b=g(3)) -> Tuple[int]:\n    pass");
    assert_eq!(text(&collect_signature(&ls, 0)), "self, a=(1, 2), b=g(3)");
}

#[test]
fn signature_never_closed() {
    let ls = lines_of("def f(self,\n  x");
    assert_eq!(text(&collect_signature(&ls, 0)), "self, x");
}

#[test]
fn without_class_or_meth_roles_both_conversions_agree() {
    let rst = "Use :attr:`chat_id` with :any:`Bot <telegram.Bot>`.\n\n.. note:: Careful.";
    assert_eq!(rst_to_md_no_class_meth(rst), rst_to_md(rst));
    assert_eq!(rst_to_md(rst), "Use `chat_id` with `Bot`.\n\n> **note:** Careful.");
}
