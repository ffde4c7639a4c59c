# tgdoc

Converts Telegram ecosystem documentation into Obsidian-style Markdown: the Bot API web
pages (`tg-html` parser, fetched over HTTP) and the python-telegram-bot repository (`ptb`
parser, cloned with git). Internal cross-references become `[[wiki-links]]` through an
anchor index built before any page is written.

The library under `src/` is verified with Verus; every public function states its result
exactly over spec functions:

- `text`, `groups`, `pattern`: characters and strings, groups kept in key order, and regular
  expressions (through the `regex` crate).
- `html`, `convert`: the parsed HTML tree (through `scraper`) and its conversion to Markdown.
- `anchor_index`: anchors to wiki-link targets, and how a link resolves.
- `pages`: the Bot API pages, split by section or by release, and the files they give.
- `ptb`, `ptb_site`, `changelog`: Python classes and RST docstrings, the class pages and
  indexes, and the release notes (legacy RST and TOML fragments, through `toml`).
- `config`, `dispatch`: sources, drivers and parsers.

`app/` is the command-line program: it reads the configuration, fetches, reads and writes
files, and asks the library what to write.
