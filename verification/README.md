# flatmarkdown

Flat Markdown parser for outline items: a body is preprocessed (whitespace-only
lines outside code fences become `<br />`, `\#` is kept from the parser),
parsed with comrak, turned into a JSON-shaped AST, optionally given link and
hashtag resolution, and rendered as HTML.

The library is written in Verus; its contracts and lemmas are checked by the
verifier.

- `src/preprocess.rs` — line preprocessing and the hiding of `\#`
- `src/markdown.rs` — the comrak configuration and parse, read as plain values
- `src/nodes.rs` — how each parsed node becomes an AST node
- `src/outline.rs` — building the AST from its nodes listed in tree order
- `src/links.rs` — relative `.md` links as wikilinks and hashtags
- `src/hashtags.rs` — `#tag` extraction and the restoring of escaped `#`
- `src/embed.rs` — media URLs and their `#key=value&flag` properties
- `src/html.rs` — HTML rendering of the AST
- `src/ast.rs`, `src/text.rs` — the AST types and character helpers
- `app/lib.rs` — the string interface: the AST written as JSON text
