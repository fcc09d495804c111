# md_reader

The document pipeline of a small read-only Markdown reader, written in Verus.

- `src/` is the verified library: which paths name Markdown files, the
  size and kind checks for documents, the single-instance rules, heading
  slugs and the table of contents, the LaTeX-to-HTML math renderer, code
  highlighting, local-image resolution and data URLs, HTML cleaning, and
  the event rewriting that turns parsed Markdown into the rendered page.
  Parsing and HTML output (`pulldown-cmark`), highlighting (`syntect`),
  cleaning (`ammonia`), MIME guessing, Base64 and HTML escaping are called
  through small trusted wrappers whose contracts name or state their results.
- `tests/` exercises the library on concrete documents.
- `app/` is the desktop shell: command-line and file I/O, the local socket
  that forwards a document to a running reader, and the Tauri commands.
