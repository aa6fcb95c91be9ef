# hearth_text

The verified text core of a Markdown view: it paces streamed text into
display chunks, repairs the unfinished tail of streamed Markdown for display,
parses Markdown (and HTML that was parsed outside the library) into a
source-mapped render model, writes the document model back to Markdown, and
decides how a text view and a Markdown document follow their source while
parses run in the background.

## Layout

- `src/` — the library, verified with Verus. Outside crates (pulldown-cmark,
  unicode-segmentation, linkify, ropey, regex, base64) are reached through
  small trusted wrappers whose contracts are stated next to them.
- `src/session.rs`, `src/worker.rs`, `src/markdown_doc.rs` — state machines:
  each call takes an event and returns the new state plus the actions (send
  a parse, start a timer, repaint) for the host to perform.
- `tests/` — ordinary Rust tests against the compiled library.
- `app/` — the host side: threads and timers that perform the actions the
  state machines ask for (`app/host.rs`), and Mermaid rendering (merman),
  which may panic and keeps a process-wide cache.
