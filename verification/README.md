# clashctl

The data model and the terminal-text layout of a dashboard for Clash / Mihomo
proxies, written in Verus with contracts that the verifier checks.

Layout:

- `src/cells.rs`: grapheme segmentation and terminal-cell widths (through
  `unicode-segmentation` and `unicode-width`), and the column arithmetic of a
  window over a line.
- `src/style.rs`: colours, styles, styled spans and lines.
- `src/helper.rs`: cropping a text or a styled line to a column range,
  truncating with an ellipsis, padding to an exact width, footer entries.
- `src/proxy.rs`: proxy kinds, proxies and the name-keyed collection of them.
- `src/group.rs`: drawing a proxy group, collapsed or expanded.
- `src/config.rs`, `src/action.rs`: plain data types.
- `tests/`: tests run against the compiled library.
- `app/`: a small program that reads a `/proxies` JSON document and prints the
  expanded widget of each group; serde and tui types live there.
