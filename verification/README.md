# mdless

A terminal Markdown viewer's core, written in Verus: every function in
`src/` carries a contract that the verifier proves, and the few calls into
outside crates (grapheme segmentation, character widths, PNG coding,
base64) sit behind small trusted wrappers whose contracts say what those
crates document.

## Layout

- `src/util/` — display width, grapheme-aware truncation, padding, tab
  expansion and greedy word wrapping (`wrap`, exact against
  `wrap_text_spec`); text helpers; the viewport arithmetic.
- `src/layout/` — inline runs and their wrapping (`wrap_pieces`), search
  matches cut into runs (`apply_matches`), code blocks (`plain_lines`,
  `layout_code_lines`), lists, and tables (`measure_columns`, `allocate`,
  `table_widths`, `layout_table`).
- `src/render/` — styled spans and render trees (anchors, node index),
  search marking and clearing, splicing of re-laid-out nodes, themes and
  their colour downgrade, ANSI output.
- `src/mermaid/` — detection and parsing of Mermaid flowcharts, the
  native terminal drawing (layering, ordering, placement, routing,
  painting), image sizing, and the choice between native drawing, `mmdc`
  images and the source.
- `src/terminal/` — capability detection from the environment, the image
  protocols (Kitty, iTerm2, Sixel) and the terminal mode lifecycle.
- `tests/` — unit and scenario tests run against the compiled library.
- `app/` — the command-line program: argument handling, reading files,
  terminal I/O and the `mmdc` subprocess.

Public proof functions named `law_*` state properties that span several
functions, such as that clearing a search undoes marking it, or that a
drawn diagram's lines share one width within the requested one.
