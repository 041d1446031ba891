# andamento

The layout, text-measurement and view-model logic of the Andamento workflow
sidebar for Zellij, written in Verus: each function states what it returns in
`requires`/`ensures`, and Verus proves it.

## Layout

- `src/` — the verified library.
  - `width`, `text`: display widths (through `unicode-width`) and character-level string building.
  - `inline_layout`, `segment_bar`, `template_fields`: fitting labels, segments and template fields into a width.
  - `model`, `stats`: the shared view model and the plugin statistics recorder.
  - `render`, `border`, `cards`, `viewport`, `footer`: terminal drawing helpers of the rail.
  - `group_header`, `metadata_block`: directory-group header rows and the tab metadata view.
  - `rail`: the rail plugin's decisions (placement, scrolling, sizing, clicks, graphics sync).
- `tests/` — tests run against the compiled library.
- `app/` — the parts that stay outside verification: serde copies of the
  message types and the floating-point rail size.

Each law the library keeps (for example that narrowing drops template fields by
rank, or that a burst of scroll events applies their net movement) is a public
`proof fn` next to the functions it speaks of.
