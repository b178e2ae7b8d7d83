# herdr (verified core)

The logic of herdr's client shell and theme generator, written in Verus with
contracts proved by the verifier.

- `src/` — the verified library:
  - `shell.rs`: the settings overlay as a state machine (sections, selection,
    theme filter and preview, config writes and server replies, key routing)
    and the status spinner's timing.
  - `sidebar.rs`: the sidebar's section split, brand styles, and the fitting
    of a row of tokens into the sidebar width (which tokens show, how many
    columns each text gets, where a logo goes).
  - `agent_logo.rs`, `status.rs`, `agent.rs`, `palette.rs`: logo tints, ids
    and mask fitting; status glyphs; agents and colors.
  - `text.rs`, `themes.rs`: theme-name matching and the picker's list.
  - `theme_file.rs`, `theme_output.rs`: reading Ghostty theme files, slugs,
    naming generated themes, ordering them and rendering their table.
- `app/` — the generator program (file I/O, the floating-point color
  derivation) and the glue to crossterm and ratatui.
- `tests/` — tests of the library.

Each public function states its result exactly over spec functions; the
`lemma_*` proof functions state the properties that hold across calls (for
example that cancelling the settings overlay restores the theme it was opened
with, or that a row's column budgets never exceed its width).
