# PecoFence

PecoFence keeps a desktop in order: it groups the items on it in *fences*, windows that can be
rolled up, put together as tabs, filled by rules, or opened on a folder.

This crate is the logic of the program, written in Verus. Every function states what it returns and
changes, and is proved to do so.

## Layout

- `src/` is the library.
  - The data: `model`, `settings`, `dip`, `config`, `tables`, `validate`, `store`, `dates`, `clock`,
    `text`, `paths`, `order`.
  - The state of the desktop: `state`, `tabs`, `state_tabs`, `tab_repair`, `tab_laws`,
    `filing`, `sync`, `rules`, `records`, `portals`, `portal_sweep`, `listing`, `reorder`,
    `layouts`, `snapshots`, `fence_ops`, `item_ops`, `file_ops`, `windows`.
  - What the program reacts to: `commands`, `handling`, `control`, `startup`, `housekeeping`,
    `messages`.
  - A window: `frame`, `placement`, `view_state`, `strip`, `drawing`, `dropping`, `platform`.
  - Panels of plugins: `plugin_api`, `scopes`, `services`, `supervisor`, `kernel`, `panel_host`,
    `panel_life`, `panel_services`, `transport`.
- `tests/` runs the library.
- `app/` is ordinary Rust around it: files, the JSON form of the configuration, the session that
  takes commands and does what is left of them, the panels and their providers, threads, the
  connection to the project service, and what is drawn with fractions of a pixel.

Fractional numbers are held by their bit patterns (`dip::Dip`), ids as 128-bit numbers, and paths
as text. What the library takes from outside stands behind a few declarations whose contracts are
not proved: random ids and the clock (`clock`), lower case and appending a character (`text`), and
the compact form and the equality of JSON texts (`panel_host`).
