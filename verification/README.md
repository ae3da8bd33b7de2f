# mynosql_ui

The web UI of MyNoSqlServer: an overview of the server's readers, writers and
tables, a data browser with row deletes, a snapshot browser with restores, the
connections page and the settings page.

`src/` is the library, written in Verus: every decision the pages make (what
state a page keeps and how each server answer or click changes it, which rows
a filter keeps, which page of rows shows, what a paste-delete request holds,
which texts and labels appear) is an executable function with a contract that
Verus proves. The modules:

- `calendar`, `utils`, `time_order`: UTC calendar dates, the timestamp format,
  and the proof that timestamp texts sort like the instants they name.
- `text`, `order`, `tally`, `ranking`, `keyset`: texts, decimal numbers,
  sorting (stable), counting and sets of keys.
- `models`, `json`, `routes`: the server's documents, JSON values, the pages.
- `tones`, `overview`, `home`: the overview page.
- `shell`: the sidebar and top bar.
- `panes`, `pagination`, `data_rows`, `data_state`, `data_view`, `dialogs`,
  `paste`, `data_page`, `export`: the data page.
- `snapshots`, `snapshots_view`: the snapshots page.
- `connections`, `settings`: the connections and settings pages.

`app/` draws the pages with Dioxus, reads JSON with serde, and formats the
numbers that are shown with decimals.

`tests/` runs the library on concrete values.
