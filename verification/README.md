# fnf

A `dnf upgrade` wrapper with yay-style output: colored version diffs,
aligned columns, download and disk sizes, and a confirmation prompt before
anything is installed.

## Layout

- `src/` — the library, verified with Verus:
  - `text.rs`: whitespace, words, lines and trimming over characters;
  - `number.rs`: reading and writing decimal `usize`s;
  - `size.rs`: sizes as dnf prints them (`3.3 MiB`) and their units;
  - `table.rs`: section headers, package rows and summary count lines;
  - `parser.rs`: the strict state machine over the transaction table and
    `parse_update_lines`;
  - `error.rs`: why a line was refused, and the messages;
  - `sort.rs`: string order and the stable insertion order;
  - `progress.rs`: the stderr lines (repository loading, size totals) and
    the sizes the table's title gives;
  - `display.rs`: version highlighting, short repository names, column
    widths, row grouping, package specs and the arguments for dnf, the
    confirmation answer;
  - `laws.rs`: properties of the library as a whole.
- `app/main.rs` — the command-line program: runs dnf, drives the spinner,
  converts sizes to bytes and formats them (floating point), prints the
  table, and asks before upgrading.
- `tests/` — tests of the library.

## Usage

```sh
fnf upgrade          # check for updates and prompt
fnf up               # alias
fnf update           # alias
fnf upgrade --show-arch --show-command --group none
```
