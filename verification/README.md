# setup

Manage Windows applications through `winget`: show what is installed, export
it as a configuration, install a configuration or a preset, and build presets
in a terminal screen.

The library under `src/` is verified with Verus:

- `text`, `display`, `order`: strings as character sequences, terminal widths
  and truncation, stable sorting by text keys;
- `pattern`: regular expressions (the `regex` crate);
- `types`: the records the tool reads and writes;
- `services`: `winget` tables, registry uninstall keys, the SQLite source
  index, and what a `winget` run amounts to;
- `commands`: the preset builder, the installer and its preset selector, the
  export and the `show` table, each as state and decisions.

`app/` is the program around it: the command line, the processes, the files,
the JSON and the terminal drawing.
