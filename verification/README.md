# toolbelt

A handful of small terminal tools sharing one verified library:

- `rx` — a two-panel menu of shell commands: start them from the left list,
  read each run's output on the right (terminal escape codes cleaned up,
  colours kept).
- `es` — a YAML schema tool: dump a compact schema, report how an input file
  matches it, edit the input in a full-screen form, or try the widget gallery.
- `jxr` — moves constant inline `style={{…}}` objects of a React component
  into a CSS module and rewrites the component to use its classes.
- `pe` — a direnv project helper (`.envrc`, project scripts, footprints).
- `wf` — switches wezterm font and ligature presets.

## Layout

- `src/` — the library, verified with Verus. Every public function states
  what it returns in its contract; the `law_*` proof functions state the
  properties that hold across calls (cursor and selection invariants,
  inverse key presses, soft wrapping, output sanitising, form round trips).
  - `text`, `style`, `paths`, `yaml`, `scalar` — shared character, style,
    path and value helpers; `yaml` reads a document through serde_yaml.
  - `sanitize`, `run_record`, `run_view`, `menu`, `menu_view` — the command
    menu: its state machine and what each panel shows.
  - `schema`, `io_args`, `dump`, `status`, `form`, `demo`, `widgets` — the
    schema tool, the form editor and its widgets (`widgets::look` computes
    what each widget shows).
  - `jsx` — style extraction, rule naming, source rewriting and CSS output.
  - `project_env`, `switcher` — command lines and texts of `pe` and `wf`.
- `tests/` — tests of the library on concrete values.
- `app/` — the programs: terminal handling, files, processes, the
  JavaScript parser and YAML writing, calling the library for every
  decision. The tool runs
  by the program's name, or by the first argument (`toolbelt es dump s.yaml`).
