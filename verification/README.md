# tauri_core_tools

The logic of a Tauri tool plugin (a URI-scheme router, a theme registry,
remembered window states, template naming, and the scripts the plugin runs
in its windows), written in Verus with its contracts proved.

- `src/` is the verified library:
  - `text.rs`: models of trimming, splitting, prefix/suffix stripping and
    replacing on character sequences, with proved executable versions;
  - `name_map.rs`: a name-keyed map kept as a list of distinct names;
  - `parser.rs`: matching paths against templates such as `/users/<id>` and
    reading query strings;
  - `routing.rs`: route tables, the router, path normalization and the
    decoding of request URLs;
  - `themes.rs`: the theme registry and theme scripts;
  - `window_states.rs`, `windows.rs`: window states, window configuration
    lookup and capability files;
  - `scripts.rs`, `templates.rs`, `github.rs`: window scripts, template
    names, and the GitHub theme source's addresses and answers.
- `app/` is the Tauri plugin around it: builders, app and window
  extensions, file and network I/O.
- `tests/` runs the library on concrete values.
