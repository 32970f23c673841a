# rpp_scan

Finds which files a REAPER project (`.rpp`) refers to and how: the media of
the items on its tracks, the files that sampler and convolution plugins load,
and the directory it records into.

- `src/` is the library, verified with Verus.
  - `rpp::element` holds the parsed project tree; `rpp::source` finds the
    file of a `<SOURCE>`.
  - `rpp::plugin_data` decodes the base64 state of a plugin and pulls the
    strings out of it, split at control characters (at line breaks too, or
    not).
  - `rpp::plugin` finds the plugins of an effects chain and the files they
    load, from a plugin instance or straight from a plugin element.
  - `rpp::path_key` compares paths component by component, as std's `Path`
    does on Unix (a `\` is an ordinary character there, as it is for `Path`
    on Linux); `rpp::usages` records how each path is used, keyed and ordered
    by that comparison.
  - `rpp` itself reads a whole project, and `rpp::project_laws` states what
    a read project holds: exactly the flags that its children give, whatever
    their order, and an error exactly where the header or a `RECORD_PATH`
    line is bad.
  - `files` tells a project file by its name.

  Each function states its result in its contract; the `lemma_*` proof
  functions state what holds across them.
- `app/` is the command-line program: it reads its arguments and lists the
  `.rpp` files under a directory.
- `tests/` runs the library on concrete projects, parsed with `rpp-parser`.
