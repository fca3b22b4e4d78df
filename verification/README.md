# TraceFox

TraceFox reads diagnostic packages of network storage devices. It searches their
logs by rules, tells from them how the device was started and stopped, extracts
tables of system information, and writes one HTML report that needs no network.

The library under `src/` is written in Verus. Every function states what it
returns, and Verus proves it.

- `rules`: rule packages. What a rule must meet, the catalogue of log files, what
  a rule matches, groups and their order, merging of packages.
- `engine`: the analysis. Which files are read, the scan of a log with the
  context of its hits, times, facts, boot sessions, findings, events, the report,
  the preview of a rule.
- `extract`: tables from JSON, text in columns, sections and expressions, and
  joining them.
- `tasks`, `monitor`: the list of packages, and the directory that is watched.
- `desktop`: what the windows decide. The rule editor and its forms, the task
  window, settings, clean-up.
- `webdav`, `notify`: keeping rules on a server, notifications.
- `outside`: what comes from other crates, as functions on plain values. Verus
  takes their contracts as given; each says what it claims.
- `text`, `order`, `row`, `select`, `fault`: texts, sorting, ordered cells,
  searching of lists, refusals.

Files whose names end in `_laws` hold what is true of several functions together.

`app/` is the program around the library: arguments, files, archives, threads,
the network and the operating system. It looks for `assets/default-rules.json`
and `assets/report.html` beside the executable.
