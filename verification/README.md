# log_analyzer

A real-time log analyzer. The library (`src/`) holds the analysis logic, verified
with Verus; the program (`app/`) reads files, watches them, runs worker tasks,
draws the terminal interface and stores sessions, and leaves the analysis to the
library: what a line means, which rules fire, the statistics, the anomalies, which
lines of a file are new, what the interface shows and the text of the report.
Floating-point rates and ratios are computed in the program.

Library modules:

- `text` — character sequences: conversion, case folding (Unicode, via std),
  trimming, substring search, decimal rendering.
- `table` — `KeyedTable`, a string-keyed map that keeps insertion order.
- `time` — `Timestamp`, seconds and nanoseconds since the Unix epoch.
- `models` — log levels, log entries, severities, anomalies, entry filters.
- `statistics` — per-file statistics and the most frequent keys.
- `error` — the library's error type.
- `config` — rules, output and session settings, configuration formats.
- `patterns` — regular expressions compiled with the `regex` crate.
- `analysis` — parsing log lines, evaluating rules, recording statistics,
  error-spike, repeated-event and volume tracking.
- `monitor` — the analyzer's run state, the monitored files and how far each
  has been read.
- `session` — sessions and the session manager.
- `tui_state` — key handling and the log list of the terminal interface.
- `report` — the text of the analysis report.
- `laws` — properties that span operations.

Program modules (`app/`): command line and subcommands, configuration files
(JSON/TOML), the analyzer's tasks (tokio, notify), session files, the terminal
interface (ratatui, crossterm), and serializable copies of the library's types.
