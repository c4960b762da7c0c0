# timeagent

A Linux tray companion that logs meeting and task time to TargetProcess.
It notices when the microphone is captured (a meeting), asks where to log the
time when the meeting ends, lists the tasks and bugs assigned to you, and logs
recurring entries once per working day.

## Layout

- `src/` — the library, written in Verus. Its public functions carry
  contracts, as do the private helpers whose results others rely on. The
  library's own functions are proved against theirs; the few thin
  wrappers around std (the clock, string pushes, case mapping, slicing),
  serde_json's parser and chrono / chrono-tz calls (marked
  `#[verifier::external_body]`) are trusted: their contracts state what those
  libraries document, and are not proved:
  - `watcher` — meeting detection as a state machine (poll, Split, Stop,
    suppression of a capture that keeps going after Stop);
  - `mic` — whether a live capture reads from a real input;
  - `tp` — TargetProcess request URLs, query encoding, pagination, query
    clauses, the noon-anchored `/Date(ms±HHMM)/` values, and what is read
    from the replies (identity, tasks and bugs, time entries, states);
  - `json` — parsed JSON values (through serde_json) and the reads made of
    them;
  - `holidays`, `calendar` — days off and calendar dates;
  - `store` — recurring entries due today, cached status changes;
  - `views`, `ordering` — search, filters, stable sorting and labels of the
    windows;
  - `settings`, `models`, `command`, `text` — data and small helpers.
- `app/` — the GTK 4 windows, the ksni tray, the tokio runtime, HTTP, the
  request bodies, the settings file and keyring, and the PulseAudio query. It feeds plain
  values to the library and acts on what comes back.
- `tests/` — tests of the library on concrete values.

Floating-point hour arithmetic (rounding meetings up, summing logged hours,
ordering workflow states by priority) lives in `app/`.
