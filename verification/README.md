# ocu

`ocu` shows Codex usage windows as terminal cards or as JSON, fetching them
on this machine or over SSH.

- `src/` is the verified library:
  - `args.rs`: command-line parsing, specified as a left-to-right scan, with
    its laws (one source only, `--plain` anywhere, a host is never assumed).
  - `snapshot.rs`: building the two usage buckets from the endpoint's reply,
    percentage normalization, reset-time text.
  - `clock.rs`: the trusted calls into `chrono` / `chrono-tz`.
  - `render.rs`: card titles, remaining percentages, bar shapes, card
    placement and frame height.
  - `terminal.rs`: encoding a drawn frame as terminal text with ANSI escapes.
  - `remote.rs`: the fetch script and the failure message.
  - `text.rs`: white space, trimming, decimal formatting and parsing.
- `app/` is the program around it: process and terminal I/O, serde, ratatui
  drawing and floating-point handling.
- `tests/` exercises the library on concrete values.
