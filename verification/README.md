# gh-logs-grab

Downloads the logs of GitHub Actions runs and tells which tests failed in them, how the failures
developed over the runs of a pull request, and how long its jobs take.

- `src/` is the library. Its functions carry contracts, and Verus proves them.
  - `github`: the address of a run, request headers, the token, pages of jobs, log files.
  - `patterns`: the patterns that log lines are matched against, and what each of them matches.
  - `matching`: the `regex` calls that match them.
  - `parsers`: the readers of the output of pytest, Jest and Rust's test harness.
  - `commands`: what the commands compute. `download` selects the logs, `analyze` merges and counts
    the errors, `overview` lists the jobs, `timeline` follows errors over the runs, and `timings`
    ranks the jobs by their average duration.
  - `durations`, `models`, `number`, `order`, `seqs`, `text`: what these are built from.
- The modules named `laws`, or ending in `_laws`, state what holds of several functions together.
- `tests/` runs the library on concrete input.
- `app/` is the program: the command line, requests, files and JSON.

## Trusted calls

The proofs rest on the contracts of a few outside functions, each stated beside the call: the
`regex` calls in `matching`, the reading of times with `chrono` in `durations`, the header map of
`http` and `String::from_utf8` in `github`, and `String::push` in `text`.
