# pleme_actions_shared

Shared toolkit for GitHub Actions binaries, written in Verus: every
function under `src/` carries a contract, and Verus proves it of every
function but two trusted wrappers, whose contracts it takes as given:
`text::push_char` (std `String::push`) and `scalar::is_json_text`
(`serde_json::from_str`).

- `src/error.rs` — `ActionError` and its workflow-command rendering
  (`::error title=...,line=...::message`), the percent encodings, and the
  laws that the encodings are decodable and that a command is one line.
- `src/input.rs`, `src/string_map.rs`, `src/scalar.rs` — collection of
  `INPUT_<NAME>` variables into an ordered map and classification of raw
  values (booleans, `i64`, numbers, JSON, strings).
- `src/output.rs` — `$GITHUB_OUTPUT` entries (`name=value` or heredoc with
  fresh delimiters).
- `src/summary.rs` — the step-summary markdown builder.
- `src/log.rs` — the `RUNNER_DEBUG` toggle as explicit state, and log lines.
- `src/text.rs`, `src/paths.rs` — shared character-level helpers.

`app/` holds what touches the process: environment variables, files,
stdout, global state, and the serde bridges (`Input::<T>::from_env`,
`set_json`, `std::error::Error` for errors).
