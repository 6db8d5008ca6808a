# jevx

Local logic of a Codex helper that suggests Skills, reviews turns, routes work by
difficulty and observes Codex hooks, with a judge model consulted only under typed
decision contracts.

## Layout

- `src/`: the library, written in Verus. Each public function carries a contract over a
  mathematical model (redaction of secrets, local candidate ranking, decision and route
  contracts, the review gate and fix gate, hook-record analysis and de-duplication, the
  hooks configuration editor, statistics). Public `lemma_*` proof functions state the
  laws that relate several functions, such as uninstalling after installing giving the
  user's configuration back.
- `tests/`: ordinary Rust tests of the library on concrete values.
- `app/`: the command-line program around the library: argument handling, files, the
  network judge, JSON and YAML, and the parts that compare floating-point thresholds.
