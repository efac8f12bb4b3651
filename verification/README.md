# cmd_guard

A guard for shell commands, meant to run as a pre-execution hook: a command line is
split into segments at `&&`, `||`, `;`, `|` and `&`, each segment's words are
normalised (shell `-c` wrappers unwrapped, git and docker/podman global flags
stripped, xargs and `find -exec` children extracted) and judged against rules
that deny destructive commands, ask for confirmation of risky ones, and let the
rest pass. The strictest verdict wins.

- `src/` is the verified library (Verus): `text` (whitespace, trimming,
  comparison), `parse` (segments and words), `flags`, `normalize`, `rules`
  (git, rm, docker/podman, psql) and `policy` (whole commands). Each function's
  contract states its result exactly through spec functions; the laws (strictest
  verdict wins, verdicts are deny/ask/none, stripping flags is idempotent and
  leaves the verdict unchanged, segments are trimmed, ...) are proof functions.
- `app/main.rs` is the hook program: JSON on stdin, decision JSON on stdout.
- `tests/` runs the library on concrete commands.
