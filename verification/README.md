# Concord

Concord compares the observed behaviour of JavaScript and TypeScript linters
(ESLint, Biome, Oxlint) and formatters (Prettier, Biome, Oxfmt): it runs the
tools, normalizes their structured output, matches diagnostics
deterministically, scores the agreement, and minimizes a file that keeps one
selected mismatch.

## Layout

- `src/` is the library, verified with Verus. Every decision lives here with
  its contract: rule canonicalization and mappings (`matching`), the pairing of
  diagnostics and the metrics (`matching`, `scoring`), reading the tools'
  reports (`adapters`), capability plans (`capabilities`), configuration
  checks (`config`), discovery rules (`discovery`), tool resolution and
  version handling (`process`), delta debugging and its predicate cache
  (`reduce`), reports and their terminal text (`report`, `terminal`), and the
  command-line decisions and exit codes (`cli`).
- `app/` is the `concord` program: argument parsing, reading concord.toml,
  walking the file system, running processes with time limits, parsing and
  writing JSON, and driving the library.
- `tests/` exercises the library on concrete inputs.
