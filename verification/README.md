# sloppy

Detects AI prose tells ("slop") in text and scores them from 0 to 100 with
regular-expression checks, builds prompt directives from the same
configuration, and installs usage rules for coding agents.

## Layout

- `src/` — the verified library (Verus):
  - `checks.rs`: the fifteen checks, each specified by the flags it raises for
    the matches that the `regex` crate reports;
  - `detector.rs`: which checks run under a configuration, the per-check
    penalties, the normalised score and the pass/fail verdict, with the
    scoring laws (score at most 100, the denominator floor, per-check caps);
  - `value.rs`, `entries.rs`, `config.rs`: the TOML data model, deep merge,
    parsing of check settings, command-line overrides, and the layout of the
    configuration dump;
  - `voice.rs`: the voice directive and chat prompts;
  - `report.rs`: the plain-text report and the summary counts;
  - `skill.rs`: where each agent's rules go;
  - `double.rs`: the double-precision rounding of the score, on integers;
  - `stats.rs`, `text.rs`: exact arithmetic for the statistical checks and
    string helpers;
  - `matching.rs`: the trusted calls into `regex`;
  - `defaults.rs`: the built-in configuration.
- `app/` — the command line: file and standard-input reading, TOML parsing and
  printing, JSON output, clipboard and file installation.
- `tests/` — tests of the library.
