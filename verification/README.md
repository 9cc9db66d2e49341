# DiskDrift

Disk analyzers tell you what is big; DiskDrift tells you what **got** big.
It records directory-level size snapshots over time and explains the
difference between two of them: which top-level directory grew, which child
inside it grew, how a directory trended, and who freed the most space.

## Layout

- `src/` — the verified library (Verus). Path algebra on components,
  snapshot-pair selection (`--since`, explicit ids, default), the diff
  engine and its attribution rules, inspect / history / top reports,
  retention planning, the directory walk's decisions and aggregation,
  benchmark-tree planning, JSON documents, and every human renderer. Each
  public function carries a contract; the `law_*` proof functions state
  properties that span functions.
- `app/` — the `diskdrift` program: argument parsing, the SQLite database,
  the filesystem walk, the clock, terminal progress and JSON serialization.
- `tests/` — tests of the library on concrete values.

Paths are handled with Unix semantics (`/`-separated components).
