# inforadar

InfoRadar turns scattered sources (RSS/Atom/JSON feeds, GitHub searches,
archived daily reports) into board-based daily briefings that are published
as a static, read-only site.

The library under `src/` holds the project's logic, written in Verus with
its contracts proved:

- `text`: whitespace trimming, tag stripping, truncation, public text.
- `json`: a JSON document model, its well-formedness, and the public-export
  sanitizer.
- `links`: canonical links (through the `url` crate) and the http/https check.
- `ids`: stable identifiers (SHA-256 through `sha2`, then lower-case hex).
- `scoring`: category inference and rule-based scores.
- `normalize`: observations into board items.
- `config`: board validation and setting defaults.
- `feed_scan`: a check that a feed document's play times are safe to parse.
- `collect`: feed documents (through `feed-rs`) and GitHub search answers
  into observations.
- `store`: the decisions of the local store: importing archived items,
  planning an ingestion, reading items back, issue totals and identifiers.
- `site`: the site manifest and data paths.

`app/` is the command-line program around it: argument handling, HTTP,
SQLite, file output and the JSON/TOML conversions.
