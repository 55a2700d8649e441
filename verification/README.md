# api-drift

API drift handler: snapshot a crate's public surface, diff versions, classify
breaks, suggest downstream patches, and keep an append-only ledger of
recorded contract changes that consumers check their call sites against.

The library under `src/` is written in Verus: every function carries a
contract over a mathematical model of its data, and Verus proves the code
against it.

## Layout

```text
src/
  snapshot.rs       ApiSnapshot / Item / ItemKind
  diff.rs           diff_snapshots: added / removed / changed (last item per path wins)
  classify.rs       BreakKind + Severity per diff entry
  suggest.rs        Suggestion per break, rename detection, autoimmune_guard
  distance.rs       capped Levenshtein distance used by rename detection
  surface.rs        Surface trait, EnumSurface
  snapshot_file.rs  snapshot file format v1: canonical content hash, render, verify
  ledger.rs         ledger entries and the ledger test's decisions
  consumer.rs       consumer check: entries after a pin, breaks at call sites, report
  usage.rs          call-site matching by the last two path segments
  integrity.rs      the CLI's integrity check and note lines
  producer.rs       rustdoc JSON -> ApiSnapshot
  json.rs           JSON model, parsing and quoting through serde_json, compact rendering
  digest.rs         sha256 (sha2) and lowercase hex (hex)
  text.rs, sorting.rs  character-sequence helpers, stable sort by path
app/                the `api-drift` CLI and the file-system side: ledger files,
                    snapshot files (serde), api-drift.toml (toml), the syn walk of
                    a consumer's sources
tests/              tests of the library
```

Laws that span functions (diff symmetry, hash independence of item and
attribute order, what recording does to the ledger test, what a pin at head
sees, ...) are public proof functions named `law_*`.
