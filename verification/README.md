# github-actions-local-cache

Secure, persistent local filesystem caches for Linux self-hosted GitHub
Actions runners: `restore` and `save` of `tar.zst` entries under
`<cache-root>/v1/<repository-id>/<sha256(key)>/`.

## Layout

- `src/` — the cache engine's rules, verified with Verus. Every decision that
  restore and save make is a function here with a `requires`/`ensures`
  contract over spec functions:
  - `config`: the input grammar (lists, booleans, keys, glob patterns), path
    normalization, and the platform, workspace and cache-root checks;
  - `digest`: SHA-256 addresses and the streamed payload digest;
  - `entry`: the entry layout, metadata validation, the metadata a save
    records, quarantine names and the root claim;
  - `archive`: archive names, path scope, which walked paths a save takes
    and the ancestors it records with them, symlink probes, source
    snapshots and the sorted entry set;
  - `extract`: what a restore admits from an archive, entry by entry, with
    the entry and size limits;
  - `materialize`: moving staged content into the workspace, one step at a
    time: never over an existing name, and rolled back on any failure;
  - `cache`: the restore outcome (exact, fallback, miss), fallback ranking
    (newest instant first, then address) and order, and the save decision;
  - `lock`: the per-entry lock, one step at a time: stale-lock recovery,
    bounded waiting, the operation run once after exclusive creation, and
    release by the holder only;
  - `text`, `paths`, `sorted`: the string, path and sorted-key models.
  Laws that relate several functions are public `proof fn`s (for example
  `entry::lemma_saved_entry_is_accepted`, `archive::lemma_saved_name_restores`,
  `cache::lemma_fallback_tries_matching_keys`).
- `app/` — the `local-cache` binary: environment and outputs, the file
  system, tar/zstd streaming, directory walks, the lock file, and the loops
  that perform the library's actions. It is ordinary Rust and is not
  verified.
- `tests/` — tests of the library on concrete values.

## What is trusted

Verified code reaches outside crates only through a few `external_body`
functions whose contracts are believed, each documented where it stands:

- `sha2` (`Sha256::digest`, and a streaming hasher: `new`, `update`,
  `finalize`), with the digest named `sha256_bytes`; `hex::encode`;
- `time` (`OffsetDateTime::parse` with `Rfc3339` and `unix_timestamp_nanos`;
  `from_unix_timestamp_nanos` and `format`), with the named results
  `rfc3339_valid` and `rfc3339_instant`;
- `globset` (`GlobBuilder`, `GlobSetBuilder`, `GlobSet::is_match`), with the
  named results `glob_compiles`, `glob_set_builds` and `glob_is_match`.

Everything in `app/` is trusted as well: what the file system reported is
handed to the library as plain values, and the library's answers are
performed as given.
