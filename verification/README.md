# parser_api

The rules of a service that imports the favourites of e621 accounts and ranks
posts for them: sessions and tokens, the upstream client's pacing and retries,
the catalog and its tag statistics, background jobs, the media cache, seeding,
and the offline calibration of rankings.

- `src/` is the library. Every function is verified by Verus against its
  contract. Calls into other crates stand behind small functions whose contracts
  are trusted; the comment above each says what is assumed.
- `app/` is the program around it: the HTTP server, SQLite, files, the network and
  everything in floating point.
- `tests/` run the library on concrete values, with the other crates linked.

## Modules

| module | what it decides |
| --- | --- |
| `api`, `load_monitor` | requests to e621: pacing, retries, caching |
| `auth`, `crypto`, `server` | owner tokens, keys at rest, sessions, health |
| `db` | accounts, posts, tags, co-occurrence, feed, profiles, sessions |
| `jobs`, `cache_pruner` | imports in progress and periodic maintenance |
| `media_store`, `media_fetch_worker`, `media_hydrator` | originals on disk |
| `seed`, `catalog_seed` | filling the database |
| `calibrate` | data sets, sampling, ranking and the grid search |
| `text`, `clock`, `order`, `tally`, `timed` | what the others share |

The program takes `serve` (the default), `seed [count]`,
`catalog-seed [--dir path] [--skip-download]` and `calibrate [mode ...]`. The
`eval` and `grid` modes of `calibrate` need a scoring model, an implementation of
`Model` in `app/calibrate.rs`; none is linked.
