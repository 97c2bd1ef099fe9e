# infisical

Secrets of an Infisical instance for the texts of a deployment. A deployment
holds references such as `[[infisical://apps/prod/DB_PASSWORD]]`; the provider
keeps the secrets of the configured scopes in a cache, and the interpolator
replaces each reference by its value, or refuses the text.

| Directory | What it holds |
|---|---|
| `src/` | The library, verified with Verus: configuration, tokens and references, interpolation, the decisions of the API client, the cache and its fallbacks, sealing and loading of the snapshot. |
| `tests/` | Its tests, with the outside crates linked. |
| `app/` | What reaches out: the process environment, HTTP, files, locks and logging, and the conversions from and to Komodo's resources. |

Modules whose names end in `_laws` state what holds across several functions.
The calls into outside crates stand in `substitution.rs`, `primitives.rs`,
`url.rs` and `clock.rs`; their contracts are taken on trust.
