# studio_backend

The verified core of a studio backend that catalogues gears, checks product
specifications against code, folds review comments and answers activity
feeds. Verus proves the library's functions against their contracts. The
few operations it borrows from `serde_json`, `base64`, `sha2` and std
(parsing and writing JSON, base64, SHA-256, case and path questions) stand
behind small trusted wrappers, whose contracts say only what those sources
document and are not proved.

Layout:

- `src/` — the library, one module per area: `components_catalog`
  (catalogue values, capability plans, conformance, the Gearbox engine's
  vocabulary, scaffolds and product previews), `documents` (templates,
  intake, validation, review guides), `artifact_ingest` (clones, comment
  sidecars, activity), `git_proxy`, `insight`, `access_config`, and the
  shared `json`, `text` and `numbers` modules.
- `tests/` — tests run against the compiled library.
- `app/` — the I/O around it: walking and updating a checkout on disk,
  running the Gearbox engine's process, converting `serde_json::Value`, and
  driving a scaffold write against a repository. The steps these take are
  decided by the library's state machines (`checkout_next`, `rpc_next`,
  `scaffold_next`, `proxy_next`).
