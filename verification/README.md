# holons

Transport URI parsing, command-line flag handling and HOLON.md front-matter
extraction for holons, verified with Verus.

- `src/transport.rs` — `scheme`, `parse_uri`, `split_host_port` and
  `listen_plan` (what listening on a URI binds or creates), with their
  contracts over `scheme_spec`, `parse_uri_spec` and `listen_plan_spec`.
- `src/serve.rs` — `parse_flags`, which picks the listen URI from
  `--listen` / `--port`.
- `src/identity.rs` — `HolonIdentity` and `frontmatter`, which cuts the
  YAML block out of a HOLON.md text.
- `src/text.rs`, `src/decimal.rs` — character-level searching, trimming,
  and reading and writing `u16` ports in decimal.
- `src/laws.rs` — properties across these functions (round trips of
  written URIs, the shape of every successful parse, flags and defaults).
- `app/` — the I/O around the library: reading HOLON.md files and
  deserializing the YAML with serde_yaml, and binding tokio listeners.
