# ud — Up to Date

`ud` answers "are my dependencies current?" for Cargo manifests: it reads the
dependencies a manifest declares, asks the crates.io sparse index which
versions exist, judges each dependency, and can bump versions in place
without disturbing comments or formatting. Check mode is the default.

The library in `src/` is written in Verus; every function there carries a
contract that Verus proves.

## Layout

- `src/model.rs` — coordinates, constraints, versions, dependencies, verdicts, reports.
- `src/contract.rs` — the `Scheme` trait: which version is newer, which satisfies a constraint.
- `src/versioning.rs` — SemVer versions and requirements as `semver` parses, orders and matches them.
- `src/candidates.rs` — the rank order of candidate versions and the choice of the highest.
- `src/resolve.rs` — `SemverScheme`, the version a constraint declares, and `resolve`.
- `src/index.rs` — sparse-index paths, response bodies and index entries.
- `src/manifest.rs` — reading a manifest's dependencies and planning lossless version edits (`toml_edit` parses and prints).
- `src/report.rs`, `src/paint.rs` — the human report and its colors (`owo-colors`).
- `src/pipeline.rs` — the decisions of a run: ecosystem choice, failed fetches, update plans, exit codes.
- `src/laws.rs` — properties of the library as a whole, proved.
- `src/text.rs` — character-level string helpers.
- `app/` — the command line: arguments, files, HTTP, concurrency, JSON output.

## Trust

Calls into `semver`, `toml_edit`, `owo-colors` and the std functions `str::to_lowercase` and `String::push`
go through a few `#[verifier::external_body]` wrappers; their contracts are
stated in their doc comments and are the only unproved claims. The two
`semver` parse wrappers also build `ParsedVersion` and `ParsedReq` values, so
the type invariants those types carry (the parts held are what `semver`
parsed) rest on the same trust, as does the claim of the requirement parse
that a version text written with a comparator's pre-release part parses back
to its parts. The law that `resolve` ignores the order of the listed versions
is proved under the premise `semver_order_strict`: semver ranks no two
different texts it parses equal. The `toml_edit` wrappers claim that the text
an edited document prints parses back into the same items, each edited one
holding its new string; they do not claim the bytes are kept: `toml_edit`
ends every line with a single newline and drops a byte-order mark.
