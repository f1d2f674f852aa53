# tidas-tools

Verified rules for importing external LCA packages (openLCA JSON-LD and
process workbooks, ILCD, SimaPro CSV, EcoSpold exchanges) into TIDAS
packages, and for building TIDAS releases: format detection, canonical
entities and exchanges, unit and flow-property normalization, mapping reports, written ILCD/TIDAS datasets,
exact dataset references and their closure, semantic round-trip comparison,
and the bounded runtime (cancellation, memory budget, JSONL spools).

Layout:

- `src/` — the library, verified with Verus. Each public function states what
  it returns in its `ensures`; properties that span several calls are public
  proof functions named `law_*`. Calls into outside crates (`uuid`, `sha2`,
  `bigdecimal`, `quick-xml`, `zip`, `serde_json`, `encoding_rs`) go through small
  trusted wrappers whose contracts are documented beside them.
- `tests/` — tests of the library on concrete inputs.
- `app/` — the unverified edges: walking directories and ZIP archives,
  parsing JSON bytes into the library's JSON model and back, file-system
  steps of a release, and the unit-group writer, whose choice of reference
  unit rests on floating-point comparison.
