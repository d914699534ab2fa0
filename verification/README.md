# rpi — structural inspector for Rust workspaces

`rpi inspect <workspace>` ranks the crates of a Rust workspace by a
severity-weighted risk score: dependency cycles and isolated crates, oversized
files, `unsafe` density, public surface, missing tests, unused or duplicated
dependencies, per-file coupling and RustSec advisories.

## Layout

- `src/` — the library, verified with Verus. Every inspection states in its
  contract exactly which findings it gives for a workspace; the text and SARIF
  renderings, the `--fail-on` gate, the baseline trend and the `rpi.toml`
  reader are specified the same way. Source files reach the inspections as a
  sequence of syntax nodes (`syntax.rs`); the dependency graph and its
  strongly connected components come from `petgraph`.
- `app/` — the command line: `cargo metadata`, the walk over source files,
  parsing with `syn` and lowering to syntax nodes, `cargo audit`, JSON output.
- `tests/` — tests of the library on concrete workspaces.

## Configuration (`rpi.toml`)

Placed in the workspace root, it overrides thresholds; unset keys keep their
defaults.

```toml
module_size_loc = 300       # LOC warning threshold per file
pub_surface_warn = 50       # public items warning threshold per crate
unsafe_density_warn = 5.0   # unsafe items per 1000 lines, up to 3 decimals
complexity_warn = 10
coupling_warn = 10
churn_warn = 10
```
