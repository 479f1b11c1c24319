# spec_drift

Semantic coherence analysis between a Rust project's specification surfaces
(README and other Markdown, examples, tests, CI scripts) and its code. Each
mismatch is a *divergence*: a rule, a severity, a location, what the spec
states, what the code shows, and the risk.

The library in `src/` is written in Verus. Every analyzer, the Markdown and
Rust fact extraction, the report renderers, configuration, baselines,
inline ignores, the `--diff`/`--strict`/`--deny` pipeline, blame parsing and
the auto-fix logic carry `requires`/`ensures` contracts that Verus proves.
Calls into `pulldown-cmark`, `regex`, `globset` and `syn` go through small
trusted wrappers whose contracts name what those crates compute.

`app/` is the `spec-drift` command line: it walks the tree, reads files,
runs `git` and `cargo`, turns `syn`'s syntax tree into the library's item
tree, talks to LLM providers and
serializes JSON, SARIF and TOML, handing plain values to the library.

`tests/` exercises the library on concrete inputs.
