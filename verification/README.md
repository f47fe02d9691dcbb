# Morris

A cargo subcommand that tests the tests of a Rust project. It has a language
model propose a handful of one-line mutations, runs `cargo test` on each of
them, and has the model explain the ones that survive. The course of a run is
fixed; the model is asked exactly twice, for the plan and for the analysis.

```
cargo morris [--quick] [--auto] [-v] [PATHS...]
```

The names of the models are taken from `MORRIS_MODEL` and, with `--quick`,
`MORRIS_QUICK_MODEL`.

## Layout

`src/` is the library, verified with Verus. It decides and never touches a
file, a process or the network:

- `text`, `numerals`, `decoding`: characters, lines, decimal numbers, UTF-8.
- `paths`, `discovery`, `sources`: which files are tested, in which order, and
  how they are shown to the model.
- `target`: finding and replacing the line that a mutation names.
- `trial`: testing one mutation, and putting the file back.
- `mutation`, `report`, `run`, `summary`: outcomes, results and counts.
- `fences`, `reply`, `prompts`: what the model is asked and what it answers.
- `blocks`, `patch`, `auto_apply`: writing suggested tests into the test modules
  of the sources.
- `workflow`, `config`: the course of a run, and its options.

`trial`, `auto_apply` and `workflow` are machines: each step takes what came of
the last effect and answers with the next one. `app/` performs the effects.
