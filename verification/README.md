# cargo-crappy

CRAP metric analysis for Rust: cyclomatic complexity, line coverage from
instrumented tests, idiom checks and duplication, combined into one
change-risk score per function.

## Layout

- `src/` is the verified library. Each analysis works on plain values and
  states its result in its contract:
  - `syntax`: the model of a parsed source file that the analyses read;
  - `visitor`: which functions a file reports, and under which names;
  - `complexity`: cyclomatic complexity, and the choice of source directories;
  - `idiom`: the idiom checks, their weights, and the signature and body
    fingerprints;
  - `dryness`: the duplication check;
  - `coverage`: line coverage from `llvm-cov` regions, test binaries, the
    host triple;
  - `scoring`: line overlap and the join of the three measurements;
  - `cli`: command-line options and the arguments handed on to cargo;
  - `report`: how many rows the report shows and how wide its columns are;
  - `color`, `text`: styled labels and string helpers.
- `app/` is the program around it: running cargo and the LLVM tools, reading
  files and JSON, turning `syn` trees into the model, the floating-point
  scores and the report.
- `tests/` runs the library on concrete inputs.
