# m1-eval

The verified core of a deterministic, stepped evaluator for MoTeC M1 scripts, and a command line
around it. The core decides what each call, read, write and comparison of a run comes to; walking
the statements of a script is left to the host that drives it.

`src/` is the library. Every function states what it returns or changes, and Verus proves it:

- `float`, `big`, `decimal`, `numeral` — binary32 and binary64 arithmetic, exactly rounded, decimal
  literals, and numbers written with the fewest digits that read back.
- `value`, `coerce`, `env`, `context` — script values, their families, the value store, the
  state of operators, and reading a symbol.
- `builtins` — the library methods, the stateful operators, calendar time, enumeration
  conversions, validated objects, user functions, hardware calls, and the dispatch over them.
- `calib`, `table`, `xml` — calibration values and interpolation.
- `project`, `catalog`, `syntax`, `triggers`, `loader` — the facts of a loaded project.
- `coverage` — what scripts use, and how well each use is supported.
- `log`, `trace`, `diff`, `counterfactual`, `render` — recorded runs, overrides, and the
  difference between a run and a log.
- `conformance` — golden-vector fixtures: their rules, the files they are bound to, replaying
  them and judging the run.
- `engine`, `scenario`, `cli`, `path` — the entry point and what the command line decides.
- `laws` — what holds across these functions.

What is not proved is named where it stands: reading XML, quoting a text, appending a
character and hashing a file are calls into other crates and the standard library.

`app/` is the command line: arguments, files and documents. `tests/` runs the
library on concrete values.
