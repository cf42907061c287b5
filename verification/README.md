# fest

A mutation-testing tool for Python, with its logic verified by
[Verus](https://github.com/verus-lang/verus).

`fest` changes a Python program in small ways, one mutant at a time, runs the
tests that cover the changed line, and reports which mutants the tests did not
notice.

## Layout

- `src/` is the library. Its functions state in their contracts what they
  return, and Verus proves it. Of a value drawn by hashing under a seed they say
  what was hashed; which value comes out rests on the target that the hash is
  built for.
  - `parse`, `ast`, `expressions`: Python source as a tree of plain values.
  - `mutation`: the operators (`builtin`), their registry and filters, file
    discovery, the generation of mutants, and the structured description of a
    mutation (`diff`).
  - `coverage`: which tests cover which line, from JSON reports and databases.
  - `runner`, `pipeline`: the decisions of a run, as functions of plain values.
  - `plugin_index`: imports and reloads of a project, for the pytest plugin.
  - `report`, `progress`: reports and progress output.
  - `cli`, `config`, `init`, `pyproject`: arguments and configuration.
  - `text`, `lines`, `paths`, `pattern`, `numbers`, `decimal`, `double`,
    `order`, `json`, `toml_text`, `tree`: what the others are built on.
- `app/` is the program: it reads and writes files, runs `pytest` and reads its
  exit codes, keeps sessions and draws on the terminal. What is mutated, which
  tests run, what the results are and how they are shown, the library decides.
- `tests/` runs the library on concrete values.

## Laws

Public proof functions named `law_*` state what holds across functions: for
instance that swapping a comparison twice gives it back, that tallies of a
report add up, that escaped text holds no markup, or that the same seed gives the
same mutants where hashing gives one value for what it is handed.

## What is trusted

The library calls the Python parser, the JSON and TOML readers and a few other
crates through small functions marked `external_body`. Their contracts are
believed, not proved. The comment above each says which outside function it
calls and what is claimed of it.
