# uv-migrator

Migrates Python projects (Poetry, Pipenv, requirements files, `setup.py`,
Conda environment files) to the `uv` package manager.

The crate is in two parts:

- `src/` is the library, written in Verus. It holds what a migration decides
  and computes: detecting the kind of project, reading dependencies out of
  each kind of file, formatting them as `uv add` arguments, editing the
  `pyproject.toml` document (modelled as a tree of `Node`s, read from and
  written to TOML or JSON text through `toml_edit`, `toml` and `serde_json`,
  keeping the comments and layout of every part that an edit leaves as it was),
  ordering its sections, tracking files for restore, and checking the `uv` version. Every
  function carries a contract, and the properties that span several
  functions are stated as public proof functions (`lemma_*`).
- `app/` is the command-line program around it: argument parsing, reading and
  writing files, running `uv`, and carrying out the rollback actions that the
  library chooses when a migration fails.

`tests/` runs the library on concrete inputs.
