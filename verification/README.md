# assay

A stat resolver and patch differ for Dark and Darker, written in Verus.
Every number is fixed-point (millionths, no floats); every figure carries a
grade saying how well it is known; a loadout resolves through eight stages
into attributes, derived stats, caps and a trace; an exchange of blows runs
the damage model step by step; two datasets diff into renames, additions,
removals and stat changes.

## Layout

- `src/` — the library, verified by Verus. Each public function states in
  its `ensures` what it returns, over spec functions and views; the laws
  that span functions (a shared ability applies once, more armour
  penetration never deals less damage, a diff reports every change and
  only true ones, and so on) are public proof functions next to the code
  they speak of.
  - `fixed`, `confidence`, `curve`, `stats`, `derived`, `exchange`: the
    arithmetic and the damage model.
  - `schema`, `dataset`, `dataset_file`, `doc`, `fields`, `review`,
    `attestations`, `submission`, `submission_text`, `card`: the data files
    and how reviewed data reaches the core.
  - `loadout`, `loadout_file`, `resolve`, `situation`, `canonical`,
    `compare`, `diff`, `versions`: loadouts, resolution and comparison.
  - `page`, `browser`, `json_text`: what the browser page calls.
- `tests/` — ordinary Rust tests against the compiled library.
- `app/` — the command line: argument handling and file I/O around the
  library.

Text is parsed with `serde_json` and `toml`, and replies to the page are
written with `serde_json`; those calls sit behind small trusted wrappers
whose contracts name what the crate returns.
