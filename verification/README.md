# taste

The deterministic core of a film-taste recommender, verified with Verus.

- `src/` is the library. Each module states its behaviour in `requires` /
  `ensures` contracts and proves it: the feature observations a rated film
  gives and how they are grouped into a profile (`observe`, `profile`,
  `assemble`), candidate retrieval and scoring (`gather`, `pool`, `score`,
  `confidence`, `ranking`), the explanations and picks shown
  (`explain`, `picks`, `report`, `fit`), the decisions of an analysis run
  (`analysis`), and the parsing of model replies (`jsontext`, `reason`,
  `model`). Calls into serde_json, chrono and std that Verus cannot read
  sit behind small trusted wrappers whose doc comments say what they claim.
- `app/` is the ordinary Rust around it: the SQLite store, the keyring, the
  OpenRouter client, and the floating-point statistics (weighted means,
  variances, the confidence curve), which hand the library values in
  thousandths.
- `tests/` runs the library on concrete inputs.
