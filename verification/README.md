# vitri

A library for getting CNF formulas ready for knowledge compilation and model
counting, with its behaviour stated as Verus contracts and proved.

It reads DIMACS text with the model-counting competition's meta-comment lines
(`c t`, `c p show`, `c p weight`), settles which counting problem a run
preserves, splits a formula at its independent components, writes formulas
and their header lines back out, and makes the decisions a preprocessing run
takes about its stages, budgets and results.

## Layout

- `src/` — the verified library.
  - `cnf/` — literals, clauses and formulas; the DIMACS reader and writer and
    the laws that tie them together; show sets; exact literal weights;
    occurrence counts; the component split.
  - `component` — a component seen from inside, and the normal form its vtree
    is cached under.
  - `config/` — the run configuration, its policies and its validation.
  - `bundle/` — the preprocessing record and bundle, the Arjun stage's gates,
    retry budgets, and the checks that a build and a component manifest belong
    to the formula they are written beside.
  - `budget`, `clock`, `candidates`, `status`, `exit`, `error` — budgets,
    time, candidate ranking tokens, status codes and errors.
- `tests/` — tests run against the compiled library.
- `app/` — the `vitri` command-line tool: argument handling and file I/O
  around the library.

Exact rational arithmetic on weights goes through `num-bigint` and
`num-rational`; the command-line tool writes its JSON with `serde_json`.
