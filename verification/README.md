# glctl

`glctl` is the Generation Lineage Control Tool: a local, Git-like store of
AI-agent evolution history (generations, the relations between them, and
their retrospectives), scoped by company.

The crate is written in Verus.

- `src/` is the verified library: the storage layout and the choice of new
  generation ids, the records, stable ordering by creation instant, and the
  computation behind every command (`init`, `new`, `show`, `list`,
  `lineage`, `graph`, `status`, `fsck`, `push`, `login`, `auth`). Each public
  function states its result in its contract; the laws that span functions
  (fresh and well-formed ids, company scoping, `new` keeping a clean
  repository clean, `push` reporting what `status` reports, the
  percent-encoding round trip, the uniqueness of a stable order) are proof
  functions named `law_*`.
- `app/` is the command-line program around it: argument parsing, the
  environment, YAML and JSON files, the HTTP push and the browser login.
- `tests/` runs the library on concrete values.
