# graph_util

Data composed from module graphs: what is known of each module, where it was
first imported, which npm packages are required, and which modules have passed a
type check.

- `src/` is the library, verified with Verus. `graph_data` holds the data and its
  operations, `walk` and `check` say what they find, `addition` says what a graph
  adds. `lock` and `creation` decide what is done to build a graph and with it.
  `laws` and `addition_laws` prove what holds of the data as a whole.
- `tests/` holds tests with concrete graphs.
- `app/` builds graphs with `deno_graph`, converts them to the library's types,
  and carries out what `lock` and `creation` decide.
