# hippocampus

A conversation client with a memory: it keeps sessions, plans what a request
sends within a token budget, consolidates conversations into facts, cuts them
into episodes, links what is remembered in a graph, looks things up in a local
knowledge base, and measures itself on benchmarks.

- `src/` is the library. Its behaviour is stated in contracts and proved by
  Verus. What it has from `chrono`, `serde_json`, `sha2` and the standard
  library stands behind small items whose contracts are taken as given; each
  says in its comment what it claims.
- `app/` is the program around it: the command line, files, the index database,
  the model service, and what is computed in floating point.
- `tests/` runs the library.

The modules, from the ground up:

| modules | what they hold |
| --- | --- |
| `text`, `number`, `order`, `digest`, `json`, `moment`, `clock` | texts, orders, digests, JSON and time |
| `model`, `config`, `channels` | sessions, turns and settings |
| `context`, `budget`, `attribution`, `allocation`, `turn`, `search` | the request of a turn, and its life |
| `clauses`, `facts`, `evidence`, `merge`, `boundary`, `request`, `consolidate` | from conversations to facts |
| `encoding`, `episode`, `replanning`, `windows`, `refresh` | episodes and embeddings |
| `graph`, `links`, `relations`, `associations`, `edges`, `stored`, `walk` | the graph of memory |
| `control` | what the user excluded |
| `knowledge`, `snapshot`, `versions`, `syncing`, `lookup` | the knowledge base |
| `score`, `corpus`, `locomo`, `synthetic`, `dataset`, `runtime`, `evaluation`, `answers`, `workspace`, `ledger` | benchmarks |
| `commands`, `display` | decisions of the command line, and what it prints |
