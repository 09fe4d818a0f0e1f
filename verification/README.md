# tzctl

`tzctl` manages Tenzir pipelines on a node through the Tenzir Platform: a
directory of `.tql` files is the desired state, and the tool plans and applies
what it takes to bring the node in line (or pulls the node's pipelines back
into files).

Layout:

- `src/` — the library, verified with Verus: configuration layering, project
  loading and frontmatter, the reconciler, a model of what a plan does to a
  node (with the proof that a plan carried out converges), the apply report, the pull
  planner, the credential cache, the OIDC flow decisions, request and response
  shaping for the platform API, and the text the commands print.
- `app/` — the command-line program around it: argument parsing, files, the
  terminal, HTTP, the async flows, and the throughput metrics (which are
  floating point).
- `tests/` — tests of the library.
