# arka

The verified core of an active-recall study assistant that turns Markdown
notes into flashcards and multiple-choice questions and schedules them for
review.

`src/` is a Verus library. Its functions carry `requires` / `ensures`
contracts over mathematical models (`Seq`, `Set`, `Map`, views of the data
types), and Verus proves each body against its contract; the few calls into
`std` and `serde_json` that are not proved (JSON text parsing and pretty
printing, lower-casing, the Unicode alphanumeric test, HTTP status text) sit
behind small wrappers whose contracts say what is assumed:

- `graph`: knowledge-graph generation. The JSON schemas handed to the
  provider, Stage A output parsing, validation and hydration, consolidation
  of chunk extractions into one graph with stable entity IDs, the graph
  index, context bundles, Stage B question validation, prompt rendering,
  and the pipeline's bookkeeping.
- `graph::entity_resolution`: entity contexts, candidate shortlists from
  similarity ranks, verifier output decoding, transitive merge planning, and
  graph rewriting.
- `llm`: provider configuration, failure classification, retry back-off,
  and reply normalization.
- `learning_items`, `study_plan`, `scheduler`, `user_profile`: the rules of
  the item store, the daily plan, review grading (with the integer step of
  an SM-2 review) and the learner profile.
- `json`, `text`: the JSON document model and character-level string helpers.

Public proof functions state the library's laws, for example that a merge
plan does not depend on the order or direction of verified pairs (a
reordered batch succeeds exactly when the given one does, with the same
plan), that the plan holds one merge per connected component of same-entity
results, that an empty plan rewrites a valid graph to itself, that every
plan the planner builds is accepted by the rewriter, and that each entity
keeps at most its configured number of candidate neighbours. Index queries
and consolidated relations are determined by the graph alone.

`app/` is ordinary Rust around the library: HTTP calls to Ollama and
OpenAI-compatible providers, note reading and the concurrent pipeline stages
with their progress callbacks, SQLite storage, and the floating-point parts
(cosine similarity, SM-2 ease factors).

`tests/` exercises the library on concrete inputs.
