# decon

Finds evaluation-set text inside training data. Evaluation questions, answers
and passages are indexed by hashed token n-grams; training documents are
sampled for n-gram hits, each hit is grown into a cluster of matching
evaluation documents, and the answer and passage of each candidate are looked
for around the cluster before it is scored.

## Layout

- `src/` — the verified library (Verus). Text cleaning, tokenizer selection,
  the reference index builder, n-gram cluster expansion, passage and answer
  boundary search, overlap text layout, configuration overrides, report file
  names, report summaries and comparisons, the JSON field lookups of input
  lines, and the server's job table. Calls into `tiktoken-rs`,
  `unicode-segmentation`, `regex` and `serde_json` go through small trusted
  wrappers whose contracts say what is assumed of them.
- `tests/` — tests of the library.
- `app/` — the command-line program: file reading and writing, report JSON and YAML,
  the float scores and IDF weights, printing, and the HTTP server.
