# jsonld

A verified library for the core of JSON-LD 1.1 processing, written in Verus:
context processing, IRI expansion, term selection and IRI compaction, value
and node compaction steps, the inverse context, the context cache, the
`Link` header parser, the document loader's decisions, and the RDF literal
form of values. Each public function states its behaviour in `requires` /
`ensures` clauses over mathematical models (spec functions and views), and
Verus proves the code against them.

- `src/` is the library. `process.rs` holds context processing, `compact.rs`
  and `preference.rs` IRI compaction, `compaction.rs` value and node
  compaction, `inverse.rs` the inverse context, `cache.rs` the processed
  context cache, `link.rs` the `Link` header, `loader.rs` the loader's
  decisions, and `rdf.rs` the RDF literals.
- `tests/` runs the library on concrete inputs.
- `app/` is the command-line front end and the I/O around the library.

Calls into `iri-rs`, `rdfx`, `langtag` and `foldhash` go through small
trusted wrappers whose contracts state what those crates document.
