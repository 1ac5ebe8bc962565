# sf_afmt

A formatter for Salesforce Apex source code, written in Verus: the layout
rules, the document printers and the configuration checks carry contracts
that Verus proves.

## Layout

- `src/` — the verified library.
  - `ts.rs` — the calls into the tree-sitter parser and its Apex grammar;
    `syntax.rs` copies the parse tree into a tree of plain values.
  - `accessor.rs`, `utility.rs`, `strs.rs` — reading nodes, their text and
    their neighbours; text helpers.
  - `context.rs` — comments (attachment to nodes, metadata, JavaDoc
    layout) and punctuation.
  - `data_model.rs`, `enum_def.rs`, `query.rs` — one type per kind of
    syntax node (SOQL and SOSL queries in `query.rs`), each built from a
    node and turned into a document. The `*_tied` predicates of
    `enum_def.rs` state which node each part of a model is read from.
  - `doc.rs`, `doc_builder.rs` — the document algebra, its builder and the
    width-aware printer, with its laws.
  - `notation.rs`, `print.rs` — a smaller notation and its printer.
  - `source_formatter.rs`, `formatter.rs` — the configuration and the
    formatting pipeline for a source text and for files.
  - `args.rs`, `selection.rs`, `report.rs` — the command line, which files
    a run selects and in which order, and what a run reports: the fate of
    each file, the counts, the exit status, the framing of printed sources.
  - `config.rs`, `shape.rs`, `fmt_push.rs`, `enrich.rs`, `node.rs`,
    `message_helper.rs` — session settings, line shapes and small helpers.
- `app/` — the `afmt` command: argument parsing, reading the configuration
  file, walking directories, reading and writing files, formatting files in
  parallel, printing.
- `tests/` — tests of the library.
