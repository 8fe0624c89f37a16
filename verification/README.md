# reqvire

Diagrams and reports over a requirements model kept in Markdown documents,
written in Verus with its behaviour stated in contracts and proved.

- `src/` is the verified library:
  - `model`: elements, their types and relations, and the registry;
  - `diagrams`: the Mermaid diagram of each section of each document;
  - `markdown`: putting a section's diagram into a document;
  - `regenerate`: proof that doing so twice with a Mermaid block that does
    not end with a line feed (as generated) changes nothing, unless the
    first result has a line other than its last, outside the block, that
    ends with a carriage return, or has several lines and ends with an empty
    one (the proof's preconditions);
  - `nodes`: when node identifiers are a function of element identifiers,
    every element's node is declared in its own section's diagram; when
    moreover distinct identifiers get distinct nodes and every drawn
    relation points at an element, each node is declared once;
  - `updates`: grouping regenerated diagrams by document and applying them;
  - `filters`, `reports`, `render`: filtered summaries, their Cypher and
    text renderings, and the verification coverage report;
  - `text`: character-level string operations;
  - `outside`: the calls into `globset`, `regex` and `std` whose contracts
    are trusted.
- `app/` prints summaries and reports (JSON through `serde`), and reads and
  writes the documents whose diagrams are regenerated.
- `tests/` exercises the library on concrete models.
