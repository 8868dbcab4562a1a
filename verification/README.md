# changes_parser

A verified library for reading amending acts (Russian federal laws that amend other
laws): the directive grammars that read a line of an act (`подпункте 1 пункте 3 статьи
2^2`, `дополнить пунктом 7 следующего содержания:`, `слова "…" заменить словами "…"`,
`часть 2 изложить в следующей редакции:`), the paths of the units they change, the
numbers and number ranges of those units, the checker that tells directives from plain
text, the list of changes of a whole act, and the graph of those changes with its text
and Mermaid renderings. The characters that numbers are written with, the letters of
lettered units and the ordinal words of paragraphs and sentences form a vocabulary that
the caller gives (`NumberVocabulary`).

Every function in `src/` is verified with Verus against its `requires`/`ensures`
contract; the few calls into the standard library that Verus has no specification for
(appending a character to a string, lower-casing, feeding a value to a hasher) stand behind small trusted wrappers, each documented where it is
declared.

Layout:

- `src/objects/` – numbers of units (`1)`, `а)`, `22^2`), their order and Markdown, the
  kinds of headers and items.
- `src/change_path.rs`, `src/change_path_order.rs` – steps and paths to a unit, their
  order.
- `src/json_path_creator.rs` – JSONPath queries into a structured document.
- `src/parsers/` – the grammars of directive phrases (`chars`, `tags`, `words`,
  `path_plus_number` for paths and numbers, `apply`, `replace`, `word_directives`,
  `target_document`), the checker of lines (`changes_checker`), the list of changes of
  an act (`changes_parser`, `line_reader`), change maps and Mermaid fragments.
- `src/changes_graph.rs` – the graph of changes: nodes by depth, edges to parents,
  descendants and walks.
- `src/outputs/` – the text and the diagram of a graph.
- `src/format_extensions.rs` – word operations on the text of paragraphs and items.
- `src/actualizer.rs` – the headings of articles of an amending act.
- `app/` – serde and error-reporting counterparts of the library types, JSON I/O and
  reading the vocabulary of numbers.
- `tests/` – the test suite.
