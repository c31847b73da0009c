# bigrag_native

The text-processing core of a document indexer for retrieval-augmented
generation, verified with Verus, and its Node.js bindings.

## Layout

- `src/` — the verified library.
  - `text.rs`: specifications of Unicode whitespace, words, trimming,
    joining and splitting, and the character-level helpers built on them.
  - `text_parser.rs`: line-ending normalisation, whitespace collapsing (whole
    text or per line), markdown stripping over pulldown-cmark's events, text
    file results and text counts; the idempotence laws of normalisation.
  - `html_parser.rs`: document text and CSS-selector text over scraper.
  - `pdf_parser.rs`: text of PDF content streams, assembly of page texts, and
    the step function that chooses between the extraction tiers.
  - `parser.rs`: path file names and extensions, the supported extensions,
    and the routing of a document to its parser.
  - `epub_parser.rs`, `epub_parser_simple.rs`, `indexer.rs`, `ocr.rs`: EPUB
    results, token estimates and OCR languages.
  - `file_read.rs`: what reading a file gave, as the parsers receive it.
- `tests/` — tests of the library.
- `app/` — the Node.js bindings: file and image I/O, PDF loading, OCR,
  parallel batches and the floating-point vector operations.

## Not included

Parsing a document together with chunking its text, the batch version of
that, and the indexing statistics computed from it rest on a text-chunking
module whose sources are not available; they are not part of this crate.
