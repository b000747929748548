# oxidize_docx_core

Reads `.docx` (OOXML WordprocessingML) content into semantic elements,
plain text, Markdown and RAG chunks. The parsing, style and numbering
resolution, classification, export and chunking logic lives in `src/` and is
verified with Verus against specifications written over mathematical
models (sequences, maps and views of each type).

Layout:

- `src/xml`, `src/word`, `src/ooxml`: the part parsers, each a function on
  the bytes of an XML part read through quick-xml.
- `src/raw`, `src/styles`, `src/numbering`: the raw document model, style
  inheritance and list numbering.
- `src/pipeline`: classification into `DocxElement`s, tables and nested
  lists, plain-text and Markdown export, and the RAG chunker with its laws
  (`pipeline/chunk_laws.rs`).
- `src/document.rs`: a document from its parts; `src/zip`: archive limits;
  `src/images`: image sniffing and ordering.
- `app/`: opening a `.docx` file from disk (ZIP and file I/O) and the error
  type with `std::error::Error`.
- `tests/`: the test suite.
