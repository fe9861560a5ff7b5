# nexus

The front end of the Nexus language, its language server and its runtime, in Rust verified with
Verus.

- `src/` is the library. Every function in it is verified against its contract, but for eight
  wrappers around functions of the standard library (classes and cases of characters, texts out
  of bytes, texts in quotes), which are marked `external_body` and whose contracts are trusted.
  - `lexer`, `parser`: source text to tokens to syntax trees (`ast`, `types`).
  - `typecheck`: inference with rows of coeffects and effects, linear bindings, exhaustive
    matches, imports, and warnings.
  - `lsp`: positions, symbols, hover, definitions, references, completions, diagnostics, and the
    answers of the server.
  - `runtime`: memory regions, integers, texts, collections behind handles, files, processes and
    HTTP requests.
  - `stdlib`, `nxc_cache`: where modules stand, and when the build of the compiler is fresh.
  - `text`, `table`: texts as sequences of characters, and tables with distinct keys.
- Proof functions whose names begin with `law_` state what holds across functions.
- `tests/` runs the library.
- `app/` is the program around it: the server on standard input and output, reading of files, and
  the exports of the runtime.

A data type of the library has a model, whose name ends in `V`, in which contracts speak: texts
are `Seq<char>`, lists are `Seq`, tables keyed by texts are sequences of pairs, and those keyed by
integers are `Map`. Where the outcome of a function rests on a property of characters that the
standard library decides (what is a letter outside ASCII, or another case), that property has a
name, and the contract speaks of the name.
