# genie

The verified core of the `genie` on-device assistant.

- `src/` is the library, checked by Verus: chunking documents for retrieval
  (`chunk`), prompt assembly, cache naming and vector-store decisions
  (`rag`), the runtime's user message and the reading of its JSON replies
  (`ffi`), the choice of action for a command line (`dispatch`), the notices
  of features not written yet (`backend`, `llm`, `graph`), the library's
  errors (`error`) and the character-level helpers they share (`text`).
- `app/` is the `genie` program around it: the command line, files, the
  embedder, the vector store and the model runtime's C API.
- `tests/` runs the library on concrete inputs.
