# hamster

A fast, fuzzy mail indexer and tagger for Maildir folders, with a terminal
interface.

- `src/` is the verified library: tag reconciliation between folder rules,
  Maildir flags and stored tags; the indexing plan (which files to read
  again, which ids to delete, how the notebook changes); the document
  stored for a raw message, parsed with `mail_parser`; the address book
  and its fuzzy lookup; tag editing and validation; the search result
  formats; the census figures; and the state machine of the terminal
  interface, which turns each key into a new state and the outside work to
  perform. Every function carries a contract that Verus proves.
- `app/` is the program around it: the command line, the configuration and
  JSON files, the Tantivy index, the dialogs and the terminal drawing.
- `tests/` exercises the library on concrete values.
