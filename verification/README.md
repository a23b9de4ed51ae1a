# byteforge

The verified core of a binary (hex) editor, written in Verus.

- `src/` is the library. Every executable function carries a contract that
  Verus proves, except four small wrappers around outside calls, whose
  contracts are trusted: `text::push_char` (`String::push`),
  `inspector::decode_text` (`encoding_rs::Encoding::decode`, its result named
  `decoded_text`), `hex::utf8_text` (`std::str::from_utf8`, its error text
  named `utf8_error_text`) and `document::path_file_name`
  (`std::path::Path::file_name`). The library's modules:
  - `document`, `pieces`: a piece-table byte document with insert, delete,
    overwrite, replace, undo and redo, modelled as a byte sequence with two
    history stacks (`DocModel`);
  - `search`, `hex`, `offsets`, `text`, `numbers`, `inspector`: byte search,
    hex-text parsing, offset parsing, number formatting and the data
    inspector (text previews decode through `encoding_rs`);
  - `detect`, `formats`, `png`, `jpeg`, `gif`, `bmp`, `wav`, `zip`: format
    detection and read-only header field decoders;
  - `editor`, `navigation`, `editing`, `input`, `keys`, `replacing`, `panes`,
    `hexview`, `panel`: the editor state (`Editor`, viewed as `EditorView`)
    and each user action as a step from one state to the next;
  - `laws`, `editor_laws`: properties that span several operations, such as
    undo after an edit restoring the document.
- `tests/` runs the library on concrete inputs.
- `app/` holds what Verus does not see: files and memory maps, writing to
  disk, the floating-point inspector lines, and a plain text front end.
