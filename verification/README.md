# unrpyc_rs

Reads Ren'Py compiled scripts (`.rpyc`) and archives (`.rpa`), with the
reading logic verified by Verus.

- `src/pickle.rs`: the pickle values the logic reads, their model, dictionary lookup, and
  the decoding of pickle bytes through `serde_pickle`.
- `src/ast.rs`: statements read from the pickled syntax tree of a script.
- `src/reader.rs`: the `.rpyc` container, zlib decompression, and decoding a script's tree.
- `src/rpa.rs`: archive headers, reading the archive index, and putting files together.
- `app/`: the command-line tool and the C functions: reading and writing files, printing.
