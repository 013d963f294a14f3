# dex_rs_classfile

Reading of Java class files, verified with Verus.

- `src/class_reader.rs`: `ClassReader`, a cursor over the bytes of a class file that
  reads big-endian 8-, 16-, 32- and 64-bit quantities and byte slices; the
  `ParseError` type; the spec functions that say what each read gives and where it
  leaves the cursor, and laws about reads.
- `src/class_file_version.rs`: `ClassFileVersion`, the one-byte compact form of a
  class file version, and its compaction from `RawClassFileVersion`.
- `src/raw_class_file_version.rs`: reading of the class file header.
- `src/constant_pool.rs`: the constant pool, its entries and their decoding.
- `src/instructions.rs`, `src/instruction_set.rs`: JVM instructions and their decoding.
- `src/class_parser.rs`: reading of a whole class file into its version, its constant
  pool and the sequence of elements (fields, methods, attributes, instructions) that
  follow it.
- `app/`: the fuzz target of the reader, and a printer that shows a parsed class file.

Every function in `src/` carries a contract over spec functions of the same modules;
`tests/` runs the library on concrete inputs.
