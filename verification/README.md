# senbei

senbei restores protected Android game libraries and their metadata. It decrypts
the loader that sits in the private section of a protected `libil2cpp.so`, applies
the decoded memory images to the file, rebuilds the dynamic tables and writes a
plain ELF file. It also puts the tokens and method indices of
`global-metadata.dat` back in order.

The library under `src/` is written in Verus: every function states what it
returns or changes, and the proofs are checked with the code.

| Module     | What it holds                                                        |
|------------|----------------------------------------------------------------------|
| `bytes`    | little-endian integers in byte sequences                             |
| `text`     | numbers and pieces of text in messages                               |
| `fold`     | steps that may fail, taken one after the other                       |
| `digest`   | SHA-256 digests as text                                              |
| `elf`      | reading a layout, appending a load segment, parsing an image         |
| `engine`   | the loader, the containers, the dynamic tables and the finished file |
| `metadata` | tokens and method indices of a metadata file                         |
| `job`      | the course of a run, names, packages, outcomes and the account       |

Files named `*_laws.rs` hold what follows from the contracts for the library as a
whole: what a read gives back of a write, what a step leaves untouched, and what
never overlaps.

`app/` does the input and output: it takes paths apart, maps files, walks packages
and directories, prints, and calls the services that decrypt and decompress.
`tests/` runs the library on concrete values.
