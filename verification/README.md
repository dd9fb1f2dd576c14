# d3dasm

A verified library for Direct3D shader bytecode, and a disassembler built on it.

- `src/container.rs`, `src/shader.rs`: containers in a file, typed access to their chunks, the full listing.
- `src/report.rs`, `src/trial.rs`: the listing of a whole file; a trial that decodes and encodes every program again.
- `src/chunks/`: the chunk formats, each parsed into a typed value and most written back to bytes.
- `src/shex/`: the instruction set. `decode` reads words into a program, `encode` writes them back, `fmt` lists them.
  `roundtrip` says which programs come back from their bytes, `canonical` which bytes come back from their program.
- `src/hlsl/`: reads a program back as HLSL. `structure` nests the instructions, `machine` and `fetch` say what each
  computes, `value` decides which values are worth a line, `walk` puts these together as one mathematical reading and
  `body` computes it, `matrix` and `idiom` fold what compilers spread out, `tidy` names and types what is left.
  `tiling` says how the members of a buffer fill its registers.
- `src/bytes.rs`, `src/text.rs`, `src/natural.rs`, `src/float.rs`, `src/util.rs`: little-endian bytes, text, big
  numbers, the shortest text of a float, and strings of a chunk.
- `app/`: the command-line program.

Contracts speak of models: a program is a sequence of instruction models, a text a sequence of characters, a file a
sequence of bytes. What relates several functions (a chunk that is written reads back, a program that is encoded decodes
to itself, a reading that has settled describes itself) stands as a `law_` proof function beside them.
