# dynasm_loongarch

The LoongArch back end of a run-time assembler, verified with Verus: it reads an
instruction from its tokens, matches it against the forms of its mnemonic, encodes it into
instruction words (with the fields that are only known at run time described, together
with the checks that the assembled code makes on them), and, on the run-time side, patches
and reads back the relocations of assembled code.

A relocation reads back every value that a write of it accepts, with two exceptions: the
relocations whose field drops the low bits of the value (`PCALA_HI20`, `PCADD_SHIFT2`,
`PCADD_SHIFT12`, `PCADD_SHIFT18`) read back a multiple of their unit near the value, and
`SPLIT_PCALA`, which takes offsets from -0x8000_0800 to 0x7FFF_F7FF, reads those below
-2^31 back 2^32 higher, as its high part wraps around. Branch offsets decode as the sign
extension of their field with two zero bits below it.

## Layout

- `src/` is the verified library.
  - `syntax.rs` reads an instruction from tokens (memory references as `[base, offset]`
    or `offset(base)`); `parser.rs` names registers.
  - `ast.rs`, `registers.rs` and `target.rs` describe registers and targets; `data.rs`
    the instruction forms, `opmap.rs` the table that holds them.
  - `matching.rs` picks the form of an instruction; `compiler.rs` and `commands.rs`
    encode it; `dynamic.rs` states what assembled code does with run-time fields.
  - `relocation.rs`, `loongarch.rs` and `bytes.rs` patch and read relocations in a buffer
    (the byte order goes through the `byteorder` crate); `reloc_laws.rs` and
    `agreement.rs` hold the laws that relate writes to reads and the assembler to the
    run-time relocations.
  - `debug.rs` and `instruction_format.rs` describe instruction forms as text.
- `tests/` runs the library on concrete values.
- `app/` holds what cannot be verified: the handlers that stop a program whose run-time
  value does not fit, and the conversion of a `proc_macro2` token stream into the
  library's tokens.
