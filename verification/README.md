# asmb

An assembler / disassembler front end for x86, x64, ARM32, ARM64, MIPS32,
MIPS64, PPC32, PPC64, AVR, RISC-V 32/64 and SPARC 32/64, built around a
library whose logic is proved with Verus.

- `src/` — the verified library:
  - `text`: character-level string helpers (UTF-8 byte offsets, trim,
    split, removal of a character, ASCII lowercasing);
  - `directives`: picking the directive out of an assembly line and
    screening a source for directives other than the safe data ones;
  - `shellcode`: turning an objdump listing into `\x..` escaped bytes and
    naming the output file;
  - `toolchain`: the architectures, their names, and the compiler, objdump
    and objcopy command lines used for each;
  - `hexfile`: decoding a hex text file (through `binascii::hex2bin`);
  - `listing`: reading instructions out of a disassembly listing.
- `app/` — the two command-line programs (`aas`, `das`, chosen by the name
  the binary runs under): argument handling, files and running the tools.
- `tests/` — tests of the library on concrete inputs.
