//! The instruction sets, their names, and the command lines of the tools
//! (assembler, objdump, objcopy) used for each of them.

use vstd::prelude::*;
use crate::text::{lowered, same_text, to_ascii_lower, trim, trimmed, views};

verus! {

/// The supported instruction set architectures.
#[derive(Clone, Copy, Debug, PartialEq, Eq, Structural)]
pub enum Arch {
    X86,
    X64,
    Ppc32,
    Ppc64,
    Mips32,
    Mips64,
    Arm32,
    Arm64,
    Sparc32,
    Sparc64,
    Avr,
    Riscv32,
    Riscv64,
}

/// The name by which an architecture is given on the command line.
pub open spec fn arch_name(a: Arch) -> Seq<char> {
    match a {
        Arch::X86 => "x86"@,
        Arch::X64 => "x64"@,
        Arch::Ppc32 => "ppc32"@,
        Arch::Ppc64 => "ppc64"@,
        Arch::Mips32 => "mips32"@,
        Arch::Mips64 => "mips64"@,
        Arch::Arm32 => "arm32"@,
        Arch::Arm64 => "arm64"@,
        Arch::Sparc32 => "sparc32"@,
        Arch::Sparc64 => "sparc64"@,
        Arch::Avr => "avr"@,
        Arch::Riscv32 => "riscv32"@,
        Arch::Riscv64 => "riscv64"@,
    }
}

/// The architecture called `name`, if any.
pub open spec fn arch_named(name: Seq<char>) -> Option<Arch> {
    if name == "x86"@ {
        Some(Arch::X86)
    } else if name == "x64"@ {
        Some(Arch::X64)
    } else if name == "ppc32"@ {
        Some(Arch::Ppc32)
    } else if name == "ppc64"@ {
        Some(Arch::Ppc64)
    } else if name == "mips32"@ {
        Some(Arch::Mips32)
    } else if name == "mips64"@ {
        Some(Arch::Mips64)
    } else if name == "arm32"@ {
        Some(Arch::Arm32)
    } else if name == "arm64"@ {
        Some(Arch::Arm64)
    } else if name == "sparc32"@ {
        Some(Arch::Sparc32)
    } else if name == "sparc64"@ {
        Some(Arch::Sparc64)
    } else if name == "avr"@ {
        Some(Arch::Avr)
    } else if name == "riscv32"@ {
        Some(Arch::Riscv32)
    } else if name == "riscv64"@ {
        Some(Arch::Riscv64)
    } else {
        None
    }
}

/// The architecture called `name` (exact match).
pub fn arch_from_name(name: &str) -> (r: Option<Arch>)
    ensures
        r == arch_named(name@),
{
    if same_text(name, "x86") {
        Some(Arch::X86)
    } else if same_text(name, "x64") {
        Some(Arch::X64)
    } else if same_text(name, "ppc32") {
        Some(Arch::Ppc32)
    } else if same_text(name, "ppc64") {
        Some(Arch::Ppc64)
    } else if same_text(name, "mips32") {
        Some(Arch::Mips32)
    } else if same_text(name, "mips64") {
        Some(Arch::Mips64)
    } else if same_text(name, "arm32") {
        Some(Arch::Arm32)
    } else if same_text(name, "arm64") {
        Some(Arch::Arm64)
    } else if same_text(name, "sparc32") {
        Some(Arch::Sparc32)
    } else if same_text(name, "sparc64") {
        Some(Arch::Sparc64)
    } else if same_text(name, "avr") {
        Some(Arch::Avr)
    } else if same_text(name, "riscv32") {
        Some(Arch::Riscv32)
    } else if same_text(name, "riscv64") {
        Some(Arch::Riscv64)
    } else {
        None
    }
}

/// The assembler's architecture argument: trimmed, then matched exactly.
pub fn parse_asm_arch(isa: &str) -> (r: Option<Arch>)
    ensures
        r == arch_named(trimmed(isa@)),
{
    arch_from_name(trim(isa))
}

/// The disassembler's architecture argument: trimmed, then matched without
/// regard to case. (Of the characters that Unicode lowercasing turns into
/// ASCII letters, the only non-ASCII one is the Kelvin sign, which becomes
/// `k`, a letter no name holds; so matching ASCII-lowered text is matching
/// the lowercased text.)
pub fn parse_disasm_arch(isa: &str) -> (r: Option<Arch>)
    ensures
        r == arch_named(lowered(trimmed(isa@))),
{
    let t = trim(isa);
    let low = to_ascii_lower(t);
    arch_from_name(low.as_str())
}

/// Every architecture is recognized by its own name, and its name is already
/// lower case, so the disassembler recognizes it too.
pub proof fn lemma_arch_name_roundtrip(a: Arch)
    ensures
        arch_named(arch_name(a)) == Some(a),
        lowered(arch_name(a)) == arch_name(a),
{
    reveal_strlit("x86");
    reveal_strlit("x64");
    reveal_strlit("ppc32");
    reveal_strlit("ppc64");
    reveal_strlit("mips32");
    reveal_strlit("mips64");
    reveal_strlit("arm32");
    reveal_strlit("arm64");
    reveal_strlit("sparc32");
    reveal_strlit("sparc64");
    reveal_strlit("avr");
    reveal_strlit("riscv32");
    reveal_strlit("riscv64");
    assert(lowered(arch_name(a)) =~= arch_name(a));
    // names of equal length differ at one of these positions
    match a {
        Arch::X86 => {},
        Arch::X64 => {
            assert(arch_name(a)[1] != "x86"@[1]);
        },
        Arch::Ppc32 => {},
        Arch::Ppc64 => {
            assert(arch_name(a)[3] != "ppc32"@[3]);
        },
        Arch::Mips32 => {},
        Arch::Mips64 => {
            assert(arch_name(a)[4] != "mips32"@[4]);
        },
        Arch::Arm32 => {
            assert(arch_name(a)[0] != "ppc32"@[0]);
            assert(arch_name(a)[0] != "ppc64"@[0]);
        },
        Arch::Arm64 => {
            assert(arch_name(a)[0] != "ppc32"@[0]);
            assert(arch_name(a)[0] != "ppc64"@[0]);
            assert(arch_name(a)[3] != "arm32"@[3]);
        },
        Arch::Sparc32 => {},
        Arch::Sparc64 => {
            assert(arch_name(a)[5] != "sparc32"@[5]);
        },
        Arch::Avr => {
            assert(arch_name(a)[0] != "x86"@[0]);
            assert(arch_name(a)[0] != "x64"@[0]);
        },
        Arch::Riscv32 => {
            assert(arch_name(a)[0] != "sparc32"@[0]);
            assert(arch_name(a)[0] != "sparc64"@[0]);
        },
        Arch::Riscv64 => {
            assert(arch_name(a)[0] != "sparc32"@[0]);
            assert(arch_name(a)[0] != "sparc64"@[0]);
            assert(arch_name(a)[5] != "riscv32"@[5]);
        },
    }
}

/// A program to run and its arguments.
pub struct Invocation {
    pub program: String,
    pub args: Vec<String>,
}

/// The text of each string.
pub open spec fn string_views(v: Seq<String>) -> Seq<Seq<char>> {
    v.map_values(|s: String| s@)
}

/// `inv` runs `program` with `args`.
pub open spec fn invokes(inv: Invocation, program: Seq<char>, args: Seq<Seq<char>>) -> bool {
    inv.program@ == program && string_views(inv.args@) == args
}

/// Owned copies of `parts`.
fn owned_all(parts: &[&str]) -> (r: Vec<String>)
    ensures
        string_views(r@) == views(parts@),
{
    let mut out: Vec<String> = Vec::new();
    let mut i: usize = 0;
    while i < parts.len()
        invariant
            i <= parts@.len(),
            string_views(out@) == views(parts@.subrange(0, i as int)),
        decreases parts@.len() - i,
    {
        let s = parts[i].to_owned();
        proof {
            assert(string_views(out@.push(s)) =~= string_views(out@).push(s@));
            assert(views(parts@.subrange(0, i + 1)) =~= views(parts@.subrange(0, i as int)).push(
                parts@[i as int]@,
            ));
        }
        out.push(s);
        i = i + 1;
    }
    assert(parts@.subrange(0, parts@.len() as int) =~= parts@);
    out
}

/// The invocation of `program` with `args`.
fn invocation(program: &str, args: &[&str]) -> (r: Invocation)
    ensures
        invokes(r, program@, views(args@)),
{
    Invocation { program: program.to_owned(), args: owned_all(args) }
}

/// The compiler command that assembles the source at `path` for `a` into
/// `tmp.o` as a flat binary.
pub open spec fn assembler_spec(a: Arch, path: Seq<char>) -> (Seq<char>, Seq<Seq<char>>) {
    match a {
        Arch::X86 => (
            "gcc"@,
            seq![
                "-m32"@, "-c"@, path, "-o"@, "tmp.o"@, "-O0"@, "-Xlinker"@, "--oformat-binary"@,
            ],
        ),
        Arch::X64 => (
            "gcc"@,
            seq![
                "-m64"@, "-c"@, path, "-o"@, "tmp.o"@, "-O0"@, "-Xlinker"@, "--oformat-binary"@,
            ],
        ),
        Arch::Ppc32 => (
            "powerpc-linux-gnu-gcc"@,
            seq![
                "-c"@, path, "-o"@, "tmp.o"@, "-O0"@, "-mlittle-endian"@, "-Xlinker"@,
                "--oformat-binary"@,
            ],
        ),
        Arch::Ppc64 => (
            "powerpc64-linux-gnu-gcc"@,
            seq![
                "-c"@, path, "-o"@, "tmp.o"@, "-O0"@, "-mlittle-endian"@, "-Xlinker"@,
                "--oformat-binary"@,
            ],
        ),
        Arch::Mips32 => (
            "/usr/bin/mips-linux-gnu-gcc-10"@,
            seq!["-c"@, path, "-o"@, "tmp.o"@, "-O0"@, "-EL"@, "-Xlinker"@, "--oformat-binary"@],
        ),
        Arch::Mips64 => (
            "/usr/bin/mips64-linux-gnuabi64-gcc-11"@,
            seq!["-c"@, path, "-o"@, "tmp.o"@, "-EL"@, "-O0"@, "-Xlinker"@, "--oformat-binary"@],
        ),
        Arch::Arm32 => (
            "/usr/bin/arm-none-eabi-gcc"@,
            seq![
                "-c"@, path, "-o"@, "tmp.o"@, "-O0"@, "-mlittle-endian"@, "-Xlinker"@,
                "--oformat-binary"@,
            ],
        ),
        Arch::Arm64 => (
            "/usr/bin/aarch64-linux-gnu-gcc"@,
            seq![
                "-c"@, path, "-o"@, "tmp.o"@, "-O0"@, "-mlittle-endian"@, "-Xlinker"@,
                "--oformat-binary"@,
            ],
        ),
        Arch::Sparc32 => (
            "/usr/bin/sparc64-linux-gnu-gcc-11"@,
            seq![
                "-c"@, path, "-o"@, "tmp.o"@, "-O0"@, "-m32"@, "-Xlinker"@, "--oformat-binary"@,
            ],
        ),
        Arch::Sparc64 => (
            "/usr/bin/sparc64-linux-gnu-gcc-11"@,
            seq!["-c"@, path, "-o"@, "tmp.o"@, "-O0"@, "-Xlinker"@, "--oformat-binary"@],
        ),
        Arch::Avr => (
            "/usr/bin/avr-gcc"@,
            seq!["-c"@, path, "-o"@, "tmp.o"@, "-O0"@, "-Xlinker"@, "--oformat-binary"@],
        ),
        Arch::Riscv32 => (
            "riscv64-linux-gnu-gcc-11"@,
            seq![
                "-march=rv32i"@, "-mabi=ilp32"@, "-c"@, path, "-o"@, "tmp.o"@, "-O0"@,
                "-mlittle-endian"@, "-Xlinker"@, "--oformat-binary"@,
            ],
        ),
        Arch::Riscv64 => (
            "/usr/bin/riscv64-linux-gnu-gcc-11"@,
            seq!["-c"@, path, "-o"@, "tmp.o"@, "-O0"@, "-Xlinker"@, "--oformat-binary"@],
        ),
    }
}

/// The compiler command that assembles the source at `path` for `a`.
pub fn assembler_invocation(a: Arch, path: &str) -> (r: Invocation)
    ensures
        invokes(r, assembler_spec(a, path@).0, assembler_spec(a, path@).1),
{
    match a {
        Arch::X86 => {
            let args = [
                "-m32", "-c", path, "-o", "tmp.o", "-O0", "-Xlinker", "--oformat-binary",
            ];
            proof {
                assert(views(args@) =~= seq![
                    "-m32"@, "-c"@, path@, "-o"@, "tmp.o"@, "-O0"@, "-Xlinker"@,
                    "--oformat-binary"@,
                ]);
            }
            invocation("gcc", &args)
        },
        Arch::X64 => {
            let args = [
                "-m64", "-c", path, "-o", "tmp.o", "-O0", "-Xlinker", "--oformat-binary",
            ];
            proof {
                assert(views(args@) =~= seq![
                    "-m64"@, "-c"@, path@, "-o"@, "tmp.o"@, "-O0"@, "-Xlinker"@,
                    "--oformat-binary"@,
                ]);
            }
            invocation("gcc", &args)
        },
        Arch::Ppc32 => {
            let args = [
                "-c", path, "-o", "tmp.o", "-O0", "-mlittle-endian", "-Xlinker", "--oformat-binary",
            ];
            proof {
                assert(views(args@) =~= seq![
                    "-c"@, path@, "-o"@, "tmp.o"@, "-O0"@, "-mlittle-endian"@, "-Xlinker"@,
                    "--oformat-binary"@,
                ]);
            }
            invocation("powerpc-linux-gnu-gcc", &args)
        },
        Arch::Ppc64 => {
            let args = [
                "-c", path, "-o", "tmp.o", "-O0", "-mlittle-endian", "-Xlinker", "--oformat-binary",
            ];
            proof {
                assert(views(args@) =~= seq![
                    "-c"@, path@, "-o"@, "tmp.o"@, "-O0"@, "-mlittle-endian"@, "-Xlinker"@,
                    "--oformat-binary"@,
                ]);
            }
            invocation("powerpc64-linux-gnu-gcc", &args)
        },
        Arch::Mips32 => {
            let args = [
                "-c", path, "-o", "tmp.o", "-O0", "-EL", "-Xlinker", "--oformat-binary",
            ];
            proof {
                assert(views(args@) =~= seq![
                    "-c"@, path@, "-o"@, "tmp.o"@, "-O0"@, "-EL"@, "-Xlinker"@, "--oformat-binary"@,
                ]);
            }
            invocation("/usr/bin/mips-linux-gnu-gcc-10", &args)
        },
        Arch::Mips64 => {
            let args = [
                "-c", path, "-o", "tmp.o", "-EL", "-O0", "-Xlinker", "--oformat-binary",
            ];
            proof {
                assert(views(args@) =~= seq![
                    "-c"@, path@, "-o"@, "tmp.o"@, "-EL"@, "-O0"@, "-Xlinker"@, "--oformat-binary"@,
                ]);
            }
            invocation("/usr/bin/mips64-linux-gnuabi64-gcc-11", &args)
        },
        Arch::Arm32 => {
            let args = [
                "-c", path, "-o", "tmp.o", "-O0", "-mlittle-endian", "-Xlinker", "--oformat-binary",
            ];
            proof {
                assert(views(args@) =~= seq![
                    "-c"@, path@, "-o"@, "tmp.o"@, "-O0"@, "-mlittle-endian"@, "-Xlinker"@,
                    "--oformat-binary"@,
                ]);
            }
            invocation("/usr/bin/arm-none-eabi-gcc", &args)
        },
        Arch::Arm64 => {
            let args = [
                "-c", path, "-o", "tmp.o", "-O0", "-mlittle-endian", "-Xlinker", "--oformat-binary",
            ];
            proof {
                assert(views(args@) =~= seq![
                    "-c"@, path@, "-o"@, "tmp.o"@, "-O0"@, "-mlittle-endian"@, "-Xlinker"@,
                    "--oformat-binary"@,
                ]);
            }
            invocation("/usr/bin/aarch64-linux-gnu-gcc", &args)
        },
        Arch::Sparc32 => {
            let args = [
                "-c", path, "-o", "tmp.o", "-O0", "-m32", "-Xlinker", "--oformat-binary",
            ];
            proof {
                assert(views(args@) =~= seq![
                    "-c"@, path@, "-o"@, "tmp.o"@, "-O0"@, "-m32"@, "-Xlinker"@,
                    "--oformat-binary"@,
                ]);
            }
            invocation("/usr/bin/sparc64-linux-gnu-gcc-11", &args)
        },
        Arch::Sparc64 => {
            let args = ["-c", path, "-o", "tmp.o", "-O0", "-Xlinker", "--oformat-binary"];
            proof {
                assert(views(args@) =~= seq![
                    "-c"@, path@, "-o"@, "tmp.o"@, "-O0"@, "-Xlinker"@, "--oformat-binary"@,
                ]);
            }
            invocation("/usr/bin/sparc64-linux-gnu-gcc-11", &args)
        },
        Arch::Avr => {
            let args = ["-c", path, "-o", "tmp.o", "-O0", "-Xlinker", "--oformat-binary"];
            proof {
                assert(views(args@) =~= seq![
                    "-c"@, path@, "-o"@, "tmp.o"@, "-O0"@, "-Xlinker"@, "--oformat-binary"@,
                ]);
            }
            invocation("/usr/bin/avr-gcc", &args)
        },
        Arch::Riscv32 => {
            let args = [
                "-march=rv32i", "-mabi=ilp32", "-c", path, "-o", "tmp.o", "-O0", "-mlittle-endian",
                "-Xlinker", "--oformat-binary",
            ];
            proof {
                assert(views(args@) =~= seq![
                    "-march=rv32i"@, "-mabi=ilp32"@, "-c"@, path@, "-o"@, "tmp.o"@, "-O0"@,
                    "-mlittle-endian"@, "-Xlinker"@, "--oformat-binary"@,
                ]);
            }
            invocation("riscv64-linux-gnu-gcc-11", &args)
        },
        Arch::Riscv64 => {
            let args = ["-c", path, "-o", "tmp.o", "-O0", "-Xlinker", "--oformat-binary"];
            proof {
                assert(views(args@) =~= seq![
                    "-c"@, path@, "-o"@, "tmp.o"@, "-O0"@, "-Xlinker"@, "--oformat-binary"@,
                ]);
            }
            invocation("/usr/bin/riscv64-linux-gnu-gcc-11", &args)
        },
    }
}

/// The objdump command that lists the instructions of `tmp.o` for `a`.
pub open spec fn objdump_spec(a: Arch) -> (Seq<char>, Seq<Seq<char>>) {
    match a {
        Arch::X86 => (
            "objdump"@,
            seq!["-z"@, "-d"@, "tmp.o"@],
        ),
        Arch::X64 => (
            "objdump"@,
            seq!["-z"@, "-d"@, "tmp.o"@],
        ),
        Arch::Ppc32 => (
            "/usr/bin/powerpc-linux-gnu-objdump"@,
            seq!["-z"@, "-d"@, "tmp.o"@],
        ),
        Arch::Ppc64 => (
            "/usr/bin/powerpc64-linux-gnu-objdump"@,
            seq!["-z"@, "-d"@, "tmp.o"@],
        ),
        Arch::Mips32 => (
            "/usr/bin/mips-linux-gnu-objdump"@,
            seq!["-z"@, "-d"@, "tmp.o"@],
        ),
        Arch::Mips64 => (
            "/usr/bin/mips64-linux-gnuabi64-objdump"@,
            seq!["-z"@, "-d"@, "tmp.o"@],
        ),
        Arch::Arm32 => (
            "/usr/bin/arm-none-eabi-objdump"@,
            seq!["-z"@, "-d"@, "tmp.o"@],
        ),
        Arch::Arm64 => (
            "/usr/bin/aarch64-linux-gnu-objdump"@,
            seq!["-z"@, "-d"@, "tmp.o"@],
        ),
        Arch::Sparc32 => (
            "/usr/bin/sparc64-linux-gnu-objdump"@,
            seq!["-z"@, "-d"@, "tmp.o"@],
        ),
        Arch::Sparc64 => (
            "/usr/bin/sparc64-linux-gnu-objdump"@,
            seq!["-z"@, "-d"@, "tmp.o"@],
        ),
        Arch::Avr => (
            "/usr/bin/avr-objdump"@,
            seq!["-z"@, "-d"@, "tmp.o"@],
        ),
        Arch::Riscv32 => (
            "riscv64-linux-gnu-objdump"@,
            seq!["-z"@, "-M"@, "no-aliases"@, "-d"@, "tmp.o"@],
        ),
        Arch::Riscv64 => (
            "/usr/bin/riscv64-linux-gnu-objdump"@,
            seq!["-z"@, "-EB"@, "-d"@, "tmp.o"@],
        ),
    }
}

/// The objdump command that lists the assembled instructions for `a`.
pub fn objdump_invocation(a: Arch) -> (r: Invocation)
    ensures
        invokes(r, objdump_spec(a).0, objdump_spec(a).1),
{
    match a {
        Arch::X86 => {
            let args = ["-z", "-d", "tmp.o"];
            proof {
                assert(views(args@) =~= seq!["-z"@, "-d"@, "tmp.o"@]);
            }
            invocation("objdump", &args)
        },
        Arch::X64 => {
            let args = ["-z", "-d", "tmp.o"];
            proof {
                assert(views(args@) =~= seq!["-z"@, "-d"@, "tmp.o"@]);
            }
            invocation("objdump", &args)
        },
        Arch::Ppc32 => {
            let args = ["-z", "-d", "tmp.o"];
            proof {
                assert(views(args@) =~= seq!["-z"@, "-d"@, "tmp.o"@]);
            }
            invocation("/usr/bin/powerpc-linux-gnu-objdump", &args)
        },
        Arch::Ppc64 => {
            let args = ["-z", "-d", "tmp.o"];
            proof {
                assert(views(args@) =~= seq!["-z"@, "-d"@, "tmp.o"@]);
            }
            invocation("/usr/bin/powerpc64-linux-gnu-objdump", &args)
        },
        Arch::Mips32 => {
            let args = ["-z", "-d", "tmp.o"];
            proof {
                assert(views(args@) =~= seq!["-z"@, "-d"@, "tmp.o"@]);
            }
            invocation("/usr/bin/mips-linux-gnu-objdump", &args)
        },
        Arch::Mips64 => {
            let args = ["-z", "-d", "tmp.o"];
            proof {
                assert(views(args@) =~= seq!["-z"@, "-d"@, "tmp.o"@]);
            }
            invocation("/usr/bin/mips64-linux-gnuabi64-objdump", &args)
        },
        Arch::Arm32 => {
            let args = ["-z", "-d", "tmp.o"];
            proof {
                assert(views(args@) =~= seq!["-z"@, "-d"@, "tmp.o"@]);
            }
            invocation("/usr/bin/arm-none-eabi-objdump", &args)
        },
        Arch::Arm64 => {
            let args = ["-z", "-d", "tmp.o"];
            proof {
                assert(views(args@) =~= seq!["-z"@, "-d"@, "tmp.o"@]);
            }
            invocation("/usr/bin/aarch64-linux-gnu-objdump", &args)
        },
        Arch::Sparc32 => {
            let args = ["-z", "-d", "tmp.o"];
            proof {
                assert(views(args@) =~= seq!["-z"@, "-d"@, "tmp.o"@]);
            }
            invocation("/usr/bin/sparc64-linux-gnu-objdump", &args)
        },
        Arch::Sparc64 => {
            let args = ["-z", "-d", "tmp.o"];
            proof {
                assert(views(args@) =~= seq!["-z"@, "-d"@, "tmp.o"@]);
            }
            invocation("/usr/bin/sparc64-linux-gnu-objdump", &args)
        },
        Arch::Avr => {
            let args = ["-z", "-d", "tmp.o"];
            proof {
                assert(views(args@) =~= seq!["-z"@, "-d"@, "tmp.o"@]);
            }
            invocation("/usr/bin/avr-objdump", &args)
        },
        Arch::Riscv32 => {
            let args = ["-z", "-M", "no-aliases", "-d", "tmp.o"];
            proof {
                assert(views(args@) =~= seq!["-z"@, "-M"@, "no-aliases"@, "-d"@, "tmp.o"@]);
            }
            invocation("riscv64-linux-gnu-objdump", &args)
        },
        Arch::Riscv64 => {
            let args = ["-z", "-EB", "-d", "tmp.o"];
            proof {
                assert(views(args@) =~= seq!["-z"@, "-EB"@, "-d"@, "tmp.o"@]);
            }
            invocation("/usr/bin/riscv64-linux-gnu-objdump", &args)
        },
    }
}

/// The objdump command that disassembles the object at `path` for `a`.
pub open spec fn disassembler_spec(a: Arch, path: Seq<char>) -> (Seq<char>, Seq<Seq<char>>) {
    match a {
        Arch::X86 => (
            "objdump"@,
            seq!["-z"@, "-b"@, "binary"@, "-m"@, "i386"@, "--no-show-raw-insn"@, "-D"@, path],
        ),
        Arch::X64 => (
            "objdump"@,
            seq![
                "-z"@, "-b"@, "binary"@, "-m"@, "i386:x86-64"@, "--no-show-raw-insn"@, "-D"@, path,
            ],
        ),
        Arch::Ppc32 => (
            "/usr/bin/powerpc-linux-gnu-objdump"@,
            seq!["-z"@, "powerpc:common32"@, "--no-show-raw-insn"@, "-D"@, path],
        ),
        Arch::Ppc64 => (
            "/usr/bin/powerpc64-linux-gnu-objdump"@,
            seq!["-z"@, "powerpc:common64"@, "--no-show-raw-insn"@, "-D"@, path],
        ),
        Arch::Mips32 => (
            "/usr/bin/mips-linux-gnu-objdump"@,
            seq!["-z"@, "-mmips:isa32"@, "--no-show-raw-insn"@, "-EB"@, "-D"@, path],
        ),
        Arch::Mips64 => (
            "/usr/bin/mips64-linux-gnuabi64-objdump"@,
            seq![
                "-z"@, "-mmips:isa64"@, "-EB"@, "-mmips:isa64"@, "--no-show-raw-insn"@, "-D"@, path,
            ],
        ),
        Arch::Arm32 => (
            "/usr/bin/arm-none-eabi-objdump"@,
            seq!["-z"@, "--no-show-raw-insn"@, "-EB"@, "-D"@, path],
        ),
        Arch::Arm64 => (
            "/usr/bin/aarch64-linux-gnu-objdump"@,
            seq!["-z"@, "--no-show-raw-insn"@, "-EL"@, "-D"@, path],
        ),
        Arch::Sparc32 => (
            "/usr/bin/sparc64-linux-gnu-objdump"@,
            seq!["-z"@, "-EL"@, "--no-show-raw-insn"@, "-D"@, path],
        ),
        Arch::Sparc64 => (
            "/usr/bin/sparc64-linux-gnu-objdump"@,
            seq!["-z"@, "-EL"@, "--no-show-raw-insn"@, "-D"@, path],
        ),
        Arch::Avr => (
            "/usr/bin/avr-objdump"@,
            seq!["-z"@, "--no-show-raw-insn"@, "-D"@, path],
        ),
        Arch::Riscv32 => (
            "/usr/bin/riscv64-linux-gnu-objdump"@,
            seq!["-z"@, "-M"@, "no-aliases"@, "--no-show-raw-insn"@, "-D"@, path],
        ),
        Arch::Riscv64 => (
            "/usr/bin/riscv64-linux-gnu-objdump"@,
            seq!["-z"@, "-EL"@, "--no-show-raw-insn"@, "-D"@, path],
        ),
    }
}

/// The objdump command that disassembles the object at `path` (trimmed) for `a`.
pub fn disassembler_invocation(a: Arch, path: &str) -> (r: Invocation)
    ensures
        invokes(r, disassembler_spec(a, trimmed(path@)).0, disassembler_spec(a, trimmed(path@)).1),
{
    let p = trim(path);
    match a {
        Arch::X86 => {
            let args = ["-z", "-b", "binary", "-m", "i386", "--no-show-raw-insn", "-D", p];
            proof {
                assert(views(args@) =~= seq![
                    "-z"@, "-b"@, "binary"@, "-m"@, "i386"@, "--no-show-raw-insn"@, "-D"@, p@,
                ]);
            }
            invocation("objdump", &args)
        },
        Arch::X64 => {
            let args = [
                "-z", "-b", "binary", "-m", "i386:x86-64", "--no-show-raw-insn", "-D", p,
            ];
            proof {
                assert(views(args@) =~= seq![
                    "-z"@, "-b"@, "binary"@, "-m"@, "i386:x86-64"@, "--no-show-raw-insn"@, "-D"@,
                    p@,
                ]);
            }
            invocation("objdump", &args)
        },
        Arch::Ppc32 => {
            let args = ["-z", "powerpc:common32", "--no-show-raw-insn", "-D", p];
            proof {
                assert(views(args@) =~= seq![
                    "-z"@, "powerpc:common32"@, "--no-show-raw-insn"@, "-D"@, p@,
                ]);
            }
            invocation("/usr/bin/powerpc-linux-gnu-objdump", &args)
        },
        Arch::Ppc64 => {
            let args = ["-z", "powerpc:common64", "--no-show-raw-insn", "-D", p];
            proof {
                assert(views(args@) =~= seq![
                    "-z"@, "powerpc:common64"@, "--no-show-raw-insn"@, "-D"@, p@,
                ]);
            }
            invocation("/usr/bin/powerpc64-linux-gnu-objdump", &args)
        },
        Arch::Mips32 => {
            let args = ["-z", "-mmips:isa32", "--no-show-raw-insn", "-EB", "-D", p];
            proof {
                assert(views(args@) =~= seq![
                    "-z"@, "-mmips:isa32"@, "--no-show-raw-insn"@, "-EB"@, "-D"@, p@,
                ]);
            }
            invocation("/usr/bin/mips-linux-gnu-objdump", &args)
        },
        Arch::Mips64 => {
            let args = [
                "-z", "-mmips:isa64", "-EB", "-mmips:isa64", "--no-show-raw-insn", "-D", p,
            ];
            proof {
                assert(views(args@) =~= seq![
                    "-z"@, "-mmips:isa64"@, "-EB"@, "-mmips:isa64"@, "--no-show-raw-insn"@, "-D"@,
                    p@,
                ]);
            }
            invocation("/usr/bin/mips64-linux-gnuabi64-objdump", &args)
        },
        Arch::Arm32 => {
            let args = ["-z", "--no-show-raw-insn", "-EB", "-D", p];
            proof {
                assert(views(args@) =~= seq!["-z"@, "--no-show-raw-insn"@, "-EB"@, "-D"@, p@]);
            }
            invocation("/usr/bin/arm-none-eabi-objdump", &args)
        },
        Arch::Arm64 => {
            let args = ["-z", "--no-show-raw-insn", "-EL", "-D", p];
            proof {
                assert(views(args@) =~= seq!["-z"@, "--no-show-raw-insn"@, "-EL"@, "-D"@, p@]);
            }
            invocation("/usr/bin/aarch64-linux-gnu-objdump", &args)
        },
        Arch::Sparc32 => {
            let args = ["-z", "-EL", "--no-show-raw-insn", "-D", p];
            proof {
                assert(views(args@) =~= seq!["-z"@, "-EL"@, "--no-show-raw-insn"@, "-D"@, p@]);
            }
            invocation("/usr/bin/sparc64-linux-gnu-objdump", &args)
        },
        Arch::Sparc64 => {
            let args = ["-z", "-EL", "--no-show-raw-insn", "-D", p];
            proof {
                assert(views(args@) =~= seq!["-z"@, "-EL"@, "--no-show-raw-insn"@, "-D"@, p@]);
            }
            invocation("/usr/bin/sparc64-linux-gnu-objdump", &args)
        },
        Arch::Avr => {
            let args = ["-z", "--no-show-raw-insn", "-D", p];
            proof {
                assert(views(args@) =~= seq!["-z"@, "--no-show-raw-insn"@, "-D"@, p@]);
            }
            invocation("/usr/bin/avr-objdump", &args)
        },
        Arch::Riscv32 => {
            let args = ["-z", "-M", "no-aliases", "--no-show-raw-insn", "-D", p];
            proof {
                assert(views(args@) =~= seq![
                    "-z"@, "-M"@, "no-aliases"@, "--no-show-raw-insn"@, "-D"@, p@,
                ]);
            }
            invocation("/usr/bin/riscv64-linux-gnu-objdump", &args)
        },
        Arch::Riscv64 => {
            let args = ["-z", "-EL", "--no-show-raw-insn", "-D", p];
            proof {
                assert(views(args@) =~= seq!["-z"@, "-EL"@, "--no-show-raw-insn"@, "-D"@, p@]);
            }
            invocation("/usr/bin/riscv64-linux-gnu-objdump", &args)
        },
    }
}

/// The objcopy command that wraps the raw bytes at `path` into an object
/// file `inst.bin` for `a`; none for x86 and x64, whose objdump reads raw bytes.
pub open spec fn objcopy_spec(a: Arch, path: Seq<char>) -> Option<(Seq<char>, Seq<Seq<char>>)> {
    match a {
        Arch::X86 => None,
        Arch::X64 => None,
        Arch::Ppc32 => Some(
            (
                "powerpc-linux-gnu-objcopy"@,
                seq![
                    "-I"@, "binary"@, "-O"@, "elf32-powerpc"@, "--reverse-bytes=4"@, path,
                    "inst.bin"@,
                ],
            ),
        ),
        Arch::Ppc64 => Some(
            (
                "powerpc64-linux-gnu-objcopy"@,
                seq![
                    "-I"@, "binary"@, "-O"@, "elf64-powerpc"@, "--reverse-bytes=4"@, path,
                    "inst.bin"@,
                ],
            ),
        ),
        Arch::Mips32 => Some(
            (
                "mips-linux-gnu-objcopy"@,
                seq!["-I"@, "binary"@, "-O"@, "elf32-tradlittlemips"@, path, "inst.bin"@],
            ),
        ),
        Arch::Mips64 => Some(
            (
                "mips64-linux-gnuabi64-objcopy"@,
                seq!["-I"@, "binary"@, "-O"@, "elf64-tradlittlemips"@, path, "inst.bin"@],
            ),
        ),
        Arch::Arm32 => Some(
            (
                "arm-none-eabi-objcopy"@,
                seq![
                    "-I"@, "binary"@, "-O"@, "elf32-littlearm-fdpic"@, "--reverse-bytes=4"@, path,
                    "inst.bin"@,
                ],
            ),
        ),
        Arch::Arm64 => Some(
            (
                "aarch64-linux-gnu-objcopy"@,
                seq![
                    "-I"@, "binary"@, "-O"@, "elf64-littleaarch64"@, "--reverse-bytes=4"@, path,
                    "inst.bin"@,
                ],
            ),
        ),
        Arch::Sparc32 => Some(
            (
                "sparc64-linux-gnu-objcopy"@,
                seq![
                    "-I"@, "binary"@, "-O"@, "elf32-sparc"@, "--reverse-bytes=4"@, path,
                    "inst.bin"@,
                ],
            ),
        ),
        Arch::Sparc64 => Some(
            (
                "sparc64-linux-gnu-objcopy"@,
                seq![
                    "-I"@, "binary"@, "-O"@, "elf64-sparc"@, "--reverse-bytes=4"@, path,
                    "inst.bin"@,
                ],
            ),
        ),
        Arch::Avr => Some(
            (
                "avr-objcopy"@,
                seq!["-I"@, "binary"@, "-O"@, "elf32-avr"@, path, "inst.bin"@],
            ),
        ),
        Arch::Riscv32 => Some(
            (
                "riscv64-linux-gnu-objcopy"@,
                seq![
                    "-I"@, "binary"@, "-O"@, "elf32-littleriscv"@, "--reverse-bytes=4"@, path,
                    "inst.bin"@,
                ],
            ),
        ),
        Arch::Riscv64 => Some(
            (
                "riscv64-linux-gnu-objcopy"@,
                seq![
                    "-I"@, "binary"@, "-O"@, "elf64-littleriscv"@, "--reverse-bytes=4"@, path,
                    "inst.bin"@,
                ],
            ),
        ),
    }
}

/// The objcopy command for the raw bytes at `path` (see `objcopy_spec`).
pub fn objcopy_invocation(a: Arch, path: &str) -> (r: Option<Invocation>)
    ensures
        match r {
            Some(inv) => objcopy_spec(a, path@) matches Some(c) && invokes(inv, c.0, c.1),
            None => objcopy_spec(a, path@) is None,
        },
{
    match a {
        Arch::X86 => None,
        Arch::X64 => None,
        Arch::Ppc32 => {
            let args = [
                "-I", "binary", "-O", "elf32-powerpc", "--reverse-bytes=4", path, "inst.bin",
            ];
            proof {
                assert(views(args@) =~= seq![
                    "-I"@, "binary"@, "-O"@, "elf32-powerpc"@, "--reverse-bytes=4"@, path@,
                    "inst.bin"@,
                ]);
            }
            Some(invocation("powerpc-linux-gnu-objcopy", &args))
        },
        Arch::Ppc64 => {
            let args = [
                "-I", "binary", "-O", "elf64-powerpc", "--reverse-bytes=4", path, "inst.bin",
            ];
            proof {
                assert(views(args@) =~= seq![
                    "-I"@, "binary"@, "-O"@, "elf64-powerpc"@, "--reverse-bytes=4"@, path@,
                    "inst.bin"@,
                ]);
            }
            Some(invocation("powerpc64-linux-gnu-objcopy", &args))
        },
        Arch::Mips32 => {
            let args = ["-I", "binary", "-O", "elf32-tradlittlemips", path, "inst.bin"];
            proof {
                assert(views(args@) =~= seq![
                    "-I"@, "binary"@, "-O"@, "elf32-tradlittlemips"@, path@, "inst.bin"@,
                ]);
            }
            Some(invocation("mips-linux-gnu-objcopy", &args))
        },
        Arch::Mips64 => {
            let args = ["-I", "binary", "-O", "elf64-tradlittlemips", path, "inst.bin"];
            proof {
                assert(views(args@) =~= seq![
                    "-I"@, "binary"@, "-O"@, "elf64-tradlittlemips"@, path@, "inst.bin"@,
                ]);
            }
            Some(invocation("mips64-linux-gnuabi64-objcopy", &args))
        },
        Arch::Arm32 => {
            let args = [
                "-I", "binary", "-O", "elf32-littlearm-fdpic", "--reverse-bytes=4", path,
                "inst.bin",
            ];
            proof {
                assert(views(args@) =~= seq![
                    "-I"@, "binary"@, "-O"@, "elf32-littlearm-fdpic"@, "--reverse-bytes=4"@, path@,
                    "inst.bin"@,
                ]);
            }
            Some(invocation("arm-none-eabi-objcopy", &args))
        },
        Arch::Arm64 => {
            let args = [
                "-I", "binary", "-O", "elf64-littleaarch64", "--reverse-bytes=4", path, "inst.bin",
            ];
            proof {
                assert(views(args@) =~= seq![
                    "-I"@, "binary"@, "-O"@, "elf64-littleaarch64"@, "--reverse-bytes=4"@, path@,
                    "inst.bin"@,
                ]);
            }
            Some(invocation("aarch64-linux-gnu-objcopy", &args))
        },
        Arch::Sparc32 => {
            let args = [
                "-I", "binary", "-O", "elf32-sparc", "--reverse-bytes=4", path, "inst.bin",
            ];
            proof {
                assert(views(args@) =~= seq![
                    "-I"@, "binary"@, "-O"@, "elf32-sparc"@, "--reverse-bytes=4"@, path@,
                    "inst.bin"@,
                ]);
            }
            Some(invocation("sparc64-linux-gnu-objcopy", &args))
        },
        Arch::Sparc64 => {
            let args = [
                "-I", "binary", "-O", "elf64-sparc", "--reverse-bytes=4", path, "inst.bin",
            ];
            proof {
                assert(views(args@) =~= seq![
                    "-I"@, "binary"@, "-O"@, "elf64-sparc"@, "--reverse-bytes=4"@, path@,
                    "inst.bin"@,
                ]);
            }
            Some(invocation("sparc64-linux-gnu-objcopy", &args))
        },
        Arch::Avr => {
            let args = ["-I", "binary", "-O", "elf32-avr", path, "inst.bin"];
            proof {
                assert(views(args@) =~= seq![
                    "-I"@, "binary"@, "-O"@, "elf32-avr"@, path@, "inst.bin"@,
                ]);
            }
            Some(invocation("avr-objcopy", &args))
        },
        Arch::Riscv32 => {
            let args = [
                "-I", "binary", "-O", "elf32-littleriscv", "--reverse-bytes=4", path, "inst.bin",
            ];
            proof {
                assert(views(args@) =~= seq![
                    "-I"@, "binary"@, "-O"@, "elf32-littleriscv"@, "--reverse-bytes=4"@, path@,
                    "inst.bin"@,
                ]);
            }
            Some(invocation("riscv64-linux-gnu-objcopy", &args))
        },
        Arch::Riscv64 => {
            let args = [
                "-I", "binary", "-O", "elf64-littleriscv", "--reverse-bytes=4", path, "inst.bin",
            ];
            proof {
                assert(views(args@) =~= seq![
                    "-I"@, "binary"@, "-O"@, "elf64-littleriscv"@, "--reverse-bytes=4"@, path@,
                    "inst.bin"@,
                ]);
            }
            Some(invocation("riscv64-linux-gnu-objcopy", &args))
        },
    }
}

/// The object file the disassembler reads for `a`: the raw bytes themselves
/// (`inst.o`) for x86 and x64; for the others `inst.bin`, made by objcopy,
/// or `isa error` when objcopy could not be started.
pub open spec fn converted_path_spec(a: Arch, objcopy_started: bool) -> Seq<char> {
    if objcopy_spec(a, Seq::empty()) is None {
        "inst.o"@
    } else if objcopy_started {
        "inst.bin"@
    } else {
        "isa error"@
    }
}

/// The object file the disassembler reads for `a` (see `converted_path_spec`).
pub fn convert_bin(a: Arch, objcopy_started: bool) -> (r: String)
    ensures
        r@ == converted_path_spec(a, objcopy_started),
{
    match a {
        Arch::X86 | Arch::X64 => "inst.o".to_owned(),
        _ => if objcopy_started {
            "inst.bin".to_owned()
        } else {
            "isa error".to_owned()
        },
    }
}


/// x86 and x64 share their tools and differ only in word size: the same
/// compiler command but for `-m32` against `-m64` in front, and the same
/// objdump command but for the machine `i386` against `i386:x86-64`.
pub proof fn lemma_x86_x64_word_size(p: Seq<char>)
    ensures
        assembler_spec(Arch::X86, p).0 == assembler_spec(Arch::X64, p).0,
        assembler_spec(Arch::X86, p).1[0] == "-m32"@,
        assembler_spec(Arch::X64, p).1[0] == "-m64"@,
        assembler_spec(Arch::X86, p).1.drop_first() == assembler_spec(Arch::X64, p).1.drop_first(),
        assembler_spec(Arch::X86, p) != assembler_spec(Arch::X64, p),
        disassembler_spec(Arch::X86, p).0 == disassembler_spec(Arch::X64, p).0,
        disassembler_spec(Arch::X86, p).1[3] == "-m"@,
        disassembler_spec(Arch::X86, p).1[4] == "i386"@,
        disassembler_spec(Arch::X64, p).1[4] == "i386:x86-64"@,
        disassembler_spec(Arch::X86, p).1.len() == disassembler_spec(Arch::X64, p).1.len(),
        forall|k: int|
            0 <= k < disassembler_spec(Arch::X86, p).1.len() && k != 4 ==> disassembler_spec(
                Arch::X86,
                p,
            ).1[k] == disassembler_spec(Arch::X64, p).1[k],
        disassembler_spec(Arch::X86, p) != disassembler_spec(Arch::X64, p),
{
    reveal_strlit("-m32");
    reveal_strlit("-m64");
    reveal_strlit("i386");
    reveal_strlit("i386:x86-64");
    assert(assembler_spec(Arch::X86, p).1.drop_first() =~= assembler_spec(Arch::X64, p).1.drop_first());
    assert("-m32"@[2] != "-m64"@[2]);
    assert(assembler_spec(Arch::X86, p).1[0] != assembler_spec(Arch::X64, p).1[0]);
    assert(disassembler_spec(Arch::X86, p).1[4].len() != disassembler_spec(Arch::X64, p).1[4].len());
}

/// Every disassembly command ends by naming the object to read: `-D` and then
/// the (trimmed) path.
pub proof fn lemma_disassembler_reads_path(a: Arch, p: Seq<char>)
    ensures
        disassembler_spec(a, p).1.len() >= 2,
        disassembler_spec(a, p).1.last() == p,
        disassembler_spec(a, p).1[disassembler_spec(a, p).1.len() - 2] == "-D"@,
{
}

/// Every objcopy command reads the raw bytes at the path and writes
/// `inst.bin`, and there is one exactly for the architectures other than x86
/// and x64.
pub proof fn lemma_objcopy_writes_inst_bin(a: Arch, p: Seq<char>)
    ensures
        objcopy_spec(a, p) is None <==> (a == Arch::X86 || a == Arch::X64),
        objcopy_spec(a, p) matches Some(c) ==> c.1.len() >= 2 && c.1[c.1.len() - 2] == p
            && c.1.last() == "inst.bin"@,
{
}

} // verus!
