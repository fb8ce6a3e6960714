use asmb::toolchain::{
    assembler_invocation, convert_bin, disassembler_invocation, objcopy_invocation,
    objdump_invocation, parse_asm_arch, parse_disasm_arch, Arch, Invocation,
};

const ALL: [(&str, Arch); 13] = [
    ("x86", Arch::X86),
    ("x64", Arch::X64),
    ("ppc32", Arch::Ppc32),
    ("ppc64", Arch::Ppc64),
    ("mips32", Arch::Mips32),
    ("mips64", Arch::Mips64),
    ("arm32", Arch::Arm32),
    ("arm64", Arch::Arm64),
    ("sparc32", Arch::Sparc32),
    ("sparc64", Arch::Sparc64),
    ("avr", Arch::Avr),
    ("riscv32", Arch::Riscv32),
    ("riscv64", Arch::Riscv64),
];

fn cmd(inv: &Invocation) -> Vec<String> {
    let mut v = vec![inv.program.clone()];
    v.extend(inv.args.iter().cloned());
    v
}

#[test]
fn every_arch_is_found_by_its_name() {
    for (name, a) in ALL {
        assert_eq!(parse_asm_arch(name), Some(a));
        assert_eq!(parse_disasm_arch(name), Some(a));
        assert_eq!(parse_disasm_arch(&name.to_uppercase()), Some(a));
    }
}

#[test]
fn arch_names_are_trimmed() {
    assert_eq!(parse_asm_arch("  x86\n"), Some(Arch::X86));
    assert_eq!(parse_asm_arch("X86"), None);
    assert_eq!(parse_asm_arch("x87"), None);
    assert_eq!(parse_disasm_arch(" ArM64 "), Some(Arch::Arm64));
    assert_eq!(parse_disasm_arch("sparc"), None);
}

#[test]
fn assembler_commands() {
    assert_eq!(
        cmd(&assembler_invocation(Arch::X86, "f.s")),
        vec!["gcc", "-m32", "-c", "f.s", "-o", "tmp.o", "-O0", "-Xlinker", "--oformat-binary"]
    );
    assert_eq!(
        cmd(&assembler_invocation(Arch::Riscv32, "f.s")),
        vec![
            "riscv64-linux-gnu-gcc-11", "-march=rv32i", "-mabi=ilp32", "-c", "f.s", "-o", "tmp.o",
            "-O0", "-mlittle-endian", "-Xlinker", "--oformat-binary"
        ]
    );
    assert_eq!(
        cmd(&assembler_invocation(Arch::Mips64, "f.s")),
        vec![
            "/usr/bin/mips64-linux-gnuabi64-gcc-11", "-c", "f.s", "-o", "tmp.o", "-EL", "-O0",
            "-Xlinker", "--oformat-binary"
        ]
    );
}

#[test]
fn objdump_commands() {
    assert_eq!(cmd(&objdump_invocation(Arch::X64)), vec!["objdump", "-z", "-d", "tmp.o"]);
    assert_eq!(
        cmd(&objdump_invocation(Arch::Riscv32)),
        vec!["riscv64-linux-gnu-objdump", "-z", "-M", "no-aliases", "-d", "tmp.o"]
    );
    assert_eq!(
        cmd(&objdump_invocation(Arch::Riscv64)),
        vec!["/usr/bin/riscv64-linux-gnu-objdump", "-z", "-EB", "-d", "tmp.o"]
    );
    assert_eq!(
        cmd(&objdump_invocation(Arch::Sparc64)),
        cmd(&objdump_invocation(Arch::Sparc32))
    );
}

#[test]
fn disassembler_commands() {
    assert_eq!(
        cmd(&disassembler_invocation(Arch::X64, " inst.o ")),
        vec!["objdump", "-z", "-b", "binary", "-m", "i386:x86-64", "--no-show-raw-insn", "-D", "inst.o"]
    );
    assert_eq!(
        cmd(&disassembler_invocation(Arch::Mips64, "inst.bin")),
        vec![
            "/usr/bin/mips64-linux-gnuabi64-objdump", "-z", "-mmips:isa64", "-EB", "-mmips:isa64",
            "--no-show-raw-insn", "-D", "inst.bin"
        ]
    );
}

#[test]
fn objcopy_commands() {
    assert!(objcopy_invocation(Arch::X86, "inst.o").is_none());
    assert!(objcopy_invocation(Arch::X64, "inst.o").is_none());
    assert_eq!(
        cmd(&objcopy_invocation(Arch::Avr, "inst.o").unwrap()),
        vec!["avr-objcopy", "-I", "binary", "-O", "elf32-avr", "inst.o", "inst.bin"]
    );
    assert_eq!(
        cmd(&objcopy_invocation(Arch::Arm32, "inst.o").unwrap()),
        vec![
            "arm-none-eabi-objcopy", "-I", "binary", "-O", "elf32-littlearm-fdpic",
            "--reverse-bytes=4", "inst.o", "inst.bin"
        ]
    );
}

#[test]
fn converted_paths() {
    assert_eq!(convert_bin(Arch::X86, false), "inst.o");
    assert_eq!(convert_bin(Arch::X64, true), "inst.o");
    assert_eq!(convert_bin(Arch::Ppc32, true), "inst.bin");
    assert_eq!(convert_bin(Arch::Ppc32, false), "isa error");
}
