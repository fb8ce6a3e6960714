use asmb::shellcode::{
    collect_fields, dump_body_lines, dump_shellcode_ok, escape_hex_pairs, output_path,
    pairs_aligned_exec, parsedumptruck, tab_field,
};

const DUMP: &str = "\ntmp.o:     file format elf64-x86-64\n\n\nDisassembly of section .text:\n\n0000000000000000 <.text>:\n   0:\t55                   \tpush   %rbp\n   1:\t48 89 e5             \tmov    %rsp,%rbp\n";

#[test]
fn body_lines_skip_header_and_last() {
    assert_eq!(
        dump_body_lines(DUMP),
        Some(vec![
            "   0:\t55                   \tpush   %rbp",
            "   1:\t48 89 e5             \tmov    %rsp,%rbp"
        ])
    );
    assert_eq!(dump_body_lines("a\nb\nc\nd\ne\nf"), None);
    assert_eq!(dump_body_lines("a\nb\nc\nd\ne\nf\ng"), Some(vec![]));
    assert_eq!(dump_body_lines("a\nb\nc\nd\ne\nf\ng\nh"), Some(vec![]));
}

#[test]
fn tab_field_is_the_byte_column() {
    assert_eq!(tab_field("   0:\t55   \tpush"), Some("55   "));
    assert_eq!(tab_field("   0:\t55"), Some("55"));
    assert_eq!(tab_field("no tab"), None);
    assert_eq!(collect_fields(&vec!["a\t12 \tx", "b\t34"]), Some("12 34".to_string()));
    assert_eq!(collect_fields(&vec!["a\t12", "b"]), None);
}

#[test]
fn escape_puts_marker_before_pairs() {
    assert_eq!(escape_hex_pairs("554889e5"), "\\x55\\x48\\x89\\xe5");
    assert_eq!(escape_hex_pairs("abc"), "\\xab\\xc");
    assert_eq!(escape_hex_pairs(""), "");
    // a two-byte character at an even offset takes a marker of its own
    assert_eq!(escape_hex_pairs("é1"), "\\xé\\x1");
}

#[test]
fn escape_ascii_length() {
    for s in ["", "a", "ab", "abc", "abcd", "abcde"] {
        let e = escape_hex_pairs(s);
        assert_eq!(e.len(), s.len() + 2 * ((s.len() + 1) / 2));
        assert_eq!(e.replace("\\x", ""), s);
    }
}

#[test]
fn alignment_check() {
    assert!(pairs_aligned_exec("abc"));
    assert!(pairs_aligned_exec("éa"));
    assert!(!pairs_aligned_exec("aé"));
    assert!(!pairs_aligned_exec("€"));
}

#[test]
fn shellcode_of_listing() {
    assert!(dump_shellcode_ok(DUMP));
    assert_eq!(parsedumptruck(DUMP), Some("\\x55\\x48\\x89\\xe5".to_string()));
    assert_eq!(parsedumptruck("too\nshort"), None);
}

#[test]
fn shellcode_needs_tabs() {
    let bad = "1\n2\n3\n4\n5\n6\n7\nno tab here\n";
    assert!(!dump_shellcode_ok(bad));
    assert!(dump_shellcode_ok("too\nshort"));
}

#[test]
fn output_path_replaces_extension() {
    assert_eq!(output_path("prog.s"), "prog-out.txt");
    assert_eq!(output_path("dir/x.s"), "dir/x-out.txt");
    assert_eq!(output_path("a"), "-out.txt");
    assert_eq!(output_path(""), "-out.txt");
}
