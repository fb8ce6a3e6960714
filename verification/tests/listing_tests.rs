use asmb::listing::{format_output, instruction_of, listing_ok};

const LISTING: &str = "\ninst.o:     file format binary\n\n\nDisassembly of section .data:\n\n00000000 <.data>:\n   0:\tpush   %ebp\n   1:\tmov    %esp,%ebp\n";

#[test]
fn instruction_after_colon() {
    assert_eq!(instruction_of("   0:\tpush   %ebp"), Some("\tpush   %ebp"));
    assert_eq!(instruction_of("no colon"), None);
    assert_eq!(instruction_of("a:"), Some(""));
    // the colon position is counted in characters and used as a byte offset
    assert_eq!(instruction_of("éa:bc"), Some(":bc"));
    assert_eq!(instruction_of("éé:x"), None);
    assert_eq!(instruction_of("ééé:x"), Some("é:x"));
}

#[test]
fn reads_a_listing() {
    assert!(listing_ok(LISTING.as_bytes()));
    let l = format_output(LISTING.as_bytes()).unwrap();
    assert_eq!(l.instructions, vec!["\tpush   %ebp", "\tmov    %esp,%ebp"]);
    assert!(l.complete);
}

#[test]
fn listing_stops_at_line_without_colon() {
    let text = "1\n2\n3\n4\n5\n6\n7\n a:x\n b y\n c:z\n";
    let l = format_output(text.as_bytes()).unwrap();
    assert_eq!(l.instructions, vec!["x"]);
    assert!(!l.complete);
}

#[test]
fn non_utf8_output() {
    let bytes = [0xffu8, 0xfe, b'\n'];
    assert!(listing_ok(&bytes));
    assert!(format_output(&bytes).is_none());
}

#[test]
fn short_listing_is_not_readable() {
    assert!(!listing_ok(b"a\nb\nc"));
    assert!(listing_ok(b"1\n2\n3\n4\n5\n6\n7"));
    let l = format_output(b"1\n2\n3\n4\n5\n6\n7").unwrap();
    assert!(l.instructions.is_empty());
    assert!(l.complete);
}
