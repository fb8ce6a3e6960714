use asmb::directives::{
    check_dot_cmd, check_safe_dir, directive_refused, dot_cmds_defined, find_dot_cmd,
    safe_directive,
};

#[test]
fn dot_cmd_picks_the_directive() {
    assert_eq!(check_dot_cmd("  .byte 1"), ".byte");
    assert_eq!(check_dot_cmd(".globl main"), ".globl");
    assert_eq!(check_dot_cmd("a.b.c d"), ".c");
    assert_eq!(check_dot_cmd("x. y"), ".");
}

#[test]
fn dot_cmd_whole_line_without_directive() {
    assert_eq!(check_dot_cmd("mov eax, 1"), "mov eax, 1");
    assert_eq!(check_dot_cmd(".text"), ".text");
    assert_eq!(check_dot_cmd(""), "");
}

#[test]
fn dot_cmd_slices_by_byte_offsets() {
    // the positions are character counts used as byte offsets
    assert_eq!(check_dot_cmd("é .x y"), " .");
}

#[test]
fn dot_cmd_undefined_where_the_slice_fails() {
    // a `.` after the start with no space after it: the slice would run backwards
    assert_eq!(find_dot_cmd("\t.text"), None);
    assert_eq!(find_dot_cmd("  .byte"), None);
    // an offset inside a character
    assert_eq!(find_dot_cmd("é.a b"), None);
    // byte offsets 2..4 hold the second `é`
    assert_eq!(find_dot_cmd("éé.a b"), Some("é"));
    assert_eq!(find_dot_cmd(" .a b"), Some(".a"));
}

#[test]
fn safe_directive_list() {
    for d in [".ascii", ".asciz", ".align", ".balign", ".byte", ".int", ".double", ".quad", ".octa", ".word", "."] {
        assert!(safe_directive(d));
    }
    assert!(!safe_directive(".globl"));
    assert!(!safe_directive("byte"));
}

#[test]
fn refused_lines() {
    assert!(directive_refused(".globl main"));
    assert!(!directive_refused(".byte 1"));
    assert!(!directive_refused("nop"));
    assert!(directive_refused(".text"));
}

#[test]
fn safe_dir_accepts_data_directives() {
    assert!(check_safe_dir(vec![".byte 1", "nop", ".word 2"]));
    assert!(check_safe_dir(vec![]));
}

#[test]
fn safe_dir_refuses_unknown_directive() {
    assert!(!check_safe_dir(vec!["nop", ".globl main"]));
    assert!(!check_safe_dir(vec![".globl main", ".byte 3"]));
}

#[test]
fn safe_dir_later_plain_line_does_not_excuse() {
    assert!(!check_safe_dir(vec![".globl main", "ret"]));
    assert!(!check_safe_dir(vec![".text", ""]));
    assert!(check_safe_dir(vec![".byte 1", ""]));
}

#[test]
fn dot_cmd_twice_changes_nothing() {
    for line in ["  .byte 1", ".globl main", "a.b.c d", "x. y", "mov eax, 1", ".text", ""] {
        let d = check_dot_cmd(line);
        assert_eq!(check_dot_cmd(d), d);
        assert!(d == line || (d.starts_with('.') && !d[1..].contains('.') && !d.contains(' ')));
    }
}

#[test]
fn dot_cmds_defined_flags_bad_lines() {
    assert!(dot_cmds_defined(&vec!["nop", ".byte 1"]));
    assert!(!dot_cmds_defined(&vec!["nop", "\t.text"]));
}
