//! Screening of assembly sources: every directive a source uses must be one
//! of a few data directives before the source goes to the assembler.

use vstd::prelude::*;
use vstd::string::StrSliceExecFns;
use crate::text::{
    lemma_ascii_byte_offsets, lemma_char_index_of_byte, lemma_first_index_of_found, utf8_width,
    byte_offset, char_index_at_byte, char_index_of_byte, first_index_of, lemma_byte_offset_grows,
    lemma_first_index_of, same_text, contains_char, views,
};

verus! {

/// Index of the last `c` in `s` before index `end`.
pub open spec fn last_index_before(s: Seq<char>, c: char, end: int) -> Option<int>
    decreases end,
{
    if end <= 0 {
        None
    } else if s[end - 1] == c {
        Some(end - 1)
    } else {
        last_index_before(s, c, end - 1)
    }
}

/// Index of the first `c` in `s` at or after index `from`.
pub open spec fn first_index_from(s: Seq<char>, c: char, from: int) -> Option<int> {
    match first_index_of(s.subrange(from, s.len() as int), c) {
        Some(i) => Some(i + from),
        None => None,
    }
}

/// Where a directive ends: the first space after the first `.` of the line.
pub open spec fn directive_end(line: Seq<char>) -> Option<int> {
    match first_index_of(line, '.') {
        Some(d) => first_index_from(line, ' ', d + 1),
        None => None,
    }
}

/// The pair `(s, e)` of character positions that the scan of a line yields:
/// `e` is `directive_end` (0 when there is none) and `s` is the last `.`
/// before it (before the end of the line when there is no `e`; 0 when
/// there is no `.`).
pub open spec fn directive_bounds(line: Seq<char>) -> (int, int) {
    match directive_end(line) {
        Some(e) => (
            match last_index_before(line, '.', e) {
                Some(s) => s,
                None => 0,
            },
            e,
        ),
        None => (
            match last_index_before(line, '.', line.len() as int) {
                Some(s) => s,
                None => 0,
            },
            0,
        ),
    }
}

/// What `check_dot_cmd` gives for `line`: the whole line when both positions
/// are 0, else the text between the byte offsets `s` and `e` (the positions
/// are character counts used as byte offsets). `None` where that slice does
/// not exist (`s > e`, or an offset inside a character): there the scan
/// panics.
pub open spec fn dot_cmd(line: Seq<char>) -> Option<Seq<char>> {
    let (s, e) = directive_bounds(line);
    if s == 0 && e == 0 {
        Some(line)
    } else if s <= e && char_index_of_byte(line, s) is Some && char_index_of_byte(line, e) is Some {
        Some(line.subrange(char_index_of_byte(line, s).unwrap(), char_index_of_byte(line, e).unwrap()))
    } else {
        None
    }
}

/// Scans `line` for its directive bounds.
fn scan_directive_bounds(line: &str) -> (r: (usize, usize))
    ensures
        r.0 as int == directive_bounds(line@).0,
        r.1 as int == directive_bounds(line@).1,
{
    let n = line.unicode_len();
    let mut s: usize = 0;
    let mut e: usize = 0;
    let mut start_flag = false;
    let ghost mut d: int = 0;
    let mut pos: usize = 0;
    while pos < n
        invariant
            n == line@.len(),
            pos <= n,
            e == 0,
            start_flag == last_index_before(line@, '.', pos as int) is Some,
            s as int == match last_index_before(line@, '.', pos as int) {
                Some(x) => x,
                None => 0,
            },
            start_flag ==> first_index_of(line@, '.') == Some(d) && 0 <= d < pos && forall|k: int|
                d < k < pos ==> line@[k] != ' ',
            !start_flag ==> forall|k: int| 0 <= k < pos ==> line@[k] != '.',
        decreases n - pos,
    {
        let ele = line.get_char(pos);
        if ele == ' ' && start_flag {
            proof {
                let t = line@.subrange(d + 1, n as int);
                assert forall|k: int| 0 <= k < pos - d - 1 implies t[k] != ' ' by {
                    assert(t[k] == line@[k + d + 1]);
                }
                lemma_first_index_of(t, ' ', pos - d - 1);
                assert(directive_end(line@) == Some(pos as int));
            }
            return (s, pos);
        }
        if ele == '.' {
            proof {
                if !start_flag {
                    lemma_first_index_of(line@, '.', pos as int);
                    d = pos as int;
                }
            }
            s = pos;
            start_flag = true;
        } else {
            proof {
                if !start_flag {
                    assert(last_index_before(line@, '.', pos as int) is None);
                }
            }
        }
        pos = pos + 1;
    }
    proof {
        if start_flag {
            let t = line@.subrange(d + 1, n as int);
            assert forall|k: int| 0 <= k < t.len() implies t[k] != ' ' by {
                assert(t[k] == line@[k + d + 1]);
            }
            lemma_first_index_of(t, ' ', t.len() as int);
        } else {
            lemma_first_index_of(line@, '.', n as int);
        }
    }
    (s, e)
}

/// The directive of `line` as `check_dot_cmd` finds it, or `None` on the
/// lines where `check_dot_cmd` cannot slice the line.
pub fn find_dot_cmd<'a>(line: &'a str) -> (r: Option<&'a str>)
    ensures
        match r {
            Some(d) => dot_cmd(line@) == Some(d@),
            None => dot_cmd(line@) is None,
        },
{
    let (s, e) = scan_directive_bounds(line);
    if s == 0 && e == 0 {
        return Some(line);
    }
    if s > e {
        return None;
    }
    match (char_index_at_byte(line, s), char_index_at_byte(line, e)) {
        (Some(p), Some(q)) => {
            proof {
                let ch = line@;
                let pp = choose|j: int| 0 <= j <= ch.len() && byte_offset(ch, j) == s;
                let qq = choose|j: int| 0 <= j <= ch.len() && byte_offset(ch, j) == e;
                if pp > qq {
                    lemma_byte_offset_grows(ch, qq, pp);
                }
            }
            Some(line.substring_char(p, q))
        },
        _ => None,
    }
}

/// Picks out the directive of an assembly line: from the last `.` before the
/// first space that follows a `.`, up to that space; the whole line when the
/// line has no such directive.
pub fn check_dot_cmd<'a>(line: &'a str) -> (r: &'a str)
    requires
        dot_cmd(line@) is Some,
    ensures
        r@ == dot_cmd(line@).unwrap(),
{
    match find_dot_cmd(line) {
        Some(d) => d,
        None => line,
    }
}


/// The directives a source may use.
pub open spec fn is_safe_directive(d: Seq<char>) -> bool {
    d == ".ascii"@ || d == ".asciz"@ || d == ".align"@ || d == ".balign"@ || d == ".byte"@ || d
        == ".int"@ || d == ".double"@ || d == ".quad"@ || d == ".octa"@ || d == ".word"@ || d
        == "."@
}

/// A line is refused when its directive holds a `.` and is not a safe one.
pub open spec fn line_refused(line: Seq<char>) -> bool {
    let d = dot_cmd(line).unwrap();
    d.contains('.') && !is_safe_directive(d)
}

/// A source passes when none of its lines is refused.
pub open spec fn all_directives_safe(lines: Seq<Seq<char>>) -> bool {
    forall|i: int| 0 <= i < lines.len() ==> !line_refused(#[trigger] lines[i])
}

/// Every line can be scanned for its directive.
pub open spec fn all_dot_cmds_defined(lines: Seq<Seq<char>>) -> bool {
    forall|i: int| 0 <= i < lines.len() ==> (#[trigger] dot_cmd(lines[i])) is Some
}

/// Whether `d` is one of the safe directives.
pub fn safe_directive(d: &str) -> (r: bool)
    ensures
        r == is_safe_directive(d@),
{
    same_text(d, ".ascii") || same_text(d, ".asciz") || same_text(d, ".align") || same_text(
        d,
        ".balign",
    ) || same_text(d, ".byte") || same_text(d, ".int") || same_text(d, ".double") || same_text(
        d,
        ".quad",
    ) || same_text(d, ".octa") || same_text(d, ".word") || same_text(d, ".")
}

/// Whether `line` holds a directive that is not a safe one (see `line_refused`).
pub fn directive_refused(line: &str) -> (r: bool)
    requires
        dot_cmd(line@) is Some,
    ensures
        r == line_refused(line@),
{
    let ch_dot = check_dot_cmd(line);
    contains_char(ch_dot, '.') && !safe_directive(ch_dot)
}

/// Whether every line of `lines` can be scanned for its directive.
pub fn dot_cmds_defined(lines: &Vec<&str>) -> (r: bool)
    ensures
        r == all_dot_cmds_defined(views(lines@)),
{
    let mut i: usize = 0;
    while i < lines.len()
        invariant
            i <= lines@.len(),
            forall|k: int| 0 <= k < i ==> (#[trigger] dot_cmd(lines@[k]@)) is Some,
        decreases lines@.len() - i,
    {
        if find_dot_cmd(lines[i]).is_none() {
            assert(views(lines@)[i as int] == lines@[i as int]@);
            return false;
        }
        i = i + 1;
    }
    assert forall|k: int| 0 <= k < views(lines@).len() implies (#[trigger] dot_cmd(
        views(lines@)[k],
    )) is Some by {
        assert(views(lines@)[k] == lines@[k]@);
    }
    true
}

/// Checks that all directives of an assembly source are valid and
/// recognized: `false` as soon as one line holds a directive that is not a
/// safe one.
pub fn check_safe_dir(file_data: Vec<&str>) -> (r: bool)
    requires
        all_dot_cmds_defined(views(file_data@)),
    ensures
        r == all_directives_safe(views(file_data@)),
{
    let ghost lines = views(file_data@);
    let mut result = true;
    let mut i: usize = 0;
    while i < file_data.len()
        invariant
            lines == views(file_data@),
            all_dot_cmds_defined(lines),
            i <= file_data@.len(),
            result == all_directives_safe(lines.subrange(0, i as int)),
        decreases file_data@.len() - i,
    {
        let line = file_data[i];
        proof {
            assert(lines[i as int] == line@);
            assert(dot_cmd(lines[i as int]) is Some);
        }
        if directive_refused(line) {
            result = false;
        }
        proof {
            let t = lines.subrange(0, i + 1);
            let p = lines.subrange(0, i as int);
            assert(t[i as int] == line@);
            if result {
                assert forall|k: int| 0 <= k < t.len() implies !line_refused(#[trigger] t[k]) by {
                    if k < i {
                        assert(t[k] == p[k]);
                    }
                }
            } else if line_refused(line@) {
                assert(line_refused(t[i as int]));
            } else {
                let k = choose|k: int| 0 <= k < p.len() && line_refused(#[trigger] p[k]);
                assert(t[k] == p[k]);
            }
        }
        i = i + 1;
    }
    assert(lines.subrange(0, file_data@.len() as int) =~= lines);
    result
}


/// `last_index_before` gives a `c` before `end`, after which there is none
/// up to `end`; `None` when there is no `c` before `end`.
pub proof fn lemma_last_index_before(s: Seq<char>, c: char, end: int)
    requires
        0 <= end <= s.len(),
    ensures
        last_index_before(s, c, end) matches Some(x) ==> 0 <= x < end && s[x] == c && forall|k: int|
            x < k < end ==> s[k] != c,
        last_index_before(s, c, end) is None ==> forall|k: int| 0 <= k < end ==> s[k] != c,
    decreases end,
{
    if end > 0 {
        lemma_last_index_before(s, c, end - 1);
    }
}

/// On an ASCII line that it can scan, `check_dot_cmd` gives either the whole
/// line or a directive: a `.` followed by characters that are neither `.`
/// nor a space. Scanning its result again gives the result back.
pub proof fn lemma_dot_cmd_shape(line: Seq<char>)
    requires
        forall|k: int| 0 <= k < line.len() ==> utf8_width(#[trigger] line[k]) == 1,
        dot_cmd(line) is Some,
    ensures
        dot_cmd(line).unwrap() == line || {
            let r = dot_cmd(line).unwrap();
            &&& r.len() >= 1
            &&& r[0] == '.'
            &&& forall|k: int| 1 <= k < r.len() ==> r[k] != '.' && r[k] != ' '
        },
        dot_cmd(dot_cmd(line).unwrap()) == Some(dot_cmd(line).unwrap()),
{
    let n = line.len() as int;
    let (s, e) = directive_bounds(line);
    if s == 0 && e == 0 {
        return;
    }
    lemma_first_index_of_found(line, '.');
    lemma_last_index_before(line, '.', n);
    assert(directive_end(line) is Some);
    let d = first_index_of(line, '.').unwrap();
    let t = line.subrange(d + 1, n);
    lemma_first_index_of_found(t, ' ');
    let i = first_index_of(t, ' ').unwrap();
    assert(e == i + d + 1);
    lemma_last_index_before(line, '.', e);
    assert(line[d] == '.');
    assert(s >= d);
    lemma_ascii_byte_offsets(line, s);
    lemma_ascii_byte_offsets(line, e);
    lemma_char_index_of_byte(line, s);
    lemma_char_index_of_byte(line, e);
    let r = line.subrange(s, e);
    assert(dot_cmd(line) == Some(r));
    assert forall|k: int| 1 <= k < r.len() implies r[k] != '.' && r[k] != ' ' by {
        assert(r[k] == line[s + k]);
        assert(t[s + k - d - 1] == line[s + k]);
    }
    lemma_first_index_of(r, '.', 0);
    let u = r.subrange(1, r.len() as int);
    assert forall|k: int| 0 <= k < u.len() implies u[k] != ' ' by {
        assert(u[k] == r[k + 1]);
    }
    lemma_first_index_of(u, ' ', u.len() as int);
    lemma_last_index_before(r, '.', r.len() as int);
    assert(directive_bounds(r) == (0int, 0int));
}


/// The safe directives are eleven, each a `.` followed by at most six
/// lower-case letters; the directives that name symbols, switch sections or
/// emit strings and wide or filled data (`.global`, `.text`, `.string`,
/// `.long`, `.fill`, ...) are not among them.
pub proof fn lemma_safe_directives()
    ensures
        forall|d: Seq<char>| #[trigger] is_safe_directive(d) ==> {
            &&& 1 <= d.len() <= 7
            &&& d[0] == '.'
            &&& forall|k: int| 1 <= k < d.len() ==> 'a' <= #[trigger] d[k] <= 'z'
        },
        Set::new(|d: Seq<char>| is_safe_directive(d)).finite(),
        Set::new(|d: Seq<char>| is_safe_directive(d)).len() == 11,
        !is_safe_directive(".global"@),
        !is_safe_directive(".globl"@),
        !is_safe_directive(".text"@),
        !is_safe_directive(".data"@),
        !is_safe_directive(".section"@),
        !is_safe_directive(".string"@),
        !is_safe_directive(".long"@),
        !is_safe_directive(".short"@),
        !is_safe_directive(".skip"@),
        !is_safe_directive(".zero"@),
        !is_safe_directive(".type"@),
        !is_safe_directive(".size"@),
        !is_safe_directive(".file"@),
        !is_safe_directive(".bss"@),
        !is_safe_directive(".rodata"@),
        !is_safe_directive(".space"@),
        !is_safe_directive(".fill"@),
        !is_safe_directive(".incbin"@),
        !is_safe_directive(".equ"@),
        !is_safe_directive(".set"@),
{
    reveal_strlit(".");
    reveal_strlit(".align");
    reveal_strlit(".ascii");
    reveal_strlit(".asciz");
    reveal_strlit(".balign");
    reveal_strlit(".bss");
    reveal_strlit(".byte");
    reveal_strlit(".data");
    reveal_strlit(".double");
    reveal_strlit(".equ");
    reveal_strlit(".file");
    reveal_strlit(".fill");
    reveal_strlit(".global");
    reveal_strlit(".globl");
    reveal_strlit(".incbin");
    reveal_strlit(".int");
    reveal_strlit(".long");
    reveal_strlit(".octa");
    reveal_strlit(".quad");
    reveal_strlit(".rodata");
    reveal_strlit(".section");
    reveal_strlit(".set");
    reveal_strlit(".short");
    reveal_strlit(".size");
    reveal_strlit(".skip");
    reveal_strlit(".space");
    reveal_strlit(".string");
    reveal_strlit(".text");
    reveal_strlit(".type");
    reveal_strlit(".word");
    reveal_strlit(".zero");
    let safe = set![".ascii"@, ".asciz"@, ".align"@, ".balign"@, ".byte"@, ".int"@, ".double"@, ".quad"@, ".octa"@, ".word"@, "."@];
    assert(Set::new(|d: Seq<char>| is_safe_directive(d)) =~= safe);
    assert(".asciz"@[5] != ".ascii"@[5]);
    assert(".align"@[2] != ".ascii"@[2]);
    assert(".align"@[2] != ".asciz"@[2]);
    assert(".balign"@.len() != ".ascii"@.len());
    assert(".balign"@.len() != ".asciz"@.len());
    assert(".balign"@.len() != ".align"@.len());
    assert(".byte"@.len() != ".ascii"@.len());
    assert(".byte"@.len() != ".asciz"@.len());
    assert(".byte"@.len() != ".align"@.len());
    assert(".byte"@.len() != ".balign"@.len());
    assert(".int"@.len() != ".ascii"@.len());
    assert(".int"@.len() != ".asciz"@.len());
    assert(".int"@.len() != ".align"@.len());
    assert(".int"@.len() != ".balign"@.len());
    assert(".int"@.len() != ".byte"@.len());
    assert(".double"@.len() != ".ascii"@.len());
    assert(".double"@.len() != ".asciz"@.len());
    assert(".double"@.len() != ".align"@.len());
    assert(".double"@[1] != ".balign"@[1]);
    assert(".double"@.len() != ".byte"@.len());
    assert(".double"@.len() != ".int"@.len());
    assert(".quad"@.len() != ".ascii"@.len());
    assert(".quad"@.len() != ".asciz"@.len());
    assert(".quad"@.len() != ".align"@.len());
    assert(".quad"@.len() != ".balign"@.len());
    assert(".quad"@[1] != ".byte"@[1]);
    assert(".quad"@.len() != ".int"@.len());
    assert(".quad"@.len() != ".double"@.len());
    assert(".octa"@.len() != ".ascii"@.len());
    assert(".octa"@.len() != ".asciz"@.len());
    assert(".octa"@.len() != ".align"@.len());
    assert(".octa"@.len() != ".balign"@.len());
    assert(".octa"@[1] != ".byte"@[1]);
    assert(".octa"@.len() != ".int"@.len());
    assert(".octa"@.len() != ".double"@.len());
    assert(".octa"@[1] != ".quad"@[1]);
    assert(".word"@.len() != ".ascii"@.len());
    assert(".word"@.len() != ".asciz"@.len());
    assert(".word"@.len() != ".align"@.len());
    assert(".word"@.len() != ".balign"@.len());
    assert(".word"@[1] != ".byte"@[1]);
    assert(".word"@.len() != ".int"@.len());
    assert(".word"@.len() != ".double"@.len());
    assert(".word"@[1] != ".quad"@[1]);
    assert(".word"@[1] != ".octa"@[1]);
    assert("."@.len() != ".ascii"@.len());
    assert("."@.len() != ".asciz"@.len());
    assert("."@.len() != ".align"@.len());
    assert("."@.len() != ".balign"@.len());
    assert("."@.len() != ".byte"@.len());
    assert("."@.len() != ".int"@.len());
    assert("."@.len() != ".double"@.len());
    assert("."@.len() != ".quad"@.len());
    assert("."@.len() != ".octa"@.len());
    assert("."@.len() != ".word"@.len());
    assert(".global"@[1] != ".balign"@[1]);
    assert(".global"@[1] != ".double"@[1]);
    assert(".globl"@[1] != ".ascii"@[1]);
    assert(".globl"@[1] != ".asciz"@[1]);
    assert(".globl"@[1] != ".align"@[1]);
    assert(".text"@[1] != ".byte"@[1]);
    assert(".text"@[1] != ".quad"@[1]);
    assert(".text"@[1] != ".octa"@[1]);
    assert(".text"@[1] != ".word"@[1]);
    assert(".data"@[1] != ".byte"@[1]);
    assert(".data"@[1] != ".quad"@[1]);
    assert(".data"@[1] != ".octa"@[1]);
    assert(".data"@[1] != ".word"@[1]);
    assert(".string"@[1] != ".balign"@[1]);
    assert(".string"@[1] != ".double"@[1]);
    assert(".long"@[1] != ".byte"@[1]);
    assert(".long"@[1] != ".quad"@[1]);
    assert(".long"@[1] != ".octa"@[1]);
    assert(".long"@[1] != ".word"@[1]);
    assert(".short"@[1] != ".ascii"@[1]);
    assert(".short"@[1] != ".asciz"@[1]);
    assert(".short"@[1] != ".align"@[1]);
    assert(".skip"@[1] != ".byte"@[1]);
    assert(".skip"@[1] != ".quad"@[1]);
    assert(".skip"@[1] != ".octa"@[1]);
    assert(".skip"@[1] != ".word"@[1]);
    assert(".zero"@[1] != ".byte"@[1]);
    assert(".zero"@[1] != ".quad"@[1]);
    assert(".zero"@[1] != ".octa"@[1]);
    assert(".zero"@[1] != ".word"@[1]);
    assert(".type"@[1] != ".byte"@[1]);
    assert(".type"@[1] != ".quad"@[1]);
    assert(".type"@[1] != ".octa"@[1]);
    assert(".type"@[1] != ".word"@[1]);
    assert(".size"@[1] != ".byte"@[1]);
    assert(".size"@[1] != ".quad"@[1]);
    assert(".size"@[1] != ".octa"@[1]);
    assert(".size"@[1] != ".word"@[1]);
    assert(".file"@[1] != ".byte"@[1]);
    assert(".file"@[1] != ".quad"@[1]);
    assert(".file"@[1] != ".octa"@[1]);
    assert(".file"@[1] != ".word"@[1]);
    assert(".bss"@[1] != ".int"@[1]);
    assert(".rodata"@[1] != ".balign"@[1]);
    assert(".rodata"@[1] != ".double"@[1]);
    assert(".space"@[1] != ".ascii"@[1]);
    assert(".space"@[1] != ".asciz"@[1]);
    assert(".space"@[1] != ".align"@[1]);
    assert(".fill"@[1] != ".byte"@[1]);
    assert(".fill"@[1] != ".quad"@[1]);
    assert(".fill"@[1] != ".octa"@[1]);
    assert(".fill"@[1] != ".word"@[1]);
    assert(".incbin"@[1] != ".balign"@[1]);
    assert(".incbin"@[1] != ".double"@[1]);
    assert(".equ"@[1] != ".int"@[1]);
    assert(".set"@[1] != ".int"@[1]);
}

} // verus!
