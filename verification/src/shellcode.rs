//! Turning the listing that objdump prints for an assembled object into the
//! instruction bytes as an escaped string (`\x55\x48...`).

use vstd::prelude::*;
use vstd::string::{StrSliceExecFns, StringExecFns};
use crate::text::{
    byte_offset, char_width, lemma_ascii_byte_offsets, push_char, remove_char, split_on, split_spec,
    utf8_width, views, without_char,
};

verus! {

/// The listing lines that hold instructions: the lines after the first seven,
/// without the last one; `None` when the listing has fewer than seven lines.
pub open spec fn body_lines(dump: Seq<char>) -> Option<Seq<Seq<char>>> {
    let parts = split_spec(dump, '\n');
    if parts.len() < 7 {
        None
    } else {
        let sliced = parts.subrange(7, parts.len() as int);
        if sliced.len() > 0 {
            Some(sliced.drop_last())
        } else {
            Some(sliced)
        }
    }
}

/// The text between the first and the second tab of a line (the byte column
/// of an objdump line), if the line has a tab.
pub open spec fn second_field(line: Seq<char>) -> Option<Seq<char>> {
    let parts = split_spec(line, '\t');
    if parts.len() >= 2 {
        Some(parts[1])
    } else {
        None
    }
}

/// The byte columns of `lines`, one after the other.
pub open spec fn concat_fields(lines: Seq<Seq<char>>) -> Seq<char>
    decreases lines.len(),
{
    if lines.len() == 0 {
        Seq::empty()
    } else {
        concat_fields(lines.drop_last()) + second_field(lines.last()).unwrap()
    }
}

/// The marker put before each pair of hex digits.
pub open spec fn marker() -> Seq<char> {
    seq!['\\', 'x']
}

/// The first `i` characters of `s`, each one that starts at an even byte
/// offset preceded by the marker.
pub open spec fn escaped_upto(s: Seq<char>, i: int) -> Seq<char>
    decreases i,
{
    if i <= 0 {
        Seq::empty()
    } else {
        let prev = escaped_upto(s, i - 1);
        if byte_offset(s, i - 1) % 2 == 0 {
            prev + marker() + seq![s[i - 1]]
        } else {
            prev + seq![s[i - 1]]
        }
    }
}

/// `s` with the marker inserted at every even byte offset.
pub open spec fn escaped(s: Seq<char>) -> Seq<char> {
    escaped_upto(s, s.len() as int)
}

/// Every even byte offset of `s` (below its length) is where a character
/// starts: the marker can be inserted there.
pub open spec fn pairs_aligned(s: Seq<char>) -> bool {
    forall|j: int|
        0 <= j < s.len() ==> {
            ||| utf8_width(#[trigger] s[j]) == 1
            ||| utf8_width(s[j]) == 2 && byte_offset(s, j) % 2 == 0
        }
}

/// The escaped byte string of a listing (`None` when the listing is too short).
pub open spec fn dump_shellcode(dump: Seq<char>) -> Option<Seq<char>> {
    match body_lines(dump) {
        Some(lines) => Some(escaped(without_char(concat_fields(lines), ' '))),
        None => None,
    }
}

/// The listing can be turned into a byte string: each instruction line has a
/// tab, and the collected digits take the markers.
pub open spec fn dump_shellcode_defined(dump: Seq<char>) -> bool {
    match body_lines(dump) {
        Some(lines) => {
            &&& forall|i: int| 0 <= i < lines.len() ==> (#[trigger] second_field(lines[i])) is Some
            &&& pairs_aligned(without_char(concat_fields(lines), ' '))
        },
        None => true,
    }
}

/// The instruction lines of an objdump listing (see `body_lines`).
pub fn dump_body_lines<'a>(dump: &'a str) -> (r: Option<Vec<&'a str>>)
    ensures
        match r {
            Some(v) => body_lines(dump@) == Some(views(v@)),
            None => body_lines(dump@) is None,
        },
{
    let outdump = split_on(dump, '\n');
    if outdump.len() < 7 {
        return None;
    }
    let ghost parts = views(outdump@);
    let end: usize = if outdump.len() > 7 {
        outdump.len() - 1
    } else {
        7
    };
    let mut sliced: Vec<&'a str> = Vec::new();
    let mut i: usize = 7;
    while i < end
        invariant
            parts == views(outdump@),
            7 <= i <= end <= outdump@.len(),
            views(sliced@) == parts.subrange(7, i as int),
        decreases end - i,
    {
        proof {
            assert(views(sliced@.push(outdump@[i as int])) =~= views(sliced@).push(
                outdump@[i as int]@,
            ));
            assert(parts.subrange(7, i + 1) =~= parts.subrange(7, i as int).push(parts[i as int]));
        }
        sliced.push(outdump[i]);
        i = i + 1;
    }
    proof {
        let s = parts.subrange(7, parts.len() as int);
        if s.len() > 0 {
            assert(s.drop_last() =~= parts.subrange(7, end as int));
        } else {
            assert(s =~= parts.subrange(7, end as int));
        }
    }
    Some(sliced)
}

/// The byte column of an objdump line (see `second_field`).
pub fn tab_field<'a>(line: &'a str) -> (r: Option<&'a str>)
    ensures
        match r {
            Some(f) => second_field(line@) == Some(f@),
            None => second_field(line@) is None,
        },
{
    let temp_vec = split_on(line, '\t');
    if temp_vec.len() < 2 {
        None
    } else {
        assert(views(temp_vec@)[1] == temp_vec@[1]@);
        Some(temp_vec[1])
    }
}

/// Collects the byte columns of `lines`, `None` when a line has no tab.
pub fn collect_fields(lines: &Vec<&str>) -> (r: Option<String>)
    ensures
        match r {
            Some(s) => (forall|i: int|
                0 <= i < lines@.len() ==> (#[trigger] second_field(views(lines@)[i])) is Some)
                && s@ == concat_fields(views(lines@)),
            None => exists|i: int|
                0 <= i < lines@.len() && (#[trigger] second_field(views(lines@)[i])) is None,
        },
{
    let ghost ls = views(lines@);
    let mut fina = String::new();
    let mut i: usize = 0;
    while i < lines.len()
        invariant
            ls == views(lines@),
            i <= lines@.len(),
            forall|k: int| 0 <= k < i ==> (#[trigger] second_field(ls[k])) is Some,
            fina@ == concat_fields(ls.subrange(0, i as int)),
        decreases lines@.len() - i,
    {
        assert(ls[i as int] == lines@[i as int]@);
        match tab_field(lines[i]) {
            Some(f) => {
                proof {
                    let t = ls.subrange(0, i + 1);
                    assert(t.drop_last() =~= ls.subrange(0, i as int));
                    assert(t.last() == ls[i as int]);
                }
                fina.append(f);
            },
            None => {
                return None;
            },
        }
        i = i + 1;
    }
    assert(ls.subrange(0, lines@.len() as int) =~= ls);
    Some(fina)
}

/// Whether the marker can be inserted at every even byte offset of `s`.
pub fn pairs_aligned_exec(s: &str) -> (r: bool)
    ensures
        r == pairs_aligned(s@),
{
    let n = s.unicode_len();
    let mut even = true;
    let mut i: usize = 0;
    while i < n
        invariant
            n == s@.len(),
            i <= n,
            even == (byte_offset(s@, i as int) % 2 == 0),
            forall|j: int|
                0 <= j < i ==> {
                    ||| utf8_width(#[trigger] s@[j]) == 1
                    ||| utf8_width(s@[j]) == 2 && byte_offset(s@, j) % 2 == 0
                },
        decreases n - i,
    {
        let w = char_width(s.get_char(i));
        if !(w == 1 || (w == 2 && even)) {
            return false;
        }
        if w == 1 {
            even = !even;
        }
        i = i + 1;
    }
    true
}

/// Puts the marker `\x` before each pair of hex digits of `s`: at every even
/// byte offset.
pub fn escape_hex_pairs(s: &str) -> (r: String)
    requires
        pairs_aligned(s@),
    ensures
        r@ == escaped(s@),
{
    let n = s.unicode_len();
    let mut out = String::new();
    let mut even = true;
    let mut i: usize = 0;
    while i < n
        invariant
            n == s@.len(),
            i <= n,
            pairs_aligned(s@),
            even == (byte_offset(s@, i as int) % 2 == 0),
            out@ == escaped_upto(s@, i as int),
        decreases n - i,
    {
        let c = s.get_char(i);
        let w = char_width(c);
        if even {
            out.append("\\x");
        }
        proof {
            reveal_strlit("\\x");
        }
        push_char(&mut out, c);
        if w == 1 {
            even = !even;
        }
        i = i + 1;
    }
    out
}


/// The file the byte string goes to: the source path with its last two
/// characters dropped, then `-out.txt`.
pub open spec fn output_path_spec(path: Seq<char>) -> Seq<char> {
    let kept = if path.len() >= 2 {
        path.subrange(0, path.len() - 2)
    } else {
        Seq::empty()
    };
    kept + "-out.txt"@
}

/// Path of the output file for the source at `path` (`foo.s` gives `foo-out.txt`).
pub fn output_path(path: &str) -> (r: String)
    ensures
        r@ == output_path_spec(path@),
{
    let n = path.unicode_len();
    let keep: usize = if n >= 2 {
        n - 2
    } else {
        0
    };
    let mut out = path.substring_char(0, keep).to_owned();
    out.append("-out.txt");
    out
}

/// Whether `parsedumptruck` can work on `dump` (see `dump_shellcode_defined`).
pub fn dump_shellcode_ok(dump: &str) -> (r: bool)
    ensures
        r == dump_shellcode_defined(dump@),
{
    match dump_body_lines(dump) {
        None => true,
        Some(sliced) => match collect_fields(&sliced) {
            None => false,
            Some(fina) => {
                let donefina = remove_char(fina.as_str(), ' ');
                pairs_aligned_exec(donefina.as_str())
            },
        },
    }
}

/// The instruction bytes of an objdump listing as an escaped string: the
/// byte columns of the instruction lines, spaces removed, `\x` before each
/// pair of digits. `None` when the listing has fewer than seven lines.
pub fn parsedumptruck(dump: &str) -> (r: Option<String>)
    requires
        dump_shellcode_defined(dump@),
    ensures
        match r {
            Some(s) => dump_shellcode(dump@) == Some(s@),
            None => dump_shellcode(dump@) is None,
        },
{
    match dump_body_lines(dump) {
        None => None,
        Some(sliced) => match collect_fields(&sliced) {
            None => None,
            Some(fina) => {
                let donefina = remove_char(fina.as_str(), ' ');
                Some(escape_hex_pairs(donefina.as_str()))
            },
        },
    }
}


/// In `e`, pair `k` of `s` (of its first `n` characters) stands marked:
/// `\`, `x`, character `2k`, then character `2k + 1` if there is one.
pub open spec fn marked_pair_at(e: Seq<char>, s: Seq<char>, n: int, k: int) -> bool {
    &&& e[4 * k] == '\\'
    &&& e[4 * k + 1] == 'x'
    &&& e[4 * k + 2] == s[2 * k]
    &&& 2 * k + 1 < n ==> e[4 * k + 3] == s[2 * k + 1]
}

proof fn lemma_escaped_upto_ascii(s: Seq<char>, i: int)
    requires
        0 <= i <= s.len(),
        forall|k: int| 0 <= k < s.len() ==> utf8_width(#[trigger] s[k]) == 1,
    ensures
        escaped_upto(s, i).len() == i + 2 * ((i + 1) / 2),
        forall|k: int| 0 <= 2 * k < i ==> #[trigger] marked_pair_at(escaped_upto(s, i), s, i, k),
    decreases i,
{
    if i > 0 {
        lemma_escaped_upto_ascii(s, i - 1);
        lemma_ascii_byte_offsets(s, i - 1);
        let prev = escaped_upto(s, i - 1);
        let cur = escaped_upto(s, i);
        assert forall|k: int| 0 <= 2 * k < i implies #[trigger] marked_pair_at(cur, s, i, k) by {
            if 2 * k < i - 1 {
                assert(marked_pair_at(prev, s, i - 1, k));
                assert(cur[4 * k] == prev[4 * k]);
                assert(cur[4 * k + 1] == prev[4 * k + 1]);
                assert(cur[4 * k + 2] == prev[4 * k + 2]);
                if 2 * k + 1 < i - 1 {
                    assert(cur[4 * k + 3] == prev[4 * k + 3]);
                }
            }
        }
    }
}

/// On ASCII text the escaped string is `\x` followed by the first two
/// characters, `\x` and the next two, and so on: its length is that of the
/// text plus two for each started pair, and from index `4k` on stand `\`,
/// `x`, then characters `2k` and `2k + 1` of the text. Such text always
/// takes the markers.
pub proof fn lemma_escaped_ascii_pairs(s: Seq<char>)
    requires
        forall|k: int| 0 <= k < s.len() ==> utf8_width(#[trigger] s[k]) == 1,
    ensures
        escaped(s).len() == s.len() + 2 * ((s.len() + 1) / 2),
        forall|k: int|
            0 <= 2 * k < s.len() ==> #[trigger] marked_pair_at(escaped(s), s, s.len() as int, k),
        pairs_aligned(s),
{
    lemma_escaped_upto_ascii(s, s.len() as int);
}


/// The byte column of an objdump line is the text between its first and its
/// second tab, however many tabs follow (the mnemonic and operands may hold
/// more); a line with a single tab gives what follows it, and a line without
/// a tab has none.
pub proof fn lemma_second_field_is_byte_column(a: Seq<char>, b: Seq<char>, c: Seq<char>)
    requires
        !a.contains('\t'),
        !b.contains('\t'),
    ensures
        second_field(a + seq!['\t'] + b + seq!['\t'] + c) == Some(b),
        second_field(a + seq!['\t'] + b) == Some(b),
        second_field(a) is None,
{
    assert forall|k: int| 0 <= k < a.len() implies a[k] != '\t' by {
        if a[k] == '\t' {
            assert(a.contains('\t'));
        }
    }
    assert forall|k: int| 0 <= k < b.len() implies b[k] != '\t' by {
        if b[k] == '\t' {
            assert(b.contains('\t'));
        }
    }
    let tab = seq!['\t'];
    // three or more pieces
    let line = a + tab + b + tab + c;
    assert forall|k: int| 0 <= k < a.len() implies line[k] != '\t' by {
        assert(line[k] == a[k]);
    }
    crate::text::lemma_first_index_of(line, '\t', a.len() as int);
    let rest = line.subrange(a.len() + 1int, line.len() as int);
    assert(rest =~= b + tab + c);
    assert forall|k: int| 0 <= k < b.len() implies rest[k] != '\t' by {
        assert(rest[k] == b[k]);
    }
    crate::text::lemma_first_index_of(rest, '\t', b.len() as int);
    assert(line.subrange(0, a.len() as int) =~= a);
    assert(rest.subrange(0, b.len() as int) =~= b);
    let tail = rest.subrange(b.len() + 1int, rest.len() as int);
    assert(split_spec(rest, '\t') == seq![rest.subrange(0, b.len() as int)] + split_spec(tail, '\t'));
    assert(split_spec(line, '\t') == seq![line.subrange(0, a.len() as int)] + split_spec(rest, '\t'));
    assert(split_spec(line, '\t')[1] == b);
    // two pieces
    let line2 = a + tab + b;
    assert forall|k: int| 0 <= k < a.len() implies line2[k] != '\t' by {
        assert(line2[k] == a[k]);
    }
    crate::text::lemma_first_index_of(line2, '\t', a.len() as int);
    let rest2 = line2.subrange(a.len() + 1int, line2.len() as int);
    assert(rest2 =~= b);
    crate::text::lemma_first_index_of(rest2, '\t', b.len() as int);
    assert(line2.subrange(0, a.len() as int) =~= a);
    assert(split_spec(rest2, '\t') == seq![rest2]);
    assert(split_spec(line2, '\t') == seq![line2.subrange(0, a.len() as int)] + split_spec(rest2, '\t'));
    assert(split_spec(line2, '\t')[1] == b);
    // one piece
    crate::text::lemma_first_index_of(a, '\t', a.len() as int);
}

} // verus!
