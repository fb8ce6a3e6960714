//! Reading the instructions out of the listing that objdump prints when it
//! disassembles raw bytes.

use vstd::prelude::*;
use vstd::string::StrSliceExecFns;
use vstd::utf8::{decode_utf8, encode_utf8, encode_utf8_decode_utf8, valid_utf8};
use crate::shellcode::{body_lines, dump_body_lines};
use crate::text::{char_index_at_byte, char_index_of_byte, first_index_of, views};

verus! {

/// `std::str::from_utf8`, giving up the error value. Claimed, as its
/// documentation says: the result is some text exactly when the bytes are
/// UTF-8, and then the text's UTF-8 bytes are the input.
#[verifier::external_body]
fn str_from_utf8(bytes: &[u8]) -> (r: Option<&str>)
    ensures
        match r {
            Some(s) => valid_utf8(bytes@) && encode_utf8(s@) == bytes@,
            None => !valid_utf8(bytes@),
        },
{
    std::str::from_utf8(bytes).ok()
}

/// The instruction of a listing line: what follows its first `:` (the
/// position after the colon, a character count, taken as a byte offset);
/// `None` when the line has no colon.
pub open spec fn instruction_text(line: Seq<char>) -> Option<Seq<char>> {
    match first_index_of(line, ':') {
        Some(c) => Some(line.subrange(char_index_of_byte(line, c + 1).unwrap(), line.len() as int)),
        None => None,
    }
}

/// The line can be cut after its colon (the offset falls between characters).
pub open spec fn instruction_cut_defined(line: Seq<char>) -> bool {
    first_index_of(line, ':') matches Some(c) ==> char_index_of_byte(line, c + 1) is Some
}

/// The instructions of the leading lines that have a colon, and whether
/// every line had one (the listing stops at the first line without).
pub open spec fn instructions(lines: Seq<Seq<char>>) -> (Seq<Seq<char>>, bool)
    decreases lines.len(),
{
    if lines.len() == 0 {
        (Seq::empty(), true)
    } else {
        let (prev, complete) = instructions(lines.drop_last());
        if !complete {
            (prev, false)
        } else {
            match instruction_text(lines.last()) {
                Some(x) => (prev.push(x), true),
                None => (prev, false),
            }
        }
    }
}

/// Every line that the listing reaches can be cut after its colon.
pub open spec fn instructions_defined(lines: Seq<Seq<char>>) -> bool
    decreases lines.len(),
{
    if lines.len() == 0 {
        true
    } else {
        instructions_defined(lines.drop_last()) && (instructions(lines.drop_last()).1
            ==> instruction_cut_defined(lines.last()))
    }
}

/// `format_output` works on `output`: when it is UTF-8, its text has at
/// least seven lines, and each line the listing reaches can be cut.
pub open spec fn listing_defined(output: Seq<u8>) -> bool {
    valid_utf8(output) ==> match body_lines(decode_utf8(output)) {
        Some(lines) => instructions_defined(lines),
        None => false,
    }
}

/// The instructions read from a listing, and whether the listing was read
/// to its end (it stops at the first line without a colon).
pub struct Listing<'a> {
    pub instructions: Vec<&'a str>,
    pub complete: bool,
}

/// The instruction of one listing line (see `instruction_text`), or `None`
/// when the line has no colon or cannot be cut after it.
pub fn instruction_of<'a>(line: &'a str) -> (r: Option<&'a str>)
    ensures
        match r {
            Some(x) => instruction_cut_defined(line@) && instruction_text(line@) == Some(x@),
            None => instruction_text(line@) is None || !instruction_cut_defined(line@),
        },
{
    let n = line.unicode_len();
    let mut i: usize = 0;
    while i < n && line.get_char(i) != ':'
        invariant
            n == line@.len(),
            i <= n,
            forall|k: int| 0 <= k < i ==> line@[k] != ':',
        decreases n - i,
    {
        i = i + 1;
    }
    proof {
        crate::text::lemma_first_index_of(line@, ':', i as int);
    }
    if i == n {
        return None;
    }
    match char_index_at_byte(line, i + 1) {
        Some(p) => {
            proof {
                let ch = line@;
                let j = choose|j: int| 0 <= j <= ch.len() && crate::text::byte_offset(ch, j) == i + 1;
                assert(j <= n);
            }
            Some(line.substring_char(p, n))
        },
        None => None,
    }
}

/// Reads the instructions out of the lines of a listing.
pub fn listing_of<'a>(lines: &Vec<&'a str>) -> (r: Listing<'a>)
    requires
        instructions_defined(views(lines@)),
    ensures
        views(r.instructions@) == instructions(views(lines@)).0,
        r.complete == instructions(views(lines@)).1,
{
    let ghost ls = views(lines@);
    let mut out: Vec<&'a str> = Vec::new();
    let mut i: usize = 0;
    while i < lines.len()
        invariant
            ls == views(lines@),
            i <= lines@.len(),
            instructions_defined(ls),
            instructions(ls.subrange(0, i as int)) == (views(out@), true),
        decreases lines@.len() - i,
    {
        let line = lines[i];
        proof {
            let t = ls.subrange(0, i + 1);
            assert(t.drop_last() =~= ls.subrange(0, i as int));
            assert(t.last() == line@);
            lemma_instructions_defined_prefix(ls, i + 1);
        }
        match instruction_of(line) {
            Some(x) => {
                assert(views(out@.push(x)) =~= views(out@).push(x@));
                out.push(x);
            },
            None => {
                proof {
                    lemma_instructions_stop(ls, i + 1);
                }
                return Listing { instructions: out, complete: false };
            },
        }
        i = i + 1;
    }
    assert(ls.subrange(0, lines@.len() as int) =~= ls);
    Listing { instructions: out, complete: true }
}

proof fn lemma_instructions_defined_prefix(ls: Seq<Seq<char>>, k: int)
    requires
        0 <= k <= ls.len(),
        instructions_defined(ls),
    ensures
        instructions_defined(ls.subrange(0, k)),
    decreases ls.len() - k,
{
    if k < ls.len() {
        assert(ls.drop_last() =~= ls.subrange(0, ls.len() - 1));
        assert(ls.drop_last().subrange(0, k) =~= ls.subrange(0, k));
        lemma_instructions_defined_prefix(ls.drop_last(), k);
    } else {
        assert(ls.subrange(0, k) =~= ls);
    }
}

proof fn lemma_instructions_stop(ls: Seq<Seq<char>>, k: int)
    requires
        0 < k <= ls.len(),
        !instructions(ls.subrange(0, k)).1,
    ensures
        instructions(ls) == instructions(ls.subrange(0, k)),
    decreases ls.len() - k,
{
    if k < ls.len() {
        assert(ls.drop_last() =~= ls.subrange(0, ls.len() - 1));
        assert(ls.drop_last().subrange(0, k) =~= ls.subrange(0, k));
        lemma_instructions_stop(ls.drop_last(), k);
    } else {
        assert(ls.subrange(0, k) =~= ls);
    }
}


/// What `format_output` reads from `output`: `None` when it is not UTF-8,
/// else the instructions of its listing and whether the listing was read to
/// its end.
pub open spec fn listing_of_output(output: Seq<u8>) -> Option<(Seq<Seq<char>>, bool)> {
    if valid_utf8(output) {
        Some(instructions(body_lines(decode_utf8(output)).unwrap()))
    } else {
        None
    }
}

/// Whether every line that the listing reaches can be cut after its colon.
pub fn instructions_defined_exec(lines: &Vec<&str>) -> (r: bool)
    ensures
        r == instructions_defined(views(lines@)),
{
    let ghost ls = views(lines@);
    let mut i: usize = 0;
    while i < lines.len()
        invariant
            ls == views(lines@),
            i <= lines@.len(),
            instructions_defined(ls.subrange(0, i as int)),
            instructions(ls.subrange(0, i as int)).1,
        decreases lines@.len() - i,
    {
        let line = lines[i];
        let ghost t = ls.subrange(0, i + 1);
        proof {
            assert(t.drop_last() =~= ls.subrange(0, i as int));
            assert(t.last() == line@);
        }
        match instruction_of(line) {
            Some(_) => {},
            None => {
                proof {
                    crate::text::lemma_first_index_of_found(line@, ':');
                    if first_index_of(line@, ':') is Some {
                        let c = first_index_of(line@, ':').unwrap();
                        assert(line@[c] == ':');
                    }
                }
                if crate::text::contains_char(line, ':') {
                    proof {
                        lemma_defined_prefix_back(ls, i + 1);
                    }
                    return false;
                }
                proof {
                    assert(instructions_defined(t));
                    assert(!instructions(t).1);
                    lemma_defined_after_stop(ls, i + 1);
                }
                return true;
            },
        }
        i = i + 1;
    }
    assert(ls.subrange(0, lines@.len() as int) =~= ls);
    true
}

proof fn lemma_defined_prefix_back(ls: Seq<Seq<char>>, k: int)
    requires
        0 < k <= ls.len(),
        !instructions_defined(ls.subrange(0, k)),
    ensures
        !instructions_defined(ls),
    decreases ls.len() - k,
{
    if k < ls.len() {
        assert(ls.drop_last().subrange(0, k) =~= ls.subrange(0, k));
        lemma_defined_prefix_back(ls.drop_last(), k);
    } else {
        assert(ls.subrange(0, k) =~= ls);
    }
}

proof fn lemma_defined_after_stop(ls: Seq<Seq<char>>, k: int)
    requires
        0 < k <= ls.len(),
        instructions_defined(ls.subrange(0, k)),
        !instructions(ls.subrange(0, k)).1,
    ensures
        instructions_defined(ls),
        !instructions(ls).1,
    decreases ls.len() - k,
{
    if k < ls.len() {
        assert(ls.drop_last().subrange(0, k) =~= ls.subrange(0, k));
        lemma_defined_after_stop(ls.drop_last(), k);
    } else {
        assert(ls.subrange(0, k) =~= ls);
    }
}

/// Whether `format_output` can work on `output` (see `listing_defined`).
pub fn listing_ok(output: &[u8]) -> (r: bool)
    ensures
        r == listing_defined(output@),
{
    match str_from_utf8(output) {
        None => true,
        Some(text) => {
            proof {
                encode_utf8_decode_utf8(text@);
            }
            match dump_body_lines(text) {
                None => false,
                Some(lines) => instructions_defined_exec(&lines),
            }
        },
    }
}

/// Reads the instructions out of the listing that objdump printed: the
/// output as UTF-8 text, its lines after the first seven without the last,
/// each cut after its first colon, up to the first line without one.
/// `None` when the output is not UTF-8.
pub fn format_output<'a>(output: &'a [u8]) -> (r: Option<Listing<'a>>)
    requires
        listing_defined(output@),
    ensures
        match r {
            Some(l) => listing_of_output(output@) == Some((views(l.instructions@), l.complete)),
            None => listing_of_output(output@) is None,
        },
{
    match str_from_utf8(output) {
        None => None,
        Some(output_str) => {
            proof {
                encode_utf8_decode_utf8(output_str@);
            }
            match dump_body_lines(output_str) {
                None => None,
                Some(output_vec) => Some(listing_of(&output_vec)),
            }
        },
    }
}

/// Instruction `i` read from a listing is a tail of line `i`, there are no
/// more instructions than lines, and as many when the listing was read to
/// its end.
pub proof fn lemma_instructions_are_tails(lines: Seq<Seq<char>>)
    requires
        instructions_defined(lines),
    ensures
        instructions(lines).0.len() <= lines.len(),
        instructions(lines).1 ==> instructions(lines).0.len() == lines.len(),
        forall|i: int|
            0 <= i < instructions(lines).0.len() ==> lines[i].len() >= (#[trigger] instructions(
                lines,
            ).0[i]).len() && instructions(lines).0[i] =~= lines[i].subrange(
                lines[i].len() - instructions(lines).0[i].len(),
                lines[i].len() as int,
            ),
    decreases lines.len(),
{
    if lines.len() > 0 {
        let prefix = lines.drop_last();
        lemma_instructions_are_tails(prefix);
        let (prev, complete) = instructions(prefix);
        let cur = instructions(lines).0;
        assert forall|i: int| 0 <= i < cur.len() implies lines[i].len() >= (#[trigger] cur[i]).len()
            && cur[i] =~= lines[i].subrange(lines[i].len() - cur[i].len(), lines[i].len() as int) by {
            if i < prev.len() {
                assert(cur[i] == prev[i]);
                assert(lines[i] == prefix[i]);
            } else {
                let line = lines.last();
                assert(i == lines.len() - 1);
                crate::text::lemma_first_index_of_found(line, ':');
                let c = first_index_of(line, ':').unwrap();
                let ch = line;
                let j = choose|j: int| 0 <= j <= ch.len() && crate::text::byte_offset(ch, j) == c + 1;
                assert(char_index_of_byte(line, c + 1) == Some(j));
            }
        }
    }
}


/// A listing line is cut after its first colon, the one that ends the
/// address: whatever follows (colons in operands included) is the
/// instruction, when the address part is ASCII; a line without a colon
/// gives none.
pub proof fn lemma_instruction_after_first_colon(a: Seq<char>, b: Seq<char>)
    requires
        !a.contains(':'),
        forall|k: int| 0 <= k < a.len() ==> crate::text::utf8_width(#[trigger] a[k]) == 1,
    ensures
        instruction_cut_defined(a + seq![':'] + b),
        instruction_text(a + seq![':'] + b) == Some(b),
        instruction_text(a) is None,
{
    assert forall|k: int| 0 <= k < a.len() implies a[k] != ':' by {
        if a[k] == ':' {
            assert(a.contains(':'));
        }
    }
    let line = a + seq![':'] + b;
    let n = a.len() as int;
    assert forall|k: int| 0 <= k < n implies line[k] != ':' by {
        assert(line[k] == a[k]);
    }
    crate::text::lemma_first_index_of(line, ':', n);
    assert forall|k: int| 0 <= k < n + 1 implies crate::text::utf8_width(#[trigger] line[k]) == 1 by {
        if k < n {
            assert(line[k] == a[k]);
        } else {
            assert(line[k] == ':');
        }
    }
    crate::text::lemma_ascii_byte_offsets(line, n + 1);
    crate::text::lemma_char_index_of_byte(line, n + 1);
    assert(line.subrange(n + 1, line.len() as int) =~= b);
    crate::text::lemma_first_index_of(a, ':', n);
}

} // verus!
