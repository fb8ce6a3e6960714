//! Character-level helpers over `&str`, with byte offsets computed the way
//! UTF-8 lays characters out.

use vstd::prelude::*;
use vstd::string::StrSliceExecFns;
use vstd::utf8::{char_is_scalar, encode_scalar, encode_utf8};

verus! {

/// Number of bytes that the UTF-8 encoding of `c` takes (as `char::len_utf8`).
pub open spec fn utf8_width(c: char) -> int {
    if (c as u32) < 0x80 {
        1
    } else if (c as u32) < 0x800 {
        2
    } else if (c as u32) < 0x10000 {
        3
    } else {
        4
    }
}

/// Byte offset, in the UTF-8 encoding of `chars`, at which character `j` starts.
pub open spec fn byte_offset(chars: Seq<char>, j: int) -> int
    decreases j,
{
    if j <= 0 {
        0
    } else {
        byte_offset(chars, j - 1) + utf8_width(chars[j - 1])
    }
}

/// `b` is a byte offset at which some character of `chars` starts, or the end.
pub open spec fn is_char_boundary_at(chars: Seq<char>, b: int) -> bool {
    exists|j: int| 0 <= j <= chars.len() && byte_offset(chars, j) == b
}

/// The index of the character that starts at byte offset `b`, if there is one.
pub open spec fn char_index_of_byte(chars: Seq<char>, b: int) -> Option<int> {
    if is_char_boundary_at(chars, b) {
        Some(choose|j: int| 0 <= j <= chars.len() && byte_offset(chars, j) == b)
    } else {
        None
    }
}

/// Byte offsets grow by at least one per character.
pub proof fn lemma_byte_offset_grows(chars: Seq<char>, i: int, k: int)
    requires
        0 <= i <= k,
    ensures
        byte_offset(chars, k) >= byte_offset(chars, i) + (k - i),
    decreases k - i,
{
    if i < k {
        lemma_byte_offset_grows(chars, i, k - 1);
    }
}

/// When the first `j` characters are ASCII, character `j` starts at byte `j`.
pub proof fn lemma_ascii_byte_offsets(s: Seq<char>, j: int)
    requires
        0 <= j <= s.len(),
        forall|k: int| 0 <= k < j ==> utf8_width(#[trigger] s[k]) == 1,
    ensures
        byte_offset(s, j) == j,
    decreases j,
{
    if j > 0 {
        lemma_ascii_byte_offsets(s, j - 1);
    }
}

/// At most one character starts at a given byte offset.
pub proof fn lemma_char_index_of_byte(chars: Seq<char>, j: int)
    requires
        0 <= j <= chars.len(),
    ensures
        char_index_of_byte(chars, byte_offset(chars, j)) == Some(j),
{
    let b = byte_offset(chars, j);
    assert(is_char_boundary_at(chars, b));
    let k = choose|k: int| 0 <= k <= chars.len() && byte_offset(chars, k) == b;
    if k < j {
        lemma_byte_offset_grows(chars, k + 1, j);
    } else if j < k {
        lemma_byte_offset_grows(chars, j + 1, k);
    }
}

/// Executable `utf8_width`.
pub fn char_width(c: char) -> (w: usize)
    ensures
        w as int == utf8_width(c),
{
    let u = c as u32;
    if u < 0x80 {
        1
    } else if u < 0x800 {
        2
    } else if u < 0x10000 {
        3
    } else {
        4
    }
}

/// Finds the character of `line` that starts at byte offset `b`.
pub fn char_index_at_byte(line: &str, b: usize) -> (r: Option<usize>)
    ensures
        match r {
            Some(j) => char_index_of_byte(line@, b as int) == Some(j as int),
            None => char_index_of_byte(line@, b as int) is None,
        },
{
    let n = line.unicode_len();
    let mut j: usize = 0;
    let mut left: usize = b;
    while j < n && left > 0
        invariant
            n == line@.len(),
            j <= n,
            left as int == b - byte_offset(line@, j as int),
        decreases n - j,
    {
        let w = char_width(line.get_char(j));
        if w > left {
            proof {
                assert forall|k: int| 0 <= k <= line@.len() implies byte_offset(line@, k) != b by {
                    if k <= j {
                        lemma_byte_offset_grows(line@, k, j as int);
                    } else {
                        lemma_byte_offset_grows(line@, j + 1, k);
                    }
                }
            }
            return None;
        }
        left = left - w;
        j = j + 1;
    }
    if left == 0 {
        proof {
            lemma_char_index_of_byte(line@, j as int);
        }
        Some(j)
    } else {
        proof {
            assert forall|k: int| 0 <= k <= line@.len() implies byte_offset(line@, k) != b by {
                lemma_byte_offset_grows(line@, k, j as int);
            }
        }
        None
    }
}


/// The characters with the Unicode `White_Space` property (what `str::trim` removes).
pub open spec fn is_white_space(c: char) -> bool {
    let u = c as u32;
    (0x09 <= u <= 0x0d) || u == 0x20 || u == 0x85 || u == 0xa0 || u == 0x1680 || (0x2000 <= u
        <= 0x200a) || u == 0x2028 || u == 0x2029 || u == 0x202f || u == 0x205f || u == 0x3000
}

/// Executable `is_white_space`.
pub fn white_space(c: char) -> (r: bool)
    ensures
        r == is_white_space(c),
{
    let u = c as u32;
    (0x09 <= u && u <= 0x0d) || u == 0x20 || u == 0x85 || u == 0xa0 || u == 0x1680 || (0x2000
        <= u && u <= 0x200a) || u == 0x2028 || u == 0x2029 || u == 0x202f || u == 0x205f || u
        == 0x3000
}

/// Number of white-space characters at the front of `s`.
pub open spec fn leading_white_space(s: Seq<char>) -> int
    decreases s.len(),
{
    if s.len() == 0 {
        0
    } else if is_white_space(s[0]) {
        1 + leading_white_space(s.drop_first())
    } else {
        0
    }
}

/// Number of white-space characters at the end of `s`.
pub open spec fn trailing_white_space(s: Seq<char>) -> int
    decreases s.len(),
{
    if s.len() == 0 {
        0
    } else if is_white_space(s.last()) {
        1 + trailing_white_space(s.drop_last())
    } else {
        0
    }
}

/// `s` without its leading and trailing white space.
pub open spec fn trimmed(s: Seq<char>) -> Seq<char> {
    let rest = s.subrange(leading_white_space(s), s.len() as int);
    rest.subrange(0, rest.len() - trailing_white_space(rest))
}

proof fn lemma_leading_white_space(s: Seq<char>, i: int)
    requires
        0 <= i <= s.len(),
        forall|k: int| 0 <= k < i ==> is_white_space(#[trigger] s[k]),
        i == s.len() || !is_white_space(s[i]),
    ensures
        leading_white_space(s) == i,
    decreases i,
{
    if i > 0 {
        let t = s.drop_first();
        assert forall|k: int| 0 <= k < i - 1 implies is_white_space(#[trigger] t[k]) by {
            assert(t[k] == s[k + 1]);
        }
        lemma_leading_white_space(t, i - 1);
    }
}

proof fn lemma_trailing_white_space(s: Seq<char>, i: int)
    requires
        0 <= i <= s.len(),
        forall|k: int| i <= k < s.len() ==> is_white_space(#[trigger] s[k]),
        i == 0 || !is_white_space(s[i - 1]),
    ensures
        trailing_white_space(s) == s.len() - i,
    decreases s.len() - i,
{
    if i < s.len() {
        let t = s.drop_last();
        assert forall|k: int| i <= k < t.len() implies is_white_space(#[trigger] t[k]) by {
            assert(t[k] == s[k]);
        }
        lemma_trailing_white_space(t, i);
    }
}

/// `str::trim`: removes leading and trailing white space.
pub fn trim(s: &str) -> (r: &str)
    ensures
        r@ == trimmed(s@),
{
    let n = s.unicode_len();
    let mut a: usize = 0;
    while a < n && white_space(s.get_char(a))
        invariant
            n == s@.len(),
            a <= n,
            forall|k: int| 0 <= k < a ==> is_white_space(#[trigger] s@[k]),
        decreases n - a,
    {
        a = a + 1;
    }
    let mut z: usize = n;
    while z > a && white_space(s.get_char(z - 1))
        invariant
            n == s@.len(),
            a <= z <= n,
            forall|k: int| z <= k < n ==> is_white_space(#[trigger] s@[k]),
        decreases z,
    {
        z = z - 1;
    }
    proof {
        lemma_leading_white_space(s@, a as int);
        let rest = s@.subrange(a as int, n as int);
        assert forall|k: int| z - a <= k < rest.len() implies is_white_space(#[trigger] rest[k]) by {
            assert(rest[k] == s@[k + a]);
        }
        lemma_trailing_white_space(rest, z - a);
        assert(rest.subrange(0, z - a) =~= s@.subrange(a as int, z as int));
    }
    s.substring_char(a, z)
}

/// Whether `a` and `b` hold the same characters.
pub fn same_text(a: &str, b: &str) -> (r: bool)
    ensures
        r == (a@ == b@),
{
    let n = a.unicode_len();
    if n != b.unicode_len() {
        return false;
    }
    let mut i: usize = 0;
    while i < n
        invariant
            n == a@.len(),
            n == b@.len(),
            i <= n,
            forall|k: int| 0 <= k < i ==> a@[k] == b@[k],
        decreases n - i,
    {
        if a.get_char(i) != b.get_char(i) {
            return false;
        }
        i = i + 1;
    }
    assert(a@ =~= b@);
    true
}

/// Whether `c` occurs in `s`.
pub fn contains_char(s: &str, c: char) -> (r: bool)
    ensures
        r == s@.contains(c),
{
    let n = s.unicode_len();
    let mut i: usize = 0;
    while i < n
        invariant
            n == s@.len(),
            i <= n,
            forall|k: int| 0 <= k < i ==> s@[k] != c,
        decreases n - i,
    {
        if s.get_char(i) == c {
            assert(s@[i as int] == c);
            return true;
        }
        i = i + 1;
    }
    false
}

/// `s` with every occurrence of `c` removed.
pub open spec fn without_char(s: Seq<char>, c: char) -> Seq<char>
    decreases s.len(),
{
    if s.len() == 0 {
        s
    } else if s.last() == c {
        without_char(s.drop_last(), c)
    } else {
        without_char(s.drop_last(), c).push(s.last())
    }
}

/// `String::push`.
#[verifier::external_body]
pub(crate) fn push_char(s: &mut String, c: char)
    ensures
        final(s)@ == old(s)@.push(c),
{
    s.push(c);
}

/// `s.replace(c, "")` for a single character `c`.
pub fn remove_char(s: &str, c: char) -> (r: String)
    ensures
        r@ == without_char(s@, c),
{
    let n = s.unicode_len();
    let mut out = String::new();
    let mut i: usize = 0;
    while i < n
        invariant
            n == s@.len(),
            i <= n,
            out@ == without_char(s@.subrange(0, i as int), c),
        decreases n - i,
    {
        let x = s.get_char(i);
        proof {
            let t = s@.subrange(0, i + 1);
            assert(t.drop_last() =~= s@.subrange(0, i as int));
            assert(t.last() == x);
        }
        if x != c {
            push_char(&mut out, x);
        }
        i = i + 1;
    }
    assert(s@.subrange(0, n as int) =~= s@);
    out
}

/// Index of the first `c` in `s`.
pub open spec fn first_index_of(s: Seq<char>, c: char) -> Option<int>
    decreases s.len(),
{
    if s.len() == 0 {
        None
    } else if s[0] == c {
        Some(0)
    } else {
        match first_index_of(s.drop_first(), c) {
            Some(i) => Some(i + 1),
            None => None,
        }
    }
}

/// The pieces of `s` between occurrences of `sep` (as `str::split` with a `char`).
pub open spec fn split_spec(s: Seq<char>, sep: char) -> Seq<Seq<char>>
    decreases s.len(),
{
    match first_index_of(s, sep) {
        Some(i) => if 0 <= i < s.len() {
            seq![s.subrange(0, i)] + split_spec(s.subrange(i + 1, s.len() as int), sep)
        } else {
            seq![s]
        },
        None => seq![s],
    }
}

/// The pieces put back together, `sep` between each two.
pub open spec fn join_spec(parts: Seq<Seq<char>>, sep: char) -> Seq<char>
    decreases parts.len(),
{
    if parts.len() == 0 {
        Seq::empty()
    } else if parts.len() == 1 {
        parts[0]
    } else {
        parts[0] + seq![sep] + join_spec(parts.drop_first(), sep)
    }
}

/// The text of each piece.
pub open spec fn views(parts: Seq<&str>) -> Seq<Seq<char>> {
    parts.map_values(|p: &str| p@)
}

/// Where `first_index_of` finds `c`.
pub proof fn lemma_first_index_of(s: Seq<char>, c: char, i: int)
    requires
        0 <= i <= s.len(),
        forall|k: int| 0 <= k < i ==> s[k] != c,
    ensures
        i < s.len() && s[i] == c ==> first_index_of(s, c) == Some(i),
        i == s.len() ==> first_index_of(s, c) is None,
    decreases i,
{
    if i > 0 {
        lemma_first_index_of(s.drop_first(), c, i - 1);
    }
}

/// `first_index_of` gives an index of `c`, before which there is none.
pub proof fn lemma_first_index_of_found(s: Seq<char>, c: char)
    ensures
        first_index_of(s, c) matches Some(i) ==> 0 <= i < s.len() && s[i] == c && forall|k: int|
            0 <= k < i ==> s[k] != c,
        first_index_of(s, c) is None ==> !s.contains(c),
    decreases s.len(),
{
    if s.len() > 0 {
        lemma_first_index_of_found(s.drop_first(), c);
        if let Some(i) = first_index_of(s, c) {
            assert forall|k: int| 0 <= k < i implies s[k] != c by {
                if k > 0 {
                    assert(s.drop_first()[k - 1] == s[k]);
                }
            }
        } else {
            assert forall|k: int| 0 <= k < s.len() implies s[k] != c by {
                if k > 0 {
                    assert(s.drop_first()[k - 1] == s[k]);
                }
            }
        }
    }
}

/// `str::split` on a single character.
pub fn split_on<'a>(s: &'a str, sep: char) -> (r: Vec<&'a str>)
    ensures
        views(r@) == split_spec(s@, sep),
{
    let n = s.unicode_len();
    let mut out: Vec<&'a str> = Vec::new();
    let mut start: usize = 0;
    let mut i: usize = 0;
    assert(s@.subrange(0, n as int) =~= s@);
    assert(views(out@) + split_spec(s@, sep) =~= split_spec(s@, sep));
    while i < n
        invariant
            n == s@.len(),
            start <= i <= n,
            forall|k: int| start <= k < i ==> s@[k] != sep,
            split_spec(s@, sep) == views(out@) + split_spec(s@.subrange(start as int, n as int), sep),
        decreases n - i,
    {
        if s.get_char(i) == sep {
            let piece = s.substring_char(start, i);
            proof {
                let t = s@.subrange(start as int, n as int);
                lemma_first_index_of(t, sep, i - start);
                assert(t.subrange(0, i - start) =~= piece@);
                assert(t.subrange(i - start + 1, t.len() as int) =~= s@.subrange(i + 1, n as int));
                assert(views(out@.push(piece)) =~= views(out@).push(piece@));
                assert(views(out@) + split_spec(t, sep) =~= views(out@.push(piece))
                    + split_spec(s@.subrange(i + 1, n as int), sep));
            }
            out.push(piece);
            start = i + 1;
        }
        i = i + 1;
    }
    let last = s.substring_char(start, n);
    proof {
        let t = s@.subrange(start as int, n as int);
        lemma_first_index_of(t, sep, t.len() as int);
        assert(views(out@.push(last)) =~= views(out@).push(last@));
        assert(views(out@) + split_spec(t, sep) =~= views(out@.push(last)));
    }
    out.push(last);
    out
}


/// Splitting at `sep` and joining the pieces back with `sep` gives the text
/// back, and no piece holds `sep`: a split loses nothing and cuts at every
/// separator.
pub proof fn lemma_split_join(s: Seq<char>, sep: char)
    ensures
        join_spec(split_spec(s, sep), sep) == s,
        forall|i: int|
            0 <= i < split_spec(s, sep).len() ==> !(#[trigger] split_spec(s, sep)[i]).contains(sep),
    decreases s.len(),
{
    lemma_first_index_of_found(s, sep);
    match first_index_of(s, sep) {
        Some(i) => {
            let head = s.subrange(0, i);
            let rest = s.subrange(i + 1, s.len() as int);
            lemma_split_join(rest, sep);
            let parts = split_spec(rest, sep);
            let all = seq![head] + parts;
            assert(all.drop_first() =~= parts);
            assert(s =~= head + seq![sep] + rest);
            assert forall|k: int| 0 <= k < all.len() implies !(#[trigger] all[k]).contains(sep) by {
                if k == 0 {
                    if head.contains(sep) {
                        let j = choose|j: int| 0 <= j < head.len() && head[j] == sep;
                        assert(s[j] == sep);
                    }
                } else {
                    assert(all[k] == parts[k - 1]);
                }
            }
        },
        None => {},
    }
}


/// ASCII upper-case letters turned to lower case; other characters kept.
pub open spec fn ascii_lower(c: char) -> char {
    if 'A' <= c <= 'Z' {
        ((c as u32) + 32) as char
    } else {
        c
    }
}

/// `s` with `ascii_lower` applied to each character.
pub open spec fn lowered(s: Seq<char>) -> Seq<char> {
    s.map_values(|c: char| ascii_lower(c))
}

/// `str::to_ascii_lowercase`.
pub fn to_ascii_lower(s: &str) -> (r: String)
    ensures
        r@ == lowered(s@),
{
    let n = s.unicode_len();
    let mut out = String::new();
    let mut i: usize = 0;
    while i < n
        invariant
            n == s@.len(),
            i <= n,
            out@ == lowered(s@.subrange(0, i as int)),
        decreases n - i,
    {
        let c = s.get_char(i);
        let l = if 'A' <= c && c <= 'Z' {
            ((c as u8) + 32) as char
        } else {
            c
        };
        assert(lowered(s@.subrange(0, i + 1)) =~= lowered(s@.subrange(0, i as int)).push(l));
        push_char(&mut out, l);
        i = i + 1;
    }
    assert(s@.subrange(0, n as int) =~= s@);
    out
}


proof fn lemma_width_is_encoding_length(c: char)
    ensures
        encode_scalar(c as u32).len() == utf8_width(c),
{
    char_is_scalar(c);
}

proof fn lemma_byte_offset_shift(s: Seq<char>, j: int)
    requires
        0 <= j < s.len(),
    ensures
        byte_offset(s, j + 1) == utf8_width(s[0]) + byte_offset(s.drop_first(), j),
    decreases j,
{
    if j > 0 {
        lemma_byte_offset_shift(s, j - 1);
        assert(s.drop_first()[j - 1] == s[j]);
    } else {
        assert(byte_offset(s, 0) == 0);
    }
}

proof fn lemma_byte_offset_prefix(s: Seq<char>, j: int, k: int)
    requires
        0 <= j <= k <= s.len(),
    ensures
        byte_offset(s, j) == byte_offset(s.subrange(0, k), j),
    decreases j,
{
    if j > 0 {
        lemma_byte_offset_prefix(s, j - 1, k);
        assert(s.subrange(0, k)[j - 1] == s[j - 1]);
    }
}

/// The byte offsets used here are those of the UTF-8 encoding that `str`
/// has: character `j` starts after the encoding of the characters before it.
pub proof fn lemma_byte_offset_is_encoding_length(s: Seq<char>, j: int)
    requires
        0 <= j <= s.len(),
    ensures
        byte_offset(s, j) == encode_utf8(s.subrange(0, j)).len(),
    decreases s.len(),
{
    lemma_byte_offset_prefix(s, j, j);
    let t = s.subrange(0, j);
    if j > 0 {
        lemma_byte_offset_shift(t, j - 1);
        lemma_width_is_encoding_length(t[0]);
        lemma_byte_offset_is_encoding_length(t.drop_first(), j - 1);
        assert(t.drop_first().subrange(0, j - 1) =~= t.drop_first());
    }
}

} // verus!
