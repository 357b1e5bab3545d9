//! Display widths and positions: from characters to columns, and from lines and columns to
//! offsets in a snippet.

use crate::text::{chars_of, first_index, lemma_first_index, lemma_first_index_is, white_space};
use unicode_width::UnicodeWidthChar;
use vstd::prelude::*;
use vstd::string::StringSliceAdditionalSpecFns;
use vstd::utf8::{encode_scalar, encode_utf8};

verus! {

/// The number of columns that the `unicode-width` crate measures for `c`: what
/// `UnicodeWidthChar::width` returns, `None` for a control character.
pub uninterp spec fn unicode_width(c: char) -> Option<usize>;

/// Calls `UnicodeWidthChar::width` of the `unicode-width` crate, which looks the character
/// up in the crate's tables. Nothing is proved of the tables: the answer is only given the
/// name [`unicode_width`].
#[verifier::external_body]
fn measured_width(c: char) -> (w: Option<usize>)
    ensures
        w == unicode_width(c),
{
    UnicodeWidthChar::width(c)
}

/// The number of columns that a tab takes, and the most that any character counts for.
pub const TAB_COLUMNS: usize = 4;

/// The number of columns that one character takes on a terminal: 4 for a tab, otherwise the
/// measured width, 0 for a character without one. No character counts for more than a tab
/// (`unicode-width` measures 3 columns at most), which is what lets a check on the length
/// of a line stand in for a measurement of a short one.
pub open spec fn columns(c: char) -> nat {
    if c == '\t' {
        4
    } else {
        match unicode_width(c) {
            Some(w) => if w <= 4 {
                w as nat
            } else {
                4
            },
            None => 0,
        }
    }
}

/// The display width of a text: the sum of the columns of its characters.
pub open spec fn width_of(s: Seq<char>) -> nat
    decreases s.len(),
{
    if s.len() == 0 {
        0
    } else {
        width_of(s.drop_last()) + columns(s.last())
    }
}

/// The index of the character at which the display width, summed from the left, first
/// exceeds `limit`; the number of characters where it never does.
pub open spec fn col_at_width(s: Seq<char>, limit: nat) -> nat {
    first_index(s.len(), |i: int| width_of(s.take(i + 1)) > limit)
}

/// The index of the first character that is not whitespace, if there is one.
pub open spec fn first_non_space(s: Seq<char>) -> Option<nat> {
    let k = first_index(s.len(), |i: int| !white_space(s[i]));
    if k < s.len() {
        Some(k)
    } else {
        None
    }
}

/// A text is at most 4 columns wide per character.
pub proof fn lemma_width_bound(s: Seq<char>)
    ensures
        width_of(s) <= 4 * s.len(),
    decreases s.len(),
{
    if s.len() > 0 {
        lemma_width_bound(s.drop_last());
    }
}

/// A longer prefix of a text is at least as wide as a shorter one.
pub proof fn lemma_width_monotonic(s: Seq<char>, i: int, j: int)
    requires
        0 <= i <= j <= s.len(),
    ensures
        width_of(s.take(i)) <= width_of(s.take(j)),
    decreases j - i,
{
    if i < j {
        lemma_width_monotonic(s, i, j - 1);
        assert(s.take(j).drop_last() == s.take(j - 1));
    }
}

/// A text is wider than `limit` exactly when some character of it is where the width first
/// exceeds `limit`.
pub proof fn lemma_col_at_width(s: Seq<char>, limit: nat)
    ensures
        col_at_width(s, limit) <= s.len(),
        col_at_width(s, limit) < s.len() <==> width_of(s) > limit,
        width_of(s.take(col_at_width(s, limit) as int)) <= limit,
{
    let p = |i: int| width_of(s.take(i + 1)) > limit;
    let k = col_at_width(s, limit);
    lemma_first_index(s.len(), p);
    assert(s.take(s.len() as int) == s);
    if k < s.len() {
        assert(p(k as int));
        lemma_width_monotonic(s, (k + 1) as int, s.len() as int);
    } else if s.len() > 0 {
        assert(!p(s.len() - 1));
    }
    if k > 0 {
        assert(!p(k - 1));
    } else {
        assert(s.take(0).len() == 0);
    }
}

/// The number of columns that `c` takes on a terminal.
pub fn char_columns(c: char) -> (w: usize)
    ensures
        w == columns(c),
        w <= 4,
{
    if c == '\t' {
        TAB_COLUMNS
    } else {
        match measured_width(c) {
            Some(w) => if w <= TAB_COLUMNS {
                w
            } else {
                TAB_COLUMNS
            },
            None => 0,
        }
    }
}

/// The display width of the characters of `line`.
pub fn chars_width(line: &[char]) -> (width: u128)
    ensures
        width == width_of(line@),
{
    let mut width: u128 = 0;
    let mut i: usize = 0;
    assert(line@.take(0).len() == 0);
    while i < line.len()
        invariant
            i <= line.len(),
            width == width_of(line@.take(i as int)),
            width <= 4 * i,
        decreases line.len() - i,
    {
        assert(line@.take(i + 1).drop_last() == line@.take(i as int));
        width = width + char_columns(line[i]) as u128;
        i += 1;
    }
    assert(line@.take(i as int) == line@);
    width
}

/// The index in `line` of the character at which the display width first exceeds `limit`,
/// or the length of `line` where it never does.
pub fn chars_col_at_width(line: &[char], limit: usize) -> (col: usize)
    ensures
        col == col_at_width(line@, limit as nat),
        col <= line@.len(),
{
    let ghost p = |i: int| width_of(line@.take(i + 1)) > limit as nat;
    let mut width: u128 = 0;
    let mut i: usize = 0;
    assert(line@.take(0).len() == 0);
    while i < line.len()
        invariant
            i <= line.len(),
            width == width_of(line@.take(i as int)),
            width <= 4 * i,
            p == |i: int| width_of(line@.take(i + 1)) > limit as nat,
            forall|j: int| 0 <= j < i ==> !#[trigger] p(j),
        decreases line.len() - i,
    {
        assert(line@.take(i + 1).drop_last() == line@.take(i as int));
        width = width + char_columns(line[i]) as u128;
        if width > limit as u128 {
            proof {
                assert(p(i as int));
                lemma_first_index_is(line@.len(), p, i as int);
            }
            return i;
        }
        assert(!p(i as int));
        i += 1;
    }
    proof {
        lemma_first_index_is(line@.len(), p, i as int);
    }
    i
}

/// The index in `line` of the first character that is not whitespace, if there is one.
pub fn chars_first_non_space(line: &[char]) -> (col: Option<usize>)
    ensures
        match col {
            Some(k) => first_non_space(line@) == Some(k as nat),
            None => first_non_space(line@) is None,
        },
{
    let ghost p = |i: int| !white_space(line@[i]);
    let mut i: usize = 0;
    while i < line.len()
        invariant
            i <= line.len(),
            p == |i: int| !white_space(line@[i]),
            forall|j: int| 0 <= j < i ==> !#[trigger] p(j),
        decreases line.len() - i,
    {
        if !line[i].is_whitespace() {
            proof {
                assert(p(i as int));
                lemma_first_index_is(line@.len(), p, i as int);
            }
            return Some(i);
        }
        assert(!p(i as int));
        i += 1;
    }
    proof {
        lemma_first_index_is(line@.len(), p, i as int);
    }
    None
}

/// The display width of `text`: 4 columns for a tab, the measured width, which is never
/// above that, for any other character.
pub fn display_width(text: &str) -> (width: u128)
    ensures
        width == width_of(text@),
{
    let chars = chars_of(text);
    chars_width(chars.as_slice())
}

/// The index of the character of `line` at which the display width, summed from the left,
/// first exceeds `width`, or the number of characters of `line` where it never does. The
/// column is an index in characters, as every column of a diagnostic is.
pub fn byte_col_at_visual_width(line: &str, width: usize) -> (col: usize)
    ensures
        col == col_at_width(line@, width as nat),
        col <= line@.len(),
{
    let chars = chars_of(line);
    chars_col_at_width(chars.as_slice(), width)
}

/// The index of the first character of `source` that is not whitespace; `None` where every
/// character is whitespace.
pub fn find_non_space_col(source: &str) -> (col: Option<usize>)
    ensures
        match col {
            Some(k) => first_non_space(source@) == Some(k as nat),
            None => first_non_space(source@) is None,
        },
{
    let chars = chars_of(source);
    chars_first_non_space(chars.as_slice())
}

/// The number of line feeds in `s`.
pub open spec fn line_feeds(s: Seq<char>) -> nat
    decreases s.len(),
{
    if s.len() == 0 {
        0
    } else {
        line_feeds(s.drop_last()) + if s.last() == '\n' {
            1nat
        } else {
            0nat
        }
    }
}

/// The index of the `k`-th line feed of `s`, counted from 1, or the length of `s` where it
/// holds fewer than `k`.
pub open spec fn nth_line_feed(s: Seq<char>, k: nat) -> nat {
    first_index(s.len(), |i: int| s[i] == '\n' && line_feeds(s.take(i)) + 1 == k)
}

/// The last offset of a snippet, 0 for an empty one.
pub open spec fn last_offset(source: Seq<char>) -> nat {
    if source.len() == 0 {
        0
    } else {
        (source.len() - 1) as nat
    }
}

/// The offset in characters, within a snippet that begins at line `source_lnum`, of column
/// `col` of line `lnum`. A line that the snippet does not reach gives the snippet's last
/// offset.
pub open spec fn char_offset(source: Seq<char>, source_lnum: nat, lnum: nat, col: nat) -> nat {
    if lnum == source_lnum {
        col
    } else if lnum > source_lnum && nth_line_feed(source, (lnum - source_lnum) as nat)
        < source.len() {
        nth_line_feed(source, (lnum - source_lnum) as nat) + 1 + col
    } else {
        last_offset(source)
    }
}

/// The offset of `(lnum, col)` in the characters of a snippet that begins at `source_lnum`.
pub fn chars_coord_to_pos(source: &[char], source_lnum: usize, lnum: usize, col: usize) -> (pos:
    usize)
    ensures
        pos == vstd::math::min(
            char_offset(source@, source_lnum as nat, lnum as nat, col as nat) as int,
            usize::MAX as int,
        ),
{
    if lnum == source_lnum {
        return col;
    }
    if lnum > source_lnum {
        let target: usize = lnum - source_lnum;
        let ghost p = |i: int| source@[i] == '\n' && line_feeds(source@.take(i)) + 1 == target;
        let mut seen: usize = 0;
        let mut i: usize = 0;
        assert(source@.take(0).len() == 0);
        while i < source.len()
            invariant
                i <= source.len(),
                seen == line_feeds(source@.take(i as int)),
                seen < target,
                lnum > source_lnum,
                target == lnum - source_lnum,
                p == |i: int| source@[i] == '\n' && line_feeds(source@.take(i)) + 1 == target,
                forall|j: int| 0 <= j < i ==> !#[trigger] p(j),
            decreases source.len() - i,
        {
            assert(source@.take(i + 1).drop_last() == source@.take(i as int));
            if source[i] == '\n' {
                seen += 1;
                if seen == target {
                    proof {
                        assert(p(i as int));
                        lemma_first_index_is(source@.len(), p, i as int);
                    }
                    if col > usize::MAX - i - 1 {
                        return usize::MAX;
                    }
                    return i + 1 + col;
                }
            }
            assert(!p(i as int));
            i += 1;
        }
        proof {
            lemma_first_index_is(source@.len(), p, i as int);
        }
    }
    if source.len() == 0 {
        0
    } else {
        source.len() - 1
    }
}

/// The offset in characters of `(lnum, col)` within `source`, a snippet that begins at line
/// `source_lnum`: `col` on the snippet's first line, otherwise `col` characters past the line
/// feed that ends line `lnum - 1`. A line outside the snippet gives the snippet's last offset.
/// An offset that does not fit the machine's word is given as the greatest that does.
pub fn coord_to_pos(source: &str, source_lnum: usize, lnum: usize, col: usize) -> (pos: usize)
    ensures
        pos == vstd::math::min(
            char_offset(source@, source_lnum as nat, lnum as nat, col as nat) as int,
            usize::MAX as int,
        ),
{
    let chars = chars_of(source);
    chars_coord_to_pos(chars.as_slice(), source_lnum, lnum, col)
}

/// The number of bytes that `c` takes in UTF-8.
pub fn utf8_len(c: char) -> (n: usize)
    ensures
        n == encode_scalar(c as u32).len(),
        1 <= n <= 4,
{
    let v = c as u32;
    if v < 0x80 {
        1
    } else if v < 0x800 {
        2
    } else if v < 0x10000 {
        3
    } else {
        4
    }
}

/// The encoding of two texts joined is their encodings joined.
pub proof fn lemma_encode_utf8_concat(a: Seq<char>, b: Seq<char>)
    ensures
        encode_utf8(a + b) == encode_utf8(a) + encode_utf8(b),
    decreases a.len(),
{
    if a.len() == 0 {
        assert(a + b == b);
        assert(encode_utf8(a) + encode_utf8(b) == encode_utf8(b));
    } else {
        lemma_encode_utf8_concat(a.drop_first(), b);
        assert((a + b).drop_first() == a.drop_first() + b);
        assert(encode_utf8(a + b) == encode_scalar(a[0] as u32) + (encode_utf8(a.drop_first())
            + encode_utf8(b)));
        assert(encode_scalar(a[0] as u32) + (encode_utf8(a.drop_first()) + encode_utf8(b))
            == (encode_scalar(a[0] as u32) + encode_utf8(a.drop_first())) + encode_utf8(b));
    }
}

/// The first `i + 1` characters of a text take the bytes of the first `i` and those of
/// character `i`; no prefix takes more bytes than the text.
pub proof fn lemma_encode_utf8_prefix(s: Seq<char>, i: int)
    requires
        0 <= i <= s.len(),
    ensures
        encode_utf8(s.take(i)).len() <= encode_utf8(s).len(),
        i < s.len() ==> encode_utf8(s.take(i + 1)).len() == encode_utf8(s.take(i)).len()
            + encode_scalar(s[i] as u32).len(),
{
    lemma_encode_utf8_concat(s.take(i), s.skip(i));
    assert(s.take(i) + s.skip(i) == s);
    if i < s.len() {
        let one = seq![s[i]];
        lemma_encode_utf8_concat(s.take(i), one);
        assert(s.take(i) + one == s.take(i + 1));
        assert(one.drop_first().len() == 0);
        assert(encode_utf8(one) == encode_scalar(s[i] as u32) + encode_utf8(one.drop_first()));
    }
}

/// The offset in bytes, in the UTF-8 form of a text, of the character at offset `pos`; the
/// length in bytes of the text where it holds no such character.
pub open spec fn byte_offset_of(s: Seq<char>, pos: nat) -> nat {
    if pos < s.len() {
        encode_utf8(s.take(pos as int)).len()
    } else {
        encode_utf8(s).len()
    }
}

/// The offset in bytes, within `source`, of the character at offset `pos`, or the length in
/// bytes of `source` where `pos` is at its end or beyond. It turns an offset in characters,
/// as [`coord_to_pos`] gives it, into one that can cut the string.
pub fn byte_offset(source: &str, pos: usize) -> (offset: usize)
    ensures
        offset == byte_offset_of(source@, pos as nat),
        offset <= source.spec_bytes().len(),
{
    let chars = chars_of(source);
    let total = source.as_bytes().len();
    if pos >= chars.len() {
        return total;
    }
    let mut offset: usize = 0;
    let mut i: usize = 0;
    proof {
        assert(chars@.take(0).len() == 0);
    }
    while i < pos
        invariant
            i <= pos < chars.len(),
            chars@ == source@,
            total == encode_utf8(chars@).len(),
            offset == encode_utf8(chars@.take(i as int)).len(),
        decreases pos - i,
    {
        proof {
            lemma_encode_utf8_prefix(chars@, i as int);
            lemma_encode_utf8_prefix(chars@, i + 1);
        }
        offset = offset + utf8_len(chars[i]);
        i += 1;
    }
    proof {
        lemma_encode_utf8_prefix(chars@, pos as int);
    }
    offset
}

} // verus!
