//! Characters, lines and small text transformations shared by every check.

use vstd::prelude::*;

verus! {

/// Whether `c` is whitespace: one of the 25 characters to which Unicode gives the
/// `White_Space` property.
pub open spec fn white_space(c: char) -> bool {
    let v = c as u32;
    ||| 0x09 <= v <= 0x0D
    ||| v == 0x20
    ||| v == 0x85
    ||| v == 0xA0
    ||| v == 0x1680
    ||| 0x2000 <= v <= 0x200A
    ||| v == 0x2028
    ||| v == 0x2029
    ||| v == 0x202F
    ||| v == 0x205F
    ||| v == 0x3000
}

/// Whether `c` is a control code: one of the 65 characters of Unicode's general category
/// `Cc`, which are U+0000 to U+001F and U+007F to U+009F.
pub open spec fn control_code(c: char) -> bool {
    let v = c as u32;
    v <= 0x1F || 0x7F <= v <= 0x9F
}

/// `char::is_whitespace` tells whether the character has Unicode's `White_Space` property.
/// That these are the characters of [`white_space`] is taken from the Unicode character
/// database and not proved here.
pub assume_specification[ char::is_whitespace ](c: char) -> (r: bool)
    ensures
        r == white_space(c),
;

/// `char::is_control` tells whether the character has the general category `Cc`. That
/// these are the characters of [`control_code`] is taken from the Unicode character
/// database, which never changes that category, and not proved here.
pub assume_specification[ char::is_control ](c: char) -> (r: bool)
    ensures
        r == control_code(c),
;

/// `String::push` appends one character to the end of the string.
pub assume_specification[ String::push ](s: &mut String, c: char)
    ensures
        final(s)@ == old(s)@.push(c),
;

/// The least index below `n` at which `p` holds, or `n` when it holds nowhere below `n`.
pub open spec fn first_index(n: nat, p: spec_fn(int) -> bool) -> nat
    decreases n,
{
    if n == 0 {
        0
    } else {
        let k = first_index((n - 1) as nat, p);
        if k < n - 1 {
            k
        } else if p(n - 1) {
            (n - 1) as nat
        } else {
            n
        }
    }
}

/// `first_index(n, p)` is at most `n`, `p` fails everywhere below it, and `p` holds at it
/// when it is below `n`.
pub proof fn lemma_first_index(n: nat, p: spec_fn(int) -> bool)
    ensures
        first_index(n, p) <= n,
        forall|j: int| 0 <= j < first_index(n, p) ==> !#[trigger] p(j),
        first_index(n, p) < n ==> p(first_index(n, p) as int),
    decreases n,
{
    if n > 0 {
        lemma_first_index((n - 1) as nat, p);
    }
}

/// An index of which the three statements of [`lemma_first_index`] hold is
/// `first_index(n, p)`.
pub proof fn lemma_first_index_is(n: nat, p: spec_fn(int) -> bool, k: int)
    requires
        0 <= k <= n,
        forall|j: int| 0 <= j < k ==> !#[trigger] p(j),
        k < n ==> p(k),
    ensures
        first_index(n, p) == k,
{
    lemma_first_index(n, p);
}

/// The characters of `text`, in order.
pub fn chars_of(text: &str) -> (chars: Vec<char>)
    ensures
        chars@ == text@,
{
    let mut chars: Vec<char> = Vec::new();
    for c in it: text.chars()
        invariant
            it.seq() == text@,
            chars@ == text@.take(it.index() as int),
    {
        chars.push(c);
    }
    chars
}

/// Appends `chars` to `s`.
pub fn push_chars(s: &mut String, chars: &[char])
    ensures
        final(s)@ == old(s)@ + chars@,
{
    let mut i: usize = 0;
    while i < chars.len()
        invariant
            i <= chars.len(),
            s@ == old(s)@ + chars@.take(i as int),
        decreases chars.len() - i,
    {
        s.push(chars[i]);
        i += 1;
    }
}

/// The string made of `chars`, in order.
pub fn string_of(chars: &[char]) -> (s: String)
    ensures
        s@ == chars@,
{
    let mut s = String::new();
    push_chars(&mut s, chars);
    s
}

/// A character that ends a line: carriage return or line feed.
pub open spec fn is_eol(c: char) -> bool {
    c == '\r' || c == '\n'
}

/// A character that the trailing-space check strips: an end-of-line character, a space or a tab.
pub open spec fn is_eol_or_blank(c: char) -> bool {
    c == '\r' || c == '\n' || c == ' ' || c == '\t'
}

/// The length of what is left of `s` once every trailing character that satisfies `strip`
/// is taken away.
pub open spec fn kept_len(s: Seq<char>, strip: spec_fn(char) -> bool) -> nat
    decreases s.len(),
{
    if s.len() > 0 && strip(s.last()) {
        kept_len(s.drop_last(), strip)
    } else {
        s.len()
    }
}

/// `kept_len` cuts off a run of stripped characters and stops at a kept one.
pub proof fn lemma_kept_len(s: Seq<char>, strip: spec_fn(char) -> bool)
    ensures
        kept_len(s, strip) <= s.len(),
        forall|j: int| kept_len(s, strip) <= j < s.len() ==> strip(#[trigger] s[j]),
        kept_len(s, strip) > 0 ==> !strip(s[kept_len(s, strip) - 1]),
    decreases s.len(),
{
    if s.len() > 0 && strip(s.last()) {
        let t = s.drop_last();
        lemma_kept_len(t, strip);
        assert forall|j: int| kept_len(s, strip) <= j < s.len() implies strip(
            #[trigger] s[j],
        ) by {
            if j < t.len() {
                assert(strip(t[j]));
            }
        }
    }
}

/// A length of which the three statements of [`lemma_kept_len`] hold is
/// `kept_len(s, strip)`.
pub proof fn lemma_kept_len_is(s: Seq<char>, strip: spec_fn(char) -> bool, n: int)
    requires
        0 <= n <= s.len(),
        forall|j: int| n <= j < s.len() ==> strip(#[trigger] s[j]),
        n > 0 ==> !strip(s[n - 1]),
    ensures
        kept_len(s, strip) == n,
    decreases s.len(),
{
    if n < s.len() {
        let t = s.drop_last();
        assert(strip(s[s.len() - 1]));
        assert forall|j: int| n <= j < t.len() implies strip(#[trigger] t[j]) by {
            assert(strip(s[j]));
        }
        lemma_kept_len_is(t, strip, n);
    }
}

/// The line without its trailing carriage returns and line feeds.
pub open spec fn trim_eol(line: Seq<char>) -> Seq<char> {
    line.take(kept_len(line, |c: char| is_eol(c)) as int)
}

/// The line without its trailing end-of-line characters, spaces and tabs.
pub open spec fn trim_eol_and_blanks(line: Seq<char>) -> Seq<char> {
    line.take(kept_len(line, |c: char| is_eol_or_blank(c)) as int)
}

/// The length of the line without its trailing carriage returns and line feeds.
pub fn trimmed_len(line: &[char]) -> (n: usize)
    ensures
        n == trim_eol(line@).len(),
        n <= line@.len(),
        trim_eol(line@) == line@.take(n as int),
{
    let mut n: usize = line.len();
    while n > 0 && (line[n - 1] == '\r' || line[n - 1] == '\n')
        invariant
            n <= line.len(),
            forall|j: int| n <= j < line@.len() ==> is_eol(#[trigger] line@[j]),
        decreases n,
    {
        n -= 1;
    }
    proof {
        let strip = |c: char| is_eol(c);
        assert forall|j: int| n <= j < line@.len() implies strip(#[trigger] line@[j]) by {
            assert(is_eol(line@[j]));
        }
        lemma_kept_len_is(line@, strip, n as int);
    }
    n
}

/// The length of the line without its trailing end-of-line characters, spaces and tabs.
pub fn unpadded_len(line: &[char]) -> (n: usize)
    ensures
        n == trim_eol_and_blanks(line@).len(),
        n <= trim_eol(line@).len(),
{
    let mut n: usize = line.len();
    while n > 0 && (line[n - 1] == '\r' || line[n - 1] == '\n' || line[n - 1] == ' ' || line[n
        - 1] == '\t')
        invariant
            n <= line.len(),
            forall|j: int| n <= j < line@.len() ==> is_eol_or_blank(#[trigger] line@[j]),
        decreases n,
    {
        n -= 1;
    }
    proof {
        let strip = |c: char| is_eol_or_blank(c);
        assert forall|j: int| n <= j < line@.len() implies strip(#[trigger] line@[j]) by {
            assert(is_eol_or_blank(line@[j]));
        }
        lemma_kept_len_is(line@, strip, n as int);
        let eol = |c: char| is_eol(c);
        lemma_kept_len(line@, eol);
        if n > kept_len(line@, eol) {
            assert(eol(line@[n - 1]));
        }
    }
    n
}

/// The text with every tab replaced by one space, so that character positions are the same
/// in both.
pub open spec fn retab(s: Seq<char>) -> Seq<char> {
    s.map_values(|c: char| if c == '\t' { ' ' } else { c })
}

/// Appends `chars` to `out`, with every tab replaced by one space.
pub fn push_retabbed(out: &mut Vec<char>, chars: &[char])
    ensures
        final(out)@ == old(out)@ + retab(chars@),
{
    let mut i: usize = 0;
    while i < chars.len()
        invariant
            i <= chars.len(),
            out@ == old(out)@ + retab(chars@.take(i as int)),
        decreases chars.len() - i,
    {
        let c = chars[i];
        out.push(if c == '\t' { ' ' } else { c });
        i += 1;
        assert(retab(chars@.take(i as int)) == retab(chars@.take(i - 1)).push(
            if c == '\t' { ' ' } else { c }));
    }
    assert(chars@.take(chars@.len() as int) == chars@);
}

/// Appends `chars` to `s`, with every tab replaced by one space.
pub fn append_retabbed(s: &mut String, chars: &[char])
    ensures
        final(s)@ == old(s)@ + retab(chars@),
{
    let mut i: usize = 0;
    while i < chars.len()
        invariant
            i <= chars.len(),
            s@ == old(s)@ + retab(chars@.take(i as int)),
        decreases chars.len() - i,
    {
        let c = chars[i];
        s.push(if c == '\t' { ' ' } else { c });
        i += 1;
        assert(retab(chars@.take(i as int)) == retab(chars@.take(i - 1)).push(
            if c == '\t' { ' ' } else { c }));
    }
    assert(chars@.take(chars@.len() as int) == chars@);
}

/// The line as a string, with every tab replaced by one space.
pub fn retabbed_string(chars: &[char]) -> (s: String)
    ensures
        s@ == retab(chars@),
{
    let mut s = String::new();
    append_retabbed(&mut s, chars);
    s
}

/// The character that writes the digit `d`.
pub open spec fn digit(d: nat) -> char
    recommends
        d < 10,
{
    (('0' as u8) + d) as char
}

/// The decimal numeral of `n`, without sign or leading zeros.
pub open spec fn decimal(n: nat) -> Seq<char>
    decreases n,
{
    if n < 10 {
        seq![digit(n)]
    } else {
        decimal(n / 10).push(digit(n % 10))
    }
}

/// Appends the decimal numeral of `n` to `s`.
pub fn push_decimal(s: &mut String, n: u128)
    ensures
        final(s)@ == old(s)@ + decimal(n as nat),
    decreases n,
{
    if n >= 10 {
        push_decimal(s, n / 10);
    }
    let d: u8 = (n % 10) as u8;
    s.push((48u8 + d) as char);
    assert(s@ == old(s)@ + decimal(n as nat));
}

/// The length of the first line of a text that is not empty: up to and with its first line
/// feed, or the whole text where it holds none.
pub open spec fn first_line_len(text: Seq<char>) -> nat {
    let k = first_index(text.len(), |i: int| text[i] == '\n');
    if k < text.len() {
        k + 1
    } else {
        text.len()
    }
}

/// The lines of a text. Each line keeps its line feed; only the last one may lack it, and no
/// line is empty.
pub open spec fn split_lines(text: Seq<char>) -> Seq<Seq<char>>
    decreases text.len(),
{
    if text.len() == 0 {
        Seq::empty()
    } else {
        let n = first_line_len(text);
        seq![text.take(n as int)] + split_lines(text.skip(n as int))
    }
}

/// What each vector of `lines` holds.
pub open spec fn lines_view(lines: Seq<Vec<char>>) -> Seq<Seq<char>> {
    lines.map_values(|l: Vec<char>| l@)
}

/// Every line of a text is non-empty, and a line feed can only be a line's last character.
pub proof fn lemma_split_lines(text: Seq<char>)
    ensures
        forall|i: int|
            0 <= i < split_lines(text).len() ==> (#[trigger] split_lines(text)[i]).len() > 0,
        forall|i: int, j: int|
            0 <= i < split_lines(text).len() && 0 <= j < split_lines(text)[i].len() - 1
                ==> #[trigger] split_lines(text)[i][j] != '\n',
        forall|i: int|
            0 <= i < split_lines(text).len() - 1 ==> (#[trigger] split_lines(text)[i]).last()
                == '\n',
    decreases text.len(),
{
    if text.len() > 0 {
        let p = |i: int| text[i] == '\n';
        let n = first_line_len(text);
        lemma_first_index(text.len(), p);
        let rest = split_lines(text.skip(n as int));
        lemma_split_lines(text.skip(n as int));
        let all = split_lines(text);
        assert(all == seq![text.take(n as int)] + rest);
        assert forall|i: int| 0 <= i < all.len() implies (#[trigger] all[i]).len() > 0 by {
            if i > 0 {
                assert(all[i] == rest[i - 1]);
            }
        }
        assert forall|i: int, j: int| 0 <= i < all.len() && 0 <= j < all[i].len() - 1 implies
            #[trigger] all[i][j] != '\n' by {
            if i > 0 {
                assert(all[i] == rest[i - 1]);
            } else {
                assert(!p(j));
            }
        }
        assert forall|i: int| 0 <= i < all.len() - 1 implies (#[trigger] all[i]).last()
            == '\n' by {
            if i > 0 {
                assert(all[i] == rest[i - 1]);
            } else {
                assert(rest.len() > 0);
                assert(n < text.len());
                assert(p(n - 1));
            }
        }
    }
}

/// Splits a text into its lines.
pub fn split_into_lines(text: &[char]) -> (lines: Vec<Vec<char>>)
    ensures
        lines_view(lines@) == split_lines(text@),
{
    let mut lines: Vec<Vec<char>> = Vec::new();
    let mut start: usize = 0;
    assert(text@.skip(0) == text@);
    while start < text.len()
        invariant
            start <= text.len(),
            lines_view(lines@) + split_lines(text@.skip(start as int)) == split_lines(text@),
        decreases text.len() - start,
    {
        let ghost rest = text@.skip(start as int);
        let ghost p = |i: int| rest[i] == '\n';
        let mut line: Vec<char> = Vec::new();
        let mut end: usize = start;
        let mut found: bool = false;
        while end < text.len() && !found
            invariant
                start <= end <= text.len(),
                rest == text@.skip(start as int),
                line@ == text@.subrange(start as int, end as int),
                found ==> end > start && text@[end - 1] == '\n',
                forall|j: int| start <= j < end - 1 ==> text@[j] != '\n',
                !found && end > start ==> text@[end - 1] != '\n',
            decreases text.len() - end,
        {
            let c = text[end];
            line.push(c);
            end += 1;
            if c == '\n' {
                found = true;
            }
        }
        proof {
            let k: int = if found { end - start - 1 } else { end - start };
            assert forall|j: int| 0 <= j < k implies !#[trigger] p(j) by {
                assert(rest[j] == text@[start + j]);
            }
            if found {
                assert(rest[k] == text@[start + k]);
            }
            lemma_first_index_is(rest.len(), p, k);
            assert(first_line_len(rest) == end - start);
            assert(rest.take(end - start) == line@);
            assert(rest.skip(end - start) == text@.skip(end as int));
            assert(lines_view(lines@.push(line)) == lines_view(lines@).push(line@));
            assert(split_lines(rest) == seq![line@] + split_lines(text@.skip(end as int)));
            assert(lines_view(lines@).push(line@) + split_lines(text@.skip(end as int))
                == lines_view(lines@) + split_lines(rest));
        }
        lines.push(line);
        start = end;
    }
    assert(split_lines(text@.skip(start as int)) == Seq::<Seq<char>>::empty());
    assert(lines_view(lines@) + Seq::<Seq<char>>::empty() == lines_view(lines@));
    lines
}

/// Whether two strings hold the same characters.
pub fn same_text(a: &str, b: &str) -> (same: bool)
    ensures
        same == (a@ == b@),
{
    let x = chars_of(a);
    let y = chars_of(b);
    if x.len() != y.len() {
        return false;
    }
    let mut i: usize = 0;
    while i < x.len()
        invariant
            i <= x.len(),
            x.len() == y.len(),
            x@ == a@,
            y@ == b@,
            forall|j: int| 0 <= j < i ==> x@[j] == y@[j],
        decreases x.len() - i,
    {
        if x[i] != y[i] {
            return false;
        }
        i += 1;
    }
    assert(x@ =~= y@);
    true
}

} // verus!
