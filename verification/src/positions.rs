//! Every diagnostic that the engine finds points into the text that it shows: both ends of
//! its span, and of each helper's span, are places in that text, and no span ends before
//! it begins.

use crate::lint::{
    blank_state, end_findings, findings, findings_from, line_findings, optional_seq,
    unless_disabled,
};
use crate::rules::{
    conflict_marker, control_char_at, control_chars, control_chars_upto, final_newline,
    first_char, holds_at, is_blank, long_line, mix_indent, trailing_space,
};
use crate::runner::RunnerView;
use crate::text::{
    is_eol, is_eol_or_blank, lemma_first_index, lemma_first_index_is, lemma_kept_len,
    lemma_split_lines, retab, split_lines, trim_eol, white_space,
};
use crate::types::{ConflictMarkerStyle, DiagnosticView, DisableCheck, LintOptions};
use crate::util::{char_offset, lemma_col_at_width, line_feeds, nth_line_feed};
use vstd::prelude::*;

verus! {

impl DiagnosticView {
    /// Whether `(lnum, col)` is a place in the shown text: the line is one of those that
    /// the text holds, and the column is a character of the text.
    pub open spec fn holds(self, lnum: int, col: int) -> bool {
        &&& 0 <= self.source_lnum <= lnum
        &&& 0 <= col
        &&& lnum > self.source_lnum ==> nth_line_feed(
            self.source,
            (lnum - self.source_lnum) as nat,
        ) < self.source.len()
        &&& char_offset(self.source, self.source_lnum as nat, lnum as nat, col as nat)
            < self.source.len()
    }

    /// Whether a span lies in the shown text and does not end before it begins.
    pub open spec fn holds_span(self, lnum: int, col: int, end_lnum: int, end_col: int) -> bool {
        &&& self.holds(lnum, col)
        &&& self.holds(end_lnum, end_col)
        &&& lnum < end_lnum || (lnum == end_lnum && col <= end_col)
    }

    /// Whether the diagnostic's span and the spans of its helpers lie in the shown text.
    pub open spec fn well_formed(self) -> bool {
        &&& self.holds_span(self.lnum, self.col, self.end_lnum, self.end_col)
        &&& self.helpers matches Some(helpers) ==> forall|k: int|
            0 <= k < helpers.len() ==> self.holds_span(
                (#[trigger] helpers[k]).lnum,
                helpers[k].col,
                helpers[k].end_lnum,
                helpers[k].end_col,
            )
    }
}

/// Whether every diagnostic of a sequence is well-formed.
pub open spec fn all_well_formed(ds: Seq<DiagnosticView>) -> bool {
    forall|k: int| 0 <= k < ds.len() ==> (#[trigger] ds[k]).well_formed()
}

/// What holds of the lines of any text: none is empty, a line feed stands only at the end
/// of a line, and every line but the last ends with one.
pub open spec fn proper_lines(lines: Seq<Seq<char>>) -> bool {
    &&& forall|i: int| 0 <= i < lines.len() ==> (#[trigger] lines[i]).len() > 0
    &&& forall|i: int, j: int|
        0 <= i < lines.len() && 0 <= j < lines[i].len() - 1 ==> #[trigger] lines[i][j] != '\n'
    &&& forall|i: int| 0 <= i < lines.len() - 1 ==> (#[trigger] lines[i]).last() == '\n'
}

/// The lines from `a` up to `b`, with tabs replaced by spaces, one after the other.
pub open spec fn joined(lines: Seq<Seq<char>>, a: int, b: int) -> Seq<char>
    decreases b - a,
{
    if b <= a {
        Seq::empty()
    } else {
        joined(lines, a, b - 1) + retab(lines[b - 1])
    }
}

/// The line feeds of two texts joined are those of the one and those of the other.
pub proof fn lemma_line_feeds_concat(a: Seq<char>, b: Seq<char>)
    ensures
        line_feeds(a + b) == line_feeds(a) + line_feeds(b),
    decreases b.len(),
{
    if b.len() == 0 {
        assert(a + b == a);
    } else {
        lemma_line_feeds_concat(a, b.drop_last());
        assert((a + b).drop_last() == a + b.drop_last());
    }
}

/// A prefix of a text holds at most as many line feeds as a longer one.
pub proof fn lemma_line_feeds_monotonic(s: Seq<char>, i: int, j: int)
    requires
        0 <= i <= j <= s.len(),
    ensures
        line_feeds(s.take(i)) <= line_feeds(s.take(j)),
{
    lemma_line_feeds_concat(s.take(i), s.subrange(i, j));
    assert(s.take(i) + s.subrange(i, j) == s.take(j));
}

/// A text without line feed counts none.
pub proof fn lemma_no_line_feeds(s: Seq<char>)
    requires
        forall|j: int| 0 <= j < s.len() ==> s[j] != '\n',
    ensures
        line_feeds(s) == 0,
    decreases s.len(),
{
    if s.len() > 0 {
        lemma_no_line_feeds(s.drop_last());
    }
}

/// Between lines `a` and `b`, none of them the last, stand `b - a` line feeds, and the last
/// character is one of them.
pub proof fn lemma_joined_feeds(lines: Seq<Seq<char>>, a: int, b: int)
    requires
        proper_lines(lines),
        0 <= a <= b <= lines.len() - 1,
    ensures
        line_feeds(joined(lines, a, b)) == b - a,
        b > a ==> joined(lines, a, b).len() > 0 && joined(lines, a, b).last() == '\n',
    decreases b - a,
{
    if b > a {
        lemma_joined_feeds(lines, a, b - 1);
        let line = lines[b - 1];
        let shown = retab(line);
        assert(line.len() > 0);
        assert(line.last() == '\n');
        assert(shown.last() == '\n');
        assert forall|j: int| 0 <= j < shown.drop_last().len() implies shown.drop_last()[j]
            != '\n' by {
            assert(lines[b - 1][j] != '\n');
        }
        lemma_no_line_feeds(shown.drop_last());
        assert(line_feeds(shown) == 1);
        lemma_line_feeds_concat(joined(lines, a, b - 1), shown);
    }
}

/// The lines from `a` up to `b` are those from `a` up to `l` and then those from `l` up to
/// `b`.
pub proof fn lemma_joined_split(lines: Seq<Seq<char>>, a: int, l: int, b: int)
    requires
        a <= l <= b,
    ensures
        joined(lines, a, b) == joined(lines, a, l) + joined(lines, l, b),
    decreases b - l,
{
    if b == l {
        assert(joined(lines, a, l) + joined(lines, l, b) == joined(lines, a, l));
    } else {
        lemma_joined_split(lines, a, l, b - 1);
        assert(joined(lines, a, l) + (joined(lines, l, b - 1) + retab(lines[b - 1])) == (joined(
            lines,
            a,
            l,
        ) + joined(lines, l, b - 1)) + retab(lines[b - 1]));
    }
}

/// Within the lines from `a` up to `b`, line `l` begins right after the line feed that
/// ends line `l - 1`, and each of its characters is a place of the joined text.
pub proof fn lemma_joined_line(lines: Seq<Seq<char>>, a: int, l: int, b: int, col: int)
    requires
        proper_lines(lines),
        0 <= a <= l < b <= lines.len(),
        0 <= col < lines[l].len(),
    ensures
        l > a ==> nth_line_feed(joined(lines, a, b), (l - a) as nat) == joined(lines, a, l).len()
            - 1,
        char_offset(joined(lines, a, b), a as nat, l as nat, col as nat) == joined(
            lines,
            a,
            l,
        ).len() + col,
        joined(lines, a, l).len() + col < joined(lines, a, b).len(),
{
    let src = joined(lines, a, b);
    let head = joined(lines, a, l);
    lemma_joined_split(lines, a, l, b);
    lemma_joined_split(lines, l, l + 1, b);
    assert(joined(lines, l, l + 1) == joined(lines, l, l) + retab(lines[l]));
    assert(joined(lines, l, l).len() == 0);
    assert(retab(lines[l]).len() == lines[l].len());
    if l > a {
        let k = (l - a) as nat;
        let x0 = head.len() - 1;
        lemma_joined_feeds(lines, a, l);
        let p = |i: int| src[i] == '\n' && line_feeds(src.take(i)) + 1 == k;
        assert(src.take(head.len() as int) == head);
        assert(src.take(x0) == head.drop_last());
        assert(src[x0] == head.last());
        assert(p(x0));
        assert forall|x: int| 0 <= x < x0 implies !#[trigger] p(x) by {
            lemma_line_feeds_monotonic(src, x + 1, x0);
            assert(src.take(x + 1).drop_last() == src.take(x));
        }
        lemma_first_index_is(src.len(), p, x0);
    }
}

/// What the check on blank lines carries at line `i`: the text from the last line that was
/// not blank on, that line's last column, and nothing but blank lines after it.
pub proof fn lemma_blank_window(lines: Seq<Seq<char>>, i: int)
    requires
        0 <= i <= lines.len(),
    ensures
        blank_state(lines, i).window == joined(lines, blank_state(lines, i).window_lnum(), i),
        blank_state(lines, i).prev matches Some(p) ==> 0 <= p < i && !is_blank(lines[p])
            && blank_state(lines, i).prev_end_col == trim_eol(lines[p]).len() - 1,
        blank_state(lines, i).blanks_before(i) >= 0,
    decreases i,
{
    if i > 0 {
        lemma_blank_window(lines, i - 1);
        let before = blank_state(lines, i - 1);
        let line = lines[i - 1];
        if !is_blank(line) {
            assert(joined(lines, i - 1, i - 1).len() == 0);
            assert(joined(lines, i - 1, i) == retab(line));
        }
    } else {
        assert(blank_state(lines, 0).window == joined(lines, 0, 0));
    }
}

/// A finding within one line, whose span lies before the end of that line, is well-formed.
pub proof fn lemma_line_finding(d: DiagnosticView, lnum: int, line: Seq<char>)
    requires
        0 <= lnum,
        d.source == retab(line),
        d.source_lnum == lnum,
        d.lnum == lnum,
        d.end_lnum == lnum,
        0 <= d.col <= d.end_col < line.len(),
        d.helpers matches Some(helpers) ==> forall|k: int|
            0 <= k < helpers.len() ==> (#[trigger] helpers[k]).lnum == lnum && helpers[k].end_lnum
                == lnum && 0 <= helpers[k].col <= helpers[k].end_col < line.len(),
    ensures
        d.well_formed(),
{
}

/// Two sequences of well-formed diagnostics, joined, are one.
pub proof fn lemma_all_well_formed_concat(a: Seq<DiagnosticView>, b: Seq<DiagnosticView>)
    requires
        all_well_formed(a),
        all_well_formed(b),
    ensures
        all_well_formed(a + b),
{
    assert forall|k: int| 0 <= k < (a + b).len() implies (#[trigger] (a + b)[k]).well_formed() by {
        if k < a.len() {
            assert((a + b)[k] == a[k]);
        } else {
            assert((a + b)[k] == b[k - a.len()]);
        }
    }
}

/// An optional finding that is well-formed where there is one makes a well-formed sequence,
/// switched off or not.
pub proof fn lemma_optional_well_formed(
    opts: LintOptions,
    check: DisableCheck,
    found: Option<DiagnosticView>,
)
    requires
        found matches Some(d) ==> d.well_formed(),
    ensures
        all_well_formed(unless_disabled(opts, check, optional_seq(found))),
{
}

/// What the check on mixed indentation finds is well-formed.
pub proof fn lemma_mix_indent_well_formed(file: Seq<char>, lnum: int, line: Seq<char>)
    requires
        0 <= lnum,
    ensures
        mix_indent(file, lnum, line) matches Some(d) ==> d.well_formed(),
{
    if let Some(d) = mix_indent(file, lnum, line) {
        let t = trim_eol(line);
        lemma_kept_len(line, |c: char| is_eol(c));
        lemma_first_index(t.len(), holds_at(t, ' '));
        lemma_first_index(t.len(), holds_at(t, '\t'));
        lemma_first_index(t.len(), |k: int| !white_space(t[k]));
        let space = first_char(t, ' ') as int;
        let tab = first_char(t, '\t') as int;
        assert(holds_at(t, ' ')(space));
        assert(holds_at(t, '\t')(tab));
        lemma_line_finding(d, lnum, line);
    }
}

/// What the check on trailing whitespace finds is well-formed.
pub proof fn lemma_trailing_space_well_formed(file: Seq<char>, lnum: int, line: Seq<char>)
    requires
        0 <= lnum,
    ensures
        trailing_space(file, lnum, line) matches Some(d) ==> d.well_formed(),
{
    if let Some(d) = trailing_space(file, lnum, line) {
        lemma_kept_len(line, |c: char| is_eol(c));
        lemma_kept_len(line, |c: char| is_eol_or_blank(c));
        lemma_line_finding(d, lnum, line);
    }
}

/// What the check on conflict markers finds is well-formed.
pub proof fn lemma_conflict_marker_well_formed(
    file: Seq<char>,
    lnum: int,
    line: Seq<char>,
    style: ConflictMarkerStyle,
)
    requires
        0 <= lnum,
    ensures
        conflict_marker(file, lnum, line, style) matches Some(d) ==> d.well_formed(),
{
    if let Some(d) = conflict_marker(file, lnum, line, style) {
        let t = trim_eol(line);
        lemma_kept_len(line, |c: char| is_eol(c));
        lemma_line_finding(d, lnum, line);
    }
}

/// What the check on long lines finds is well-formed.
pub proof fn lemma_long_line_well_formed(file: Seq<char>, lnum: int, line: Seq<char>, limit: nat)
    requires
        0 <= lnum,
    ensures
        long_line(file, lnum, line, limit) matches Some(d) ==> d.well_formed(),
{
    if let Some(d) = long_line(file, lnum, line, limit) {
        lemma_kept_len(line, |c: char| is_eol(c));
        lemma_col_at_width(trim_eol(line), limit);
        lemma_line_finding(d, lnum, line);
    }
}

/// What the check on the final newline finds is well-formed.
pub proof fn lemma_final_newline_well_formed(file: Seq<char>, lnum: int, line: Seq<char>)
    requires
        0 <= lnum,
    ensures
        final_newline(file, lnum, line) matches Some(d) ==> d.well_formed(),
{
    if let Some(d) = final_newline(file, lnum, line) {
        lemma_line_finding(d, lnum, line);
    }
}

/// What the check on blank lines finds at a line is well-formed.
pub proof fn lemma_blank_finding_well_formed(
    file: Seq<char>,
    lines: Seq<Seq<char>>,
    i: int,
    max: nat,
)
    requires
        proper_lines(lines),
        0 <= i < lines.len(),
    ensures
        blank_state(lines, i).finding(file, i, lines[i], max) matches Some(d) ==> d.well_formed(),
{
    let state = blank_state(lines, i);
    let line = lines[i];
    if let Some(d) = state.finding(file, i, line, max) {
        lemma_blank_window(lines, i);
        lemma_kept_len(line, |c: char| is_eol(c));
        let a = state.window_lnum();
        let count = state.blanks_before(i);
        let src = joined(lines, a, i + 1);
        assert(d.source == src);
        lemma_joined_line(lines, a, i - count, i + 1, 0);
        lemma_joined_line(lines, a, i - 1, i + 1, 0);
        lemma_joined_line(lines, a, i, i + 1, 0);
        lemma_joined_line(lines, a, i, i + 1, trim_eol(line).len() - 1);
        assert(d.holds(i - count, 0));
        assert(d.holds(i - 1, 0));
        assert(d.holds(i, 0));
        assert(d.holds(i, trim_eol(line).len() - 1));
        if let Some(p) = state.prev {
            lemma_kept_len(lines[p], |c: char| is_eol(c));
            lemma_joined_line(lines, a, p, i + 1, 0);
            lemma_joined_line(lines, a, p, i + 1, state.prev_end_col);
            assert(d.holds(p, 0));
            assert(d.holds(p, state.prev_end_col));
        }
        let helpers = d.helpers->0;
        assert forall|k: int| 0 <= k < helpers.len() implies d.holds_span(
            (#[trigger] helpers[k]).lnum,
            helpers[k].col,
            helpers[k].end_lnum,
            helpers[k].end_col,
        ) by {}
    }
}

/// What the check on blank lines finds at the end of an input is well-formed.
pub proof fn lemma_blank_end_finding_well_formed(
    file: Seq<char>,
    lines: Seq<Seq<char>>,
    max: nat,
)
    requires
        proper_lines(lines),
        lines.len() > 0,
    ensures
        blank_state(lines, lines.len() as int).end_finding(
            file,
            lines.len() - 1,
            lines[lines.len() - 1],
            max,
        ) matches Some(d) ==> d.well_formed(),
{
    let n = lines.len() as int;
    let last = n - 1;
    let state = blank_state(lines, n);
    if let Some(d) = state.end_finding(file, last, lines[last], max) {
        lemma_blank_window(lines, n);
        let a = state.window_lnum();
        let count = state.blanks_before(last) + 1;
        assert(state.prev matches Some(p) ==> p < last);
        lemma_joined_line(lines, a, last - count + 1, n, 0);
        lemma_joined_line(lines, a, last, n, 0);
        assert(d.holds(last - count + 1, 0));
        assert(d.holds(last, 0));
        if let Some(p) = state.prev {
            lemma_kept_len(lines[p], |c: char| is_eol(c));
            lemma_joined_line(lines, a, p, n, 0);
            lemma_joined_line(lines, a, p, n, state.prev_end_col);
            assert(d.holds(p, 0));
            assert(d.holds(p, state.prev_end_col));
            let helpers = d.helpers->0;
            assert forall|k: int| 0 <= k < helpers.len() implies d.holds_span(
                (#[trigger] helpers[k]).lnum,
                helpers[k].col,
                helpers[k].end_lnum,
                helpers[k].end_col,
            ) by {}
        }
    }
}

/// What the checks find on one line is well-formed.
pub proof fn lemma_line_findings_well_formed(
    file: Seq<char>,
    lines: Seq<Seq<char>>,
    i: int,
    opts: LintOptions,
)
    requires
        proper_lines(lines),
        0 <= i < lines.len(),
    ensures
        all_well_formed(line_findings(file, lines, i, opts)),
{
    let line = lines[i];
    let f1 = unless_disabled(
        opts,
        DisableCheck::MixIndent,
        optional_seq(mix_indent(file, i, line)),
    );
    let f2 = unless_disabled(
        opts,
        DisableCheck::TrailingSpace,
        optional_seq(trailing_space(file, i, line)),
    );
    let f3 = unless_disabled(
        opts,
        DisableCheck::ConflictMarker,
        optional_seq(conflict_marker(file, i, line, opts.conflict_marker_style)),
    );
    let f4 = unless_disabled(
        opts,
        DisableCheck::LongLine,
        optional_seq(long_line(file, i, line, opts.line_length as nat)),
    );
    let f5 = unless_disabled(opts, DisableCheck::ControlChar, control_chars(file, i, line));
    let f6 = unless_disabled(
        opts,
        DisableCheck::ConsecutiveBlank,
        optional_seq(
            blank_state(lines, i).finding(file, i, line, opts.consecutive_blank as nat),
        ),
    );
    lemma_mix_indent_well_formed(file, i, line);
    lemma_optional_well_formed(opts, DisableCheck::MixIndent, mix_indent(file, i, line));
    lemma_trailing_space_well_formed(file, i, line);
    lemma_optional_well_formed(opts, DisableCheck::TrailingSpace, trailing_space(file, i, line));
    lemma_conflict_marker_well_formed(file, i, line, opts.conflict_marker_style);
    lemma_optional_well_formed(
        opts,
        DisableCheck::ConflictMarker,
        conflict_marker(file, i, line, opts.conflict_marker_style),
    );
    lemma_long_line_well_formed(file, i, line, opts.line_length as nat);
    lemma_optional_well_formed(
        opts,
        DisableCheck::LongLine,
        long_line(file, i, line, opts.line_length as nat),
    );
    lemma_kept_len(line, |c: char| is_eol(c));
    lemma_control_chars_well_formed(file, i, line, trim_eol(line).len());
    lemma_blank_finding_well_formed(file, lines, i, opts.consecutive_blank as nat);
    lemma_optional_well_formed(
        opts,
        DisableCheck::ConsecutiveBlank,
        blank_state(lines, i).finding(file, i, line, opts.consecutive_blank as nat),
    );
    lemma_all_well_formed_concat(f1, f2);
    lemma_all_well_formed_concat(f1 + f2, f3);
    lemma_all_well_formed_concat(f1 + f2 + f3, f4);
    lemma_all_well_formed_concat(f1 + f2 + f3 + f4, f5);
    lemma_all_well_formed_concat(f1 + f2 + f3 + f4 + f5, f6);
}

/// What the check on control characters finds is well-formed.
pub proof fn lemma_control_chars_well_formed(
    file: Seq<char>,
    lnum: int,
    line: Seq<char>,
    n: nat,
)
    requires
        0 <= lnum,
        n <= line.len(),
    ensures
        all_well_formed(control_chars_upto(file, lnum, line, n)),
    decreases n,
{
    if n > 0 {
        lemma_control_chars_well_formed(file, lnum, line, (n - 1) as nat);
        lemma_line_finding(control_char_at(file, lnum, line, n - 1), lnum, line);
    }
}

/// What the checks find at the end of an input is well-formed.
pub proof fn lemma_end_findings_well_formed(
    file: Seq<char>,
    lines: Seq<Seq<char>>,
    opts: LintOptions,
)
    requires
        proper_lines(lines),
    ensures
        all_well_formed(end_findings(file, lines, opts)),
{
    if lines.len() > 0 {
        let n = lines.len() as int;
        let last = n - 1;
        let line = lines[last];
        let state = blank_state(lines, n);
        let f1 = unless_disabled(
            opts,
            DisableCheck::ConsecutiveBlank,
            optional_seq(state.end_finding(file, last, line, opts.consecutive_blank as nat)),
        );
        let f2 = unless_disabled(
            opts,
            DisableCheck::FinalNewline,
            optional_seq(final_newline(file, last, line)),
        );
        lemma_blank_end_finding_well_formed(file, lines, opts.consecutive_blank as nat);
        lemma_optional_well_formed(
            opts,
            DisableCheck::ConsecutiveBlank,
            state.end_finding(file, last, line, opts.consecutive_blank as nat),
        );
        lemma_final_newline_well_formed(file, last, line);
        lemma_optional_well_formed(
            opts,
            DisableCheck::FinalNewline,
            final_newline(file, last, line),
        );
        lemma_all_well_formed_concat(f1, f2);
    }
}

/// Everything that the engine finds in a text is well-formed.
pub proof fn lemma_findings_well_formed(file: Seq<char>, text: Seq<char>, opts: LintOptions)
    ensures
        all_well_formed(findings(file, text, opts)),
{
    let lines = split_lines(text);
    lemma_split_lines(text);
    lemma_findings_from_well_formed(file, lines, opts, 0);
}

/// What the engine finds from line `i` on is well-formed.
pub proof fn lemma_findings_from_well_formed(
    file: Seq<char>,
    lines: Seq<Seq<char>>,
    opts: LintOptions,
    i: int,
)
    requires
        proper_lines(lines),
        0 <= i,
    ensures
        all_well_formed(findings_from(file, lines, opts, i)),
    decreases lines.len() - i,
{
    if i >= lines.len() {
        lemma_end_findings_well_formed(file, lines, opts);
    } else {
        lemma_line_findings_well_formed(file, lines, i, opts);
        lemma_findings_from_well_formed(file, lines, opts, i + 1);
        lemma_all_well_formed_concat(
            line_findings(file, lines, i, opts),
            findings_from(file, lines, opts, i + 1),
        );
    }
}

/// A governor that holds well-formed diagnostics and is handed well-formed ones holds
/// nothing else afterwards: so every diagnostic of a run is well-formed.
pub proof fn lemma_record_all_well_formed(r: RunnerView, ds: Seq<DiagnosticView>)
    requires
        all_well_formed(r.diagnostics),
        all_well_formed(ds),
    ensures
        all_well_formed(r.record_all(ds).diagnostics),
    decreases ds.len(),
{
    if ds.len() > 0 {
        assert(all_well_formed(ds.drop_last())) by {
            assert forall|k: int| 0 <= k < ds.drop_last().len() implies (
            #[trigger] ds.drop_last()[k]).well_formed() by {
                assert(ds.drop_last()[k] == ds[k]);
            }
        }
        lemma_record_all_well_formed(r, ds.drop_last());
        assert(ds.last() == ds[ds.len() - 1]);
    }
}

} // verus!
