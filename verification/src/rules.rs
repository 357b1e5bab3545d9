//! The checks. Each one looks at a single line, with its line ending, and reports what it
//! finds there; the check on blank lines also carries what it saw of the lines before.

use crate::marker::{classify, classify_marker, shape_role};
use crate::text::{
    append_retabbed, control_code, decimal, first_index, is_eol, is_eol_or_blank, kept_len,
    lemma_first_index, lemma_first_index_is, lemma_kept_len, lemma_kept_len_is,
    push_decimal, push_retabbed, retab, retabbed_string, string_of, trim_eol,
    trim_eol_and_blanks, trimmed_len, unpadded_len, white_space,
};
use crate::types::{
    diagnostic_views, helper_views, optional_view, ConflictMarkerStyle, Diagnostic,
    DiagnosticView, Helper, HelperView, Severity,
};
use crate::util::{
    chars_col_at_width, chars_first_non_space, chars_width, col_at_width, first_non_space,
    lemma_col_at_width, lemma_width_bound, width_of,
};
use vstd::prelude::*;
use vstd::slice::slice_subrange;
use vstd::string::StringExecFns;

verus! {

/// The index of the first `c` in `s`, or the length of `s` where it holds none.
pub open spec fn first_char(s: Seq<char>, c: char) -> nat {
    first_index(s.len(), holds_at(s, c))
}

/// The predicate on indices that tells where `s` holds `c`.
pub open spec fn holds_at(s: Seq<char>, c: char) -> spec_fn(int) -> bool {
    |i: int| s[i] == c
}

/// The index of the first `c` in `line`, or the length of `line` where it holds none.
pub fn chars_find(line: &[char], c: char) -> (k: usize)
    ensures
        k == first_char(line@, c),
        k <= line@.len(),
        k < line@.len() ==> line@[k as int] == c,
{
    let ghost p = holds_at(line@, c);
    let mut i: usize = 0;
    while i < line.len()
        invariant
            i <= line.len(),
            p == holds_at(line@, c),
            forall|j: int| 0 <= j < i ==> !#[trigger] p(j),
        decreases line.len() - i,
    {
        if line[i] == c {
            proof {
                assert(p(i as int));
                lemma_first_index_is(line@.len(), p, i as int);
            }
            return i;
        }
        assert(!p(i as int));
        i += 1;
    }
    proof {
        lemma_first_index_is(line@.len(), p, i as int);
    }
    i
}

/// The diagnostic of a check that reports one span within one line and shows that line.
pub open spec fn line_finding(
    file: Seq<char>,
    lnum: int,
    line: Seq<char>,
    col: int,
    end_col: int,
    severity: Severity,
    code: Seq<char>,
    message: Seq<char>,
    helpers: Option<Seq<HelperView>>,
) -> DiagnosticView {
    DiagnosticView {
        file,
        lnum,
        end_lnum: lnum,
        col,
        end_col,
        severity,
        source: retab(line),
        source_lnum: lnum,
        code,
        message,
        helpers,
    }
}

/// Builds the diagnostic of a check that reports one span within one line.
fn make_line_finding(
    file: &str,
    lnum: usize,
    line: &[char],
    col: usize,
    end_col: usize,
    severity: Severity,
    code: &str,
    message: String,
    helpers: Option<Vec<Helper>>,
) -> (d: Diagnostic)
    ensures
        d@ == line_finding(
            file@,
            lnum as int,
            line@,
            col as int,
            end_col as int,
            severity,
            code@,
            message@,
            match helpers {
                Some(h) => Some(helper_views(h@)),
                None => None,
            },
        ),
{
    Diagnostic {
        file: String::from_str(file),
        lnum,
        end_lnum: lnum,
        col,
        end_col,
        severity,
        source: retabbed_string(line),
        source_lnum: lnum,
        code: String::from_str(code),
        message,
        helpers,
    }
}

/// What the check on mixed indentation reports for a line: a warning where a space and a tab
/// both stand before the first character that is not whitespace. The span is the one
/// character at which the later of the two kinds first occurs. The helper names the kind
/// that the line begins with, and covers the line from its beginning up to the first
/// character of the other kind.
pub open spec fn mix_indent(file: Seq<char>, lnum: int, line: Seq<char>) -> Option<
    DiagnosticView,
> {
    let t = trim_eol(line);
    let space = first_char(t, ' ') as int;
    let tab = first_char(t, '\t') as int;
    match first_non_space(t) {
        Some(n) => if space < n && tab < n {
            let col = if space > tab {
                space
            } else {
                tab
            };
            let helper = HelperView {
                message: if space == 0 {
                    "This line starts with whitespaces"@
                } else {
                    "This line starts with tabs"@
                },
                lnum,
                end_lnum: lnum,
                col: 0,
                end_col: if space == 0 {
                    tab - 1
                } else {
                    space - 1
                },
            };
            Some(
                line_finding(
                    file,
                    lnum,
                    line,
                    col,
                    col,
                    Severity::Warning,
                    "mix-indent"@,
                    "Mixed tabs and whitespaces"@,
                    Some(seq![helper]),
                ),
            )
        } else {
            None
        },
        None => None,
    }
}

/// Checks a line for indentation that mixes spaces and tabs.
pub fn check_mix_indent(file: &str, lnum: usize, line: &[char]) -> (found: Option<Diagnostic>)
    ensures
        optional_view(found) == mix_indent(file@, lnum as int, line@),
{
    let n = trimmed_len(line);
    let t = slice_subrange(line, 0, n);
    match chars_first_non_space(t) {
        Some(non_space) => {
            let space = chars_find(t, ' ');
            let tab = chars_find(t, '\t');
            if space < non_space && tab < non_space {
                let col = if space > tab {
                    space
                } else {
                    tab
                };
                let helper = Helper {
                    message: String::from_str(
                        if space == 0 {
                            "This line starts with whitespaces"
                        } else {
                            "This line starts with tabs"
                        },
                    ),
                    lnum,
                    end_lnum: lnum,
                    col: 0,
                    end_col: if space == 0 {
                        tab - 1
                    } else {
                        space - 1
                    },
                };
                let helpers = vec![helper];
                assert(helper_views(helpers@) =~= seq![helper@]);
                Some(
                    make_line_finding(
                        file,
                        lnum,
                        line,
                        col,
                        col,
                        Severity::Warning,
                        "mix-indent",
                        String::from_str("Mixed tabs and whitespaces"),
                        Some(helpers),
                    ),
                )
            } else {
                None
            }
        },
        None => None,
    }
}

/// What the check on trailing whitespace reports for a line: a warning where the line, its
/// line ending apart, ends with a space or a tab. The span runs from the first character of
/// the line's trailing run of spaces, tabs and end-of-line characters to the last character
/// before the line ending.
pub open spec fn trailing_space(file: Seq<char>, lnum: int, line: Seq<char>) -> Option<
    DiagnosticView,
> {
    let kept = trim_eol(line).len() as int;
    let bare = trim_eol_and_blanks(line).len() as int;
    if kept > bare {
        Some(
            line_finding(
                file,
                lnum,
                line,
                bare,
                kept - 1,
                Severity::Warning,
                "trailing-space"@,
                "Trailing whitespaces or tabs"@,
                None,
            ),
        )
    } else {
        None
    }
}

/// Checks a line for spaces and tabs at its end.
pub fn check_trailing_space(file: &str, lnum: usize, line: &[char]) -> (found: Option<
    Diagnostic,
>)
    ensures
        optional_view(found) == trailing_space(file@, lnum as int, line@),
{
    let kept = trimmed_len(line);
    let bare = unpadded_len(line);
    if kept > bare {
        Some(
            make_line_finding(
                file,
                lnum,
                line,
                bare,
                kept - 1,
                Severity::Warning,
                "trailing-space",
                String::from_str("Trailing whitespaces or tabs"),
                None,
            ),
        )
    } else {
        None
    }
}

/// What the check on conflict markers reports for a line: an error that spans the line,
/// where the line without its line ending is a marker of the dialect.
pub open spec fn conflict_marker(
    file: Seq<char>,
    lnum: int,
    line: Seq<char>,
    style: ConflictMarkerStyle,
) -> Option<DiagnosticView> {
    let t = trim_eol(line);
    match classify(t, style) {
        Some(marker) => Some(
            line_finding(
                file,
                lnum,
                line,
                0,
                t.len() - 1,
                Severity::Error,
                "conflict-marker"@,
                marker.message,
                None,
            ),
        ),
        None => None,
    }
}

/// Checks whether a line is a conflict marker of the dialect `style`.
pub fn check_conflict_marker(
    file: &str,
    lnum: usize,
    line: &[char],
    style: ConflictMarkerStyle,
) -> (found: Option<Diagnostic>)
    ensures
        optional_view(found) == conflict_marker(file@, lnum as int, line@, style),
{
    let n = trimmed_len(line);
    let t = slice_subrange(line, 0, n);
    match classify_marker(t, style) {
        Some(marker) => Some(
            make_line_finding(
                file,
                lnum,
                line,
                0,
                n - 1,
                Severity::Error,
                "conflict-marker",
                marker.message,
                None,
            ),
        ),
        None => None,
    }
}

/// The message of the check on long lines.
pub open spec fn long_line_message(width: nat, limit: nat) -> Seq<char> {
    "Too long line ("@ + decimal(width) + "/"@ + decimal(limit) + ")"@
}

/// What the check on long lines reports for a line: an information where the line without
/// its line ending is wider than `limit` columns. The span runs from the character at which
/// the width first exceeds the limit to the last one.
pub open spec fn long_line(file: Seq<char>, lnum: int, line: Seq<char>, limit: nat) -> Option<
    DiagnosticView,
> {
    let t = trim_eol(line);
    if width_of(t) > limit {
        Some(
            line_finding(
                file,
                lnum,
                line,
                col_at_width(t, limit) as int,
                t.len() - 1,
                Severity::Information,
                "long-line"@,
                long_line_message(width_of(t), limit),
                None,
            ),
        )
    } else {
        None
    }
}

/// Checks whether a line is wider than `limit` columns. A line of at most a quarter of
/// `limit` characters is not measured: no character is wider than 4 columns.
pub fn check_long_line(file: &str, lnum: usize, line: &[char], limit: usize) -> (found: Option<
    Diagnostic,
>)
    ensures
        optional_view(found) == long_line(file@, lnum as int, line@, limit as nat),
{
    let n = trimmed_len(line);
    let t = slice_subrange(line, 0, n);
    proof {
        lemma_width_bound(t@);
    }
    if n <= limit / 4 {
        return None;
    }
    let width = chars_width(t);
    if width > limit as u128 {
        let col = chars_col_at_width(t, limit);
        let mut message = String::from_str("Too long line (");
        push_decimal(&mut message, width);
        message.append("/");
        push_decimal(&mut message, limit as u128);
        message.append(")");
        Some(
            make_line_finding(
                file,
                lnum,
                line,
                col,
                n - 1,
                Severity::Information,
                "long-line",
                message,
                None,
            ),
        )
    } else {
        None
    }
}

/// A control character that the check on control characters reports: any but the tab.
pub open spec fn reported_control(c: char) -> bool {
    control_code(c) && c != '\t'
}

/// The warning for the control character at index `col` of a line.
pub open spec fn control_char_at(file: Seq<char>, lnum: int, line: Seq<char>, col: int)
    -> DiagnosticView {
    line_finding(
        file,
        lnum,
        line,
        col,
        col,
        Severity::Warning,
        "control-char"@,
        "Line contains a control character"@,
        None,
    )
}

/// The warnings for the control characters among the first `n` characters of a line.
pub open spec fn control_chars_upto(file: Seq<char>, lnum: int, line: Seq<char>, n: nat) -> Seq<
    DiagnosticView,
>
    decreases n,
{
    if n == 0 {
        Seq::empty()
    } else {
        let before = control_chars_upto(file, lnum, line, (n - 1) as nat);
        if reported_control(line[n - 1]) {
            before.push(control_char_at(file, lnum, line, n - 1))
        } else {
            before
        }
    }
}

/// What the check on control characters reports for a line: one warning for each control
/// character but the tab that stands before the line ending, from left to right.
pub open spec fn control_chars(file: Seq<char>, lnum: int, line: Seq<char>) -> Seq<
    DiagnosticView,
> {
    control_chars_upto(file, lnum, line, trim_eol(line).len())
}

/// Checks a line for control characters.
pub fn check_control_chars(file: &str, lnum: usize, line: &[char]) -> (found: Vec<Diagnostic>)
    ensures
        diagnostic_views(found@) == control_chars(file@, lnum as int, line@),
{
    let n = trimmed_len(line);
    let mut found: Vec<Diagnostic> = Vec::new();
    let mut i: usize = 0;
    assert(diagnostic_views(found@) =~= Seq::<DiagnosticView>::empty());
    while i < n
        invariant
            i <= n <= line@.len(),
            diagnostic_views(found@) == control_chars_upto(file@, lnum as int, line@, i as nat),
        decreases n - i,
    {
        let c = line[i];
        if c.is_control() && c != '\t' {
            let d = make_line_finding(
                file,
                lnum,
                line,
                i,
                i,
                Severity::Warning,
                "control-char",
                String::from_str("Line contains a control character"),
                None,
            );
            assert(diagnostic_views(found@.push(d)) =~= diagnostic_views(found@).push(d@));
            found.push(d);
        }
        i += 1;
    }
    found
}

/// What the check on blank lines carries from line to line.
#[derive(Debug)]
pub struct BlankRun {
    /// The number of the last line that was not blank, if there was one.
    pub prev: Option<usize>,
    /// The index of the last character of that line, its line ending apart.
    pub prev_end_col: usize,
    /// That line and the blank lines after it, with tabs replaced by spaces: the text that a
    /// diagnostic shows.
    pub window: Vec<char>,
}

/// What a [`BlankRun`] holds.
pub struct BlankRunView {
    pub prev: Option<int>,
    pub prev_end_col: int,
    pub window: Seq<char>,
}

impl View for BlankRun {
    type V = BlankRunView;

    open spec fn view(&self) -> BlankRunView {
        BlankRunView {
            prev: match self.prev {
                Some(p) => Some(p as int),
                None => None,
            },
            prev_end_col: self.prev_end_col as int,
            window: self.window@,
        }
    }
}

/// A line that holds nothing but its line ending.
pub open spec fn is_blank(line: Seq<char>) -> bool {
    trim_eol(line).len() == 0
}

/// The message of the check on blank lines.
pub open spec fn blank_run_message(count: nat, max: nat) -> Seq<char> {
    "Too many consecutive blank lines ("@ + decimal(count) + "/"@ + decimal(max) + ")"@
}

impl BlankRunView {
    /// What is carried before the first line.
    pub open spec fn start() -> BlankRunView {
        BlankRunView { prev: None, prev_end_col: 0, window: Seq::empty() }
    }

    /// Whether what is carried can stand before line `lnum`: the last line that was not
    /// blank came earlier.
    pub open spec fn precedes(self, lnum: int) -> bool {
        match self.prev {
            Some(p) => 0 <= p < lnum,
            None => true,
        }
    }

    /// The number of blank lines between the last line that was not blank and line `lnum`.
    pub open spec fn blanks_before(self, lnum: int) -> int {
        match self.prev {
            Some(p) => lnum - p - 1,
            None => lnum,
        }
    }

    /// The number of the line at which the shown text begins.
    pub open spec fn window_lnum(self) -> int {
        match self.prev {
            Some(p) => p,
            None => 0,
        }
    }

    /// The helper that points at the last line that was not blank, where there is one.
    pub open spec fn prev_helper(self) -> Seq<HelperView> {
        match self.prev {
            Some(p) => seq![
                HelperView {
                    message: "Previous non-blank line"@,
                    lnum: p,
                    end_lnum: p,
                    col: 0,
                    end_col: self.prev_end_col,
                },
            ],
            None => Seq::empty(),
        }
    }

    /// What is carried after line `lnum`.
    pub open spec fn step(self, lnum: int, line: Seq<char>) -> BlankRunView {
        if is_blank(line) {
            BlankRunView { window: self.window + retab(line), ..self }
        } else {
            BlankRunView {
                prev: Some(lnum),
                prev_end_col: trim_eol(line).len() - 1,
                window: retab(line),
            }
        }
    }

    /// What the check reports at line `lnum`: an information where the line is not blank and
    /// more than `max` blank lines stand before it. The span covers the blank lines; the
    /// shown text runs from the last line that was not blank to this one, and the helpers
    /// point at those two lines.
    pub open spec fn finding(self, file: Seq<char>, lnum: int, line: Seq<char>, max: nat)
        -> Option<DiagnosticView> {
        let count = self.blanks_before(lnum);
        if !is_blank(line) && count > max {
            Some(
                DiagnosticView {
                    file,
                    lnum: lnum - count,
                    end_lnum: lnum - 1,
                    col: 0,
                    end_col: 0,
                    severity: Severity::Information,
                    source: self.window + retab(line),
                    source_lnum: self.window_lnum(),
                    code: "consecutive-blank"@,
                    message: blank_run_message(count as nat, max),
                    helpers: Some(
                        self.prev_helper().push(
                            HelperView {
                                message: "Next non-blank line"@,
                                lnum,
                                end_lnum: lnum,
                                col: 0,
                                end_col: trim_eol(line).len() - 1,
                            },
                        ),
                    ),
                },
            )
        } else {
            None
        }
    }

    /// What the check reports once line `lnum`, the last one, has been taken in: an
    /// information where that line is blank and it ends a run of more than `max` blank
    /// lines. The helper points at the last line that was not blank; there is none where
    /// every line was blank.
    pub open spec fn end_finding(self, file: Seq<char>, lnum: int, line: Seq<char>, max: nat)
        -> Option<DiagnosticView> {
        let count = self.blanks_before(lnum) + 1;
        if is_blank(line) && count > max {
            Some(
                DiagnosticView {
                    file,
                    lnum: lnum - count + 1,
                    end_lnum: lnum,
                    col: 0,
                    end_col: 0,
                    severity: Severity::Information,
                    source: self.window,
                    source_lnum: self.window_lnum(),
                    code: "consecutive-blank"@,
                    message: blank_run_message(count as nat, max),
                    helpers: if self.prev is Some {
                        Some(self.prev_helper())
                    } else {
                        None
                    },
                },
            )
        } else {
            None
        }
    }
}

impl BlankRun {
    /// What is carried before the first line.
    pub fn new() -> (run: BlankRun)
        ensures
            run@ == BlankRunView::start(),
    {
        BlankRun { prev: None, prev_end_col: 0, window: Vec::new() }
    }

    /// The helper that points at the last line that was not blank, where there is one.
    fn prev_helpers(&self) -> (helpers: Vec<Helper>)
        ensures
            helper_views(helpers@) == self@.prev_helper(),
    {
        let mut helpers: Vec<Helper> = Vec::new();
        match self.prev {
            Some(p) => {
                let helper = Helper {
                    message: String::from_str("Previous non-blank line"),
                    lnum: p,
                    end_lnum: p,
                    col: 0,
                    end_col: self.prev_end_col,
                };
                helpers.push(helper);
                assert(helper_views(helpers@) =~= seq![helper@]);
            },
            None => {
                assert(helper_views(helpers@) =~= Seq::<HelperView>::empty());
            },
        }
        helpers
    }

    /// The message of the check for a run of `count` blank lines.
    fn message(count: u128, max: usize) -> (message: String)
        ensures
            message@ == blank_run_message(count as nat, max as nat),
    {
        let mut message = String::from_str("Too many consecutive blank lines (");
        push_decimal(&mut message, count);
        message.append("/");
        push_decimal(&mut message, max as u128);
        message.append(")");
        message
    }

    /// Takes in line `lnum`, and reports the blank lines before it where they are more than
    /// `max` and the line is not blank.
    pub fn check(&mut self, file: &str, lnum: usize, line: &[char], max: usize) -> (found:
        Option<Diagnostic>)
        requires
            old(self)@.precedes(lnum as int),
        ensures
            optional_view(found) == old(self)@.finding(file@, lnum as int, line@, max as nat),
            final(self)@ == old(self)@.step(lnum as int, line@),
            final(self)@.precedes(lnum + 1),
    {
        let n = trimmed_len(line);
        if n == 0 {
            push_retabbed(&mut self.window, line);
            return None;
        }
        let count: usize = match self.prev {
            Some(p) => lnum - p - 1,
            None => lnum,
        };
        let found = if count > max {
            let mut helpers = self.prev_helpers();
            let next = Helper {
                message: String::from_str("Next non-blank line"),
                lnum,
                end_lnum: lnum,
                col: 0,
                end_col: n - 1,
            };
            assert(helper_views(helpers@.push(next)) =~= helper_views(helpers@).push(next@));
            helpers.push(next);
            let mut source = string_of(self.window.as_slice());
            append_retabbed(&mut source, line);
            Some(
                Diagnostic {
                    file: String::from_str(file),
                    lnum: lnum - count,
                    end_lnum: lnum - 1,
                    col: 0,
                    end_col: 0,
                    severity: Severity::Information,
                    source,
                    source_lnum: match self.prev {
                        Some(p) => p,
                        None => 0,
                    },
                    code: String::from_str("consecutive-blank"),
                    message: BlankRun::message(count as u128, max),
                    helpers: Some(helpers),
                },
            )
        } else {
            None
        };
        let mut window: Vec<char> = Vec::new();
        push_retabbed(&mut window, line);
        assert(window@ == retab(line@));
        self.prev = Some(lnum);
        self.prev_end_col = n - 1;
        self.window = window;
        found
    }

    /// Reports, once line `lnum`, the last one, has been taken in, the run of blank lines
    /// that it ends, where they are more than `max`.
    pub fn check_end(&self, file: &str, lnum: usize, line: &[char], max: usize) -> (found:
        Option<Diagnostic>)
        requires
            self@.precedes(lnum + 1),
        ensures
            optional_view(found) == self@.end_finding(file@, lnum as int, line@, max as nat),
    {
        let n = trimmed_len(line);
        if n != 0 {
            return None;
        }
        let count: u128 = match self.prev {
            Some(p) => (lnum - p) as u128,
            None => lnum as u128 + 1,
        };
        if count > max as u128 {
            let first: usize = match self.prev {
                Some(p) => p + 1,
                None => 0,
            };
            Some(
                Diagnostic {
                    file: String::from_str(file),
                    lnum: first,
                    end_lnum: lnum,
                    col: 0,
                    end_col: 0,
                    severity: Severity::Information,
                    source: string_of(self.window.as_slice()),
                    source_lnum: match self.prev {
                        Some(p) => p,
                        None => 0,
                    },
                    code: String::from_str("consecutive-blank"),
                    message: BlankRun::message(count, max),
                    helpers: match self.prev {
                        Some(_) => Some(self.prev_helpers()),
                        None => None,
                    },
                },
            )
        } else {
            None
        }
    }
}

/// What the check on the final newline reports for the last line of an input: an
/// information at its last character, where that is neither a line feed nor a carriage
/// return.
pub open spec fn final_newline(file: Seq<char>, lnum: int, line: Seq<char>) -> Option<
    DiagnosticView,
> {
    if line.len() > 0 && line.last() != '\n' && line.last() != '\r' {
        Some(
            line_finding(
                file,
                lnum,
                line,
                line.len() - 1,
                line.len() - 1,
                Severity::Information,
                "final-newline"@,
                "Missing final newline"@,
                None,
            ),
        )
    } else {
        None
    }
}

/// Checks whether the last line of an input ends with a newline.
pub fn check_final_newline(file: &str, lnum: usize, line: &[char]) -> (found: Option<
    Diagnostic,
>)
    ensures
        optional_view(found) == final_newline(file@, lnum as int, line@),
{
    let n = line.len();
    if n > 0 && line[n - 1] != '\n' && line[n - 1] != '\r' {
        Some(
            make_line_finding(
                file,
                lnum,
                line,
                n - 1,
                n - 1,
                Severity::Information,
                "final-newline",
                String::from_str("Missing final newline"),
                None,
            ),
        )
    } else {
        None
    }
}

/// A line whose indentation holds both a space and a tab is reported, whichever of the two
/// comes first, at the later of their first occurrences; and a line is reported only where
/// its indentation holds both.
pub proof fn lemma_mix_indent_fires(file: Seq<char>, lnum: int, line: Seq<char>)
    ensures
        mix_indent(file, lnum, line) is Some <==> (exists|s: int, t: int|
            first_non_space(trim_eol(line)) matches Some(n) && 0 <= s < n && 0 <= t < n
                && #[trigger] trim_eol(line)[s] == ' ' && #[trigger] trim_eol(line)[t] == '\t'),
        mix_indent(file, lnum, line) matches Some(d) ==> {
            let space = first_char(trim_eol(line), ' ') as int;
            let tab = first_char(trim_eol(line), '\t') as int;
            &&& d.code == "mix-indent"@
            &&& d.lnum == lnum && d.end_lnum == lnum
            &&& d.col == d.end_col
            &&& d.col == if space > tab {
                space
            } else {
                tab
            }
            &&& trim_eol(line)[space] == ' ' && trim_eol(line)[tab] == '\t'
        },
{
    let tr = trim_eol(line);
    let space = first_char(tr, ' ') as int;
    let tab = first_char(tr, '\t') as int;
    lemma_first_index(tr.len(), holds_at(tr, ' '));
    lemma_first_index(tr.len(), holds_at(tr, '\t'));
    lemma_first_index(tr.len(), |i: int| !white_space(tr[i]));
    if mix_indent(file, lnum, line) is Some {
        assert(holds_at(tr, ' ')(space));
        assert(holds_at(tr, '\t')(tab));
        assert(tr[space] == ' ' && tr[tab] == '\t');
    }
    if exists|s: int, t: int|
        first_non_space(tr) matches Some(n) && 0 <= s < n && 0 <= t < n && #[trigger] tr[s]
            == ' ' && #[trigger] tr[t] == '\t' {
        let (s, t) = choose|s: int, t: int|
            first_non_space(tr) matches Some(n) && 0 <= s < n && 0 <= t < n && #[trigger] tr[s]
                == ' ' && #[trigger] tr[t] == '\t';
        assert(holds_at(tr, ' ')(s));
        assert(holds_at(tr, '\t')(t));
        assert(space <= s);
        assert(tab <= t);
    }
}

/// Taking the reported span out of a line leaves a line on which the check on trailing
/// whitespace reports nothing.
pub proof fn lemma_trailing_space_idempotent(file: Seq<char>, lnum: int, line: Seq<char>)
    ensures
        trailing_space(file, lnum, line) matches Some(d) ==> 0 <= d.col <= d.end_col
            < line.len() && trailing_space(
            file,
            lnum,
            line.take(d.col) + line.skip(d.end_col + 1),
        ) is None,
{
    if trailing_space(file, lnum, line) is Some {
        let eol = |c: char| is_eol(c);
        let pad = |c: char| is_eol_or_blank(c);
        let kept = kept_len(line, eol) as int;
        let bare = kept_len(line, pad) as int;
        lemma_kept_len(line, eol);
        lemma_kept_len(line, pad);
        let stripped = line.take(bare) + line.skip(kept);
        assert forall|j: int| bare <= j < stripped.len() implies eol(#[trigger] stripped[j]) by {
            assert(stripped[j] == line[kept + (j - bare)]);
            assert(eol(line[kept + (j - bare)]));
        }
        assert forall|j: int| bare <= j < stripped.len() implies pad(#[trigger] stripped[j]) by {
            assert(eol(stripped[j]));
        }
        if bare > 0 {
            assert(stripped[bare - 1] == line[bare - 1]);
            assert(!pad(line[bare - 1]));
            assert(!eol(stripped[bare - 1]));
        }
        lemma_kept_len_is(stripped, eol, bare);
        lemma_kept_len_is(stripped, pad, bare);
    }
}

/// The check on long lines reports a line exactly when it is wider than the limit: a line
/// that is as wide as the limit is not reported, and one that is wider by one column is,
/// with both numbers in the message.
pub proof fn lemma_long_line_threshold(file: Seq<char>, lnum: int, line: Seq<char>, limit: nat)
    ensures
        long_line(file, lnum, line, limit) is Some <==> width_of(trim_eol(line)) > limit,
        width_of(trim_eol(line)) == limit ==> long_line(file, lnum, line, limit) is None,
        width_of(trim_eol(line)) == limit + 1 ==> (long_line(file, lnum, line, limit) matches Some(
            d,
        ) && d.message == long_line_message(limit + 1, limit) && d.code == "long-line"@),
        long_line(file, lnum, line, limit) matches Some(d) ==> 0 <= d.col <= d.end_col
            < trim_eol(line).len(),
{
    lemma_col_at_width(trim_eol(line), limit);
}

/// A line is reported as a conflict marker exactly when its shape gives it a role that the
/// dialect has; the message then begins with the dialect's own words. So no dialect
/// reports a role outside its set.
pub proof fn lemma_conflict_marker_dialect(
    file: Seq<char>,
    lnum: int,
    line: Seq<char>,
    style: ConflictMarkerStyle,
)
    ensures
        conflict_marker(file, lnum, line, style) is Some <==> (shape_role(trim_eol(line)) is Some
            && style.accepts(shape_role(trim_eol(line))->0)),
        conflict_marker(file, lnum, line, style) matches Some(d) ==> d.message == style.prefix()
            + trim_eol(line) && d.severity == Severity::Error && d.code == "conflict-marker"@
            && d.col == 0 && d.end_col == trim_eol(line).len() - 1,
{
}

} // verus!
