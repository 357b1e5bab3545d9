//! The engine: one pass over the lines of an input, every check in a fixed order, every
//! finding through the governor.

use crate::rules::{
    blank_run_message, check_conflict_marker, check_control_chars, check_final_newline,
    check_long_line, check_mix_indent, check_trailing_space, conflict_marker,
    control_char_at, control_chars, control_chars_upto, final_newline, is_blank, long_line,
    mix_indent, reported_control, trailing_space, BlankRun, BlankRunView,
};
use crate::positions::{
    all_well_formed, lemma_findings_well_formed, lemma_record_all_well_formed,
};
use crate::runner::{
    lemma_aborted_absorbs, lemma_record_all_concat, lemma_record_all_extends, LintRunner,
};
use crate::text::{chars_of, lines_view, split_into_lines, split_lines, trim_eol};
use crate::types::{
    diagnostic_views, optional_view, Diagnostic, DiagnosticView, DisableCheck, LintOptions,
};
use vstd::prelude::*;
use vstd::string::StringSliceAdditionalSpecFns;

verus! {

/// The number of bytes at the beginning of an input that decide whether it is text.
pub const SNIFF_LEN: usize = 8192;

/// Whether an input counts as binary: a zero byte stands among its first 8192 bytes.
pub open spec fn looks_binary(bytes: Seq<u8>) -> bool {
    exists|i: int| 0 <= i < bytes.len() && i < 8192 && bytes[i] == 0u8
}

/// Tells whether an input counts as binary.
pub fn is_binary(bytes: &[u8]) -> (binary: bool)
    ensures
        binary == looks_binary(bytes@),
{
    let mut i: usize = 0;
    while i < bytes.len() && i < SNIFF_LEN
        invariant
            i <= bytes.len(),
            i <= 8192,
            forall|j: int| 0 <= j < i ==> bytes@[j] != 0u8,
        decreases bytes.len() - i,
    {
        if bytes[i] == 0 {
            return true;
        }
        i += 1;
    }
    false
}

/// The length of the whole lines among the first `upto` bytes of an input: those bytes up to
/// and with their last line feed, nothing where they hold none.
pub open spec fn whole_lines(bytes: Seq<u8>, upto: nat) -> nat
    decreases upto,
{
    if upto == 0 {
        0
    } else if upto <= bytes.len() && bytes[upto - 1] == 0x0Au8 {
        upto
    } else {
        whole_lines(bytes, (upto - 1) as nat)
    }
}

/// Bytes that an input does not have hold no line.
pub proof fn lemma_whole_lines_beyond(bytes: Seq<u8>, upto: nat)
    requires
        upto >= bytes.len(),
    ensures
        whole_lines(bytes, upto) == whole_lines(bytes, bytes.len()),
    decreases upto,
{
    if upto > bytes.len() {
        lemma_whole_lines_beyond(bytes, (upto - 1) as nat);
    }
}

/// The length of the part of an input that is linted when only its first `upto` bytes could
/// be read as text: the whole lines among them. What stands after their last line feed
/// belongs to the line that could not be read.
pub fn whole_lines_len(bytes: &[u8], upto: usize) -> (len: usize)
    ensures
        len == whole_lines(bytes@, upto as nat),
        len <= upto,
        len <= bytes@.len(),
        len > 0 ==> bytes@[len - 1] == 0x0Au8,
{
    let mut len: usize = if upto < bytes.len() {
        upto
    } else {
        bytes.len()
    };
    proof {
        if upto >= bytes.len() {
            lemma_whole_lines_beyond(bytes@, upto as nat);
        }
    }
    while len > 0 && bytes[len - 1] != 0x0A
        invariant
            len <= upto,
            len <= bytes.len(),
            whole_lines(bytes@, len as nat) == whole_lines(bytes@, upto as nat),
        decreases len,
    {
        len -= 1;
    }
    len
}

/// An optional finding as a sequence of at most one.
pub open spec fn optional_seq(found: Option<DiagnosticView>) -> Seq<DiagnosticView> {
    match found {
        Some(d) => seq![d],
        None => Seq::empty(),
    }
}

/// The findings of a check, or nothing where the check is switched off.
pub open spec fn unless_disabled(
    opts: LintOptions,
    check: DisableCheck,
    found: Seq<DiagnosticView>,
) -> Seq<DiagnosticView> {
    if opts.disabled(check) {
        Seq::empty()
    } else {
        found
    }
}

/// What the check on blank lines carries once the first `n` lines are taken in.
pub open spec fn blank_state(lines: Seq<Seq<char>>, n: int) -> BlankRunView
    decreases n,
{
    if n <= 0 {
        BlankRunView::start()
    } else {
        blank_state(lines, n - 1).step(n - 1, lines[n - 1])
    }
}

/// Everything that the checks find on line `i`, in the order in which they run: mixed
/// indentation, trailing whitespace, conflict marker, long line, control characters, blank
/// lines.
pub open spec fn line_findings(
    file: Seq<char>,
    lines: Seq<Seq<char>>,
    i: int,
    opts: LintOptions,
) -> Seq<DiagnosticView> {
    let line = lines[i];
    unless_disabled(opts, DisableCheck::MixIndent, optional_seq(mix_indent(file, i, line)))
        + unless_disabled(
        opts,
        DisableCheck::TrailingSpace,
        optional_seq(trailing_space(file, i, line)),
    ) + unless_disabled(
        opts,
        DisableCheck::ConflictMarker,
        optional_seq(conflict_marker(file, i, line, opts.conflict_marker_style)),
    ) + unless_disabled(
        opts,
        DisableCheck::LongLine,
        optional_seq(long_line(file, i, line, opts.line_length as nat)),
    ) + unless_disabled(opts, DisableCheck::ControlChar, control_chars(file, i, line))
        + unless_disabled(
        opts,
        DisableCheck::ConsecutiveBlank,
        optional_seq(
            blank_state(lines, i).finding(file, i, line, opts.consecutive_blank as nat),
        ),
    )
}

/// What the checks find once the last line is read: a run of blank lines that the input
/// ends in, and a last line without newline. An empty input has neither.
pub open spec fn end_findings(file: Seq<char>, lines: Seq<Seq<char>>, opts: LintOptions) -> Seq<
    DiagnosticView,
> {
    if lines.len() == 0 {
        Seq::empty()
    } else {
        let last = lines.len() - 1;
        unless_disabled(
            opts,
            DisableCheck::ConsecutiveBlank,
            optional_seq(
                blank_state(lines, lines.len() as int).end_finding(
                    file,
                    last,
                    lines[last],
                    opts.consecutive_blank as nat,
                ),
            ),
        ) + unless_disabled(
            opts,
            DisableCheck::FinalNewline,
            optional_seq(final_newline(file, last, lines[last])),
        )
    }
}

/// The findings from line `i` on, those of the end of the input included.
pub open spec fn findings_from(
    file: Seq<char>,
    lines: Seq<Seq<char>>,
    opts: LintOptions,
    i: int,
) -> Seq<DiagnosticView>
    decreases lines.len() - i,
{
    if i >= lines.len() {
        end_findings(file, lines, opts)
    } else {
        line_findings(file, lines, i, opts) + findings_from(file, lines, opts, i + 1)
    }
}

/// Every finding of an input, in the order of discovery, as if no class had a limit.
pub open spec fn findings(file: Seq<char>, text: Seq<char>, opts: LintOptions) -> Seq<
    DiagnosticView,
> {
    findings_from(file, split_lines(text), opts, 0)
}

/// Hands an optional finding to the governor.
fn record_found(runner: &mut LintRunner, found: Option<Diagnostic>) -> (keep_going: bool)
    requires
        old(runner).wf(),
    ensures
        final(runner).wf(),
        final(runner)@ == old(runner)@.record_all(optional_seq(optional_view(found))),
        keep_going == !final(runner)@.aborted,
{
    match found {
        Some(d) => {
            assert(seq![d@].drop_last() == Seq::<DiagnosticView>::empty());
            assert(seq![d@].last() == d@);
            assert(runner@.record_all(seq![d@]) == runner@.record_all(
                Seq::<DiagnosticView>::empty(),
            ).record(d@));
            runner.record(d)
        },
        None => !runner.is_aborted(),
    }
}

/// Hands findings to the governor, in order, until the run is aborted.
fn record_each(runner: &mut LintRunner, found: Vec<Diagnostic>) -> (keep_going: bool)
    requires
        old(runner).wf(),
    ensures
        final(runner).wf(),
        final(runner)@ == old(runner)@.record_all(diagnostic_views(found@)),
        keep_going == !final(runner)@.aborted,
{
    let ghost all = diagnostic_views(found@);
    let mut keep_going = !runner.is_aborted();
    for d in it: found
        invariant
            runner.wf(),
            it.seq() == found@,
            all == diagnostic_views(found@),
            runner@ == old(runner)@.record_all(all.take(it.index() as int)),
            keep_going == !runner@.aborted,
    {
        proof {
            let k = it.index() as int;
            assert(all.take(k + 1).drop_last() == all.take(k));
            assert(all.take(k + 1).last() == d@);
        }
        keep_going = runner.record(d);
    }
    assert(all.take(all.len() as int) == all);
    keep_going
}

/// Runs every check that is switched on over line `i`, and hands what they find to the
/// governor. Once the run is aborted no further check is run.
fn lint_line(
    filename: &str,
    lines: &Vec<Vec<char>>,
    i: usize,
    run: &mut BlankRun,
    runner: &mut LintRunner,
    opts: &LintOptions,
) -> (keep_going: bool)
    requires
        i < lines.len(),
        old(runner).wf(),
        !old(runner)@.aborted,
        !opts.disabled(DisableCheck::ConsecutiveBlank) ==> old(run)@ == blank_state(
            lines_view(lines@),
            i as int,
        ) && old(run)@.precedes(i as int),
    ensures
        final(runner).wf(),
        final(runner)@ == old(runner)@.record_all(
            line_findings(filename@, lines_view(lines@), i as int, *opts),
        ),
        keep_going == !final(runner)@.aborted,
        keep_going && !opts.disabled(DisableCheck::ConsecutiveBlank) ==> final(run)@
            == blank_state(lines_view(lines@), i + 1) && final(run)@.precedes(i + 1),
{
    let line = lines[i].as_slice();
    let ghost file = filename@;
    let ghost all = lines_view(lines@);
    assert(line@ == all[i as int]);
    let ghost r0 = runner@;
    let ghost none = Seq::<DiagnosticView>::empty();
    let mut go = true;

    let ghost f1 = unless_disabled(
        *opts,
        DisableCheck::MixIndent,
        optional_seq(mix_indent(file, i as int, line@)),
    );
    if !opts.is_disabled(DisableCheck::MixIndent) {
        let found = check_mix_indent(filename, i, line);
        go = record_found(runner, found);
    }
    let ghost r1 = runner@;
    assert(r1 == r0.record_all(f1));

    let ghost f2 = unless_disabled(
        *opts,
        DisableCheck::TrailingSpace,
        optional_seq(trailing_space(file, i as int, line@)),
    );
    if go && !opts.is_disabled(DisableCheck::TrailingSpace) {
        let found = check_trailing_space(filename, i, line);
        go = record_found(runner, found);
    }
    let ghost r2 = runner@;
    proof {
        if r1.aborted {
            lemma_aborted_absorbs(r1, f2);
        }
        assert(r2 == r1.record_all(f2));
        lemma_record_all_concat(r0, f1, f2);
    }

    let ghost f3 = unless_disabled(
        *opts,
        DisableCheck::ConflictMarker,
        optional_seq(conflict_marker(file, i as int, line@, opts.conflict_marker_style)),
    );
    if go && !opts.is_disabled(DisableCheck::ConflictMarker) {
        let found = check_conflict_marker(filename, i, line, opts.conflict_marker_style);
        go = record_found(runner, found);
    }
    let ghost r3 = runner@;
    proof {
        if r2.aborted {
            lemma_aborted_absorbs(r2, f3);
        }
        assert(r3 == r2.record_all(f3));
        lemma_record_all_concat(r0, f1 + f2, f3);
    }

    let ghost f4 = unless_disabled(
        *opts,
        DisableCheck::LongLine,
        optional_seq(long_line(file, i as int, line@, opts.line_length as nat)),
    );
    if go && !opts.is_disabled(DisableCheck::LongLine) {
        let found = check_long_line(filename, i, line, opts.line_length);
        go = record_found(runner, found);
    }
    let ghost r4 = runner@;
    proof {
        if r3.aborted {
            lemma_aborted_absorbs(r3, f4);
        }
        assert(r4 == r3.record_all(f4));
        lemma_record_all_concat(r0, f1 + f2 + f3, f4);
    }

    let ghost f5 = unless_disabled(
        *opts,
        DisableCheck::ControlChar,
        control_chars(file, i as int, line@),
    );
    if go && !opts.is_disabled(DisableCheck::ControlChar) {
        let found = check_control_chars(filename, i, line);
        go = record_each(runner, found);
    }
    let ghost r5 = runner@;
    proof {
        if r4.aborted {
            lemma_aborted_absorbs(r4, f5);
        }
        assert(r5 == r4.record_all(f5));
        lemma_record_all_concat(r0, f1 + f2 + f3 + f4, f5);
    }

    let ghost f6 = unless_disabled(
        *opts,
        DisableCheck::ConsecutiveBlank,
        optional_seq(
            blank_state(all, i as int).finding(
                file,
                i as int,
                line@,
                opts.consecutive_blank as nat,
            ),
        ),
    );
    if go && !opts.is_disabled(DisableCheck::ConsecutiveBlank) {
        let found = run.check(filename, i, line, opts.consecutive_blank);
        go = record_found(runner, found);
    }
    proof {
        if r5.aborted {
            lemma_aborted_absorbs(r5, f6);
        }
        assert(runner@ == r5.record_all(f6));
        lemma_record_all_concat(r0, f1 + f2 + f3 + f4 + f5, f6);
    }
    go
}

/// Runs the checks that look at the end of an input, and hands what they find to the
/// governor.
fn lint_end(
    filename: &str,
    lines: &Vec<Vec<char>>,
    run: &BlankRun,
    runner: &mut LintRunner,
    opts: &LintOptions,
) -> (keep_going: bool)
    requires
        old(runner).wf(),
        !old(runner)@.aborted,
        !opts.disabled(DisableCheck::ConsecutiveBlank) ==> run@ == blank_state(
            lines_view(lines@),
            lines@.len() as int,
        ) && run@.precedes(lines@.len() as int),
    ensures
        final(runner).wf(),
        final(runner)@ == old(runner)@.record_all(
            end_findings(filename@, lines_view(lines@), *opts),
        ),
        keep_going == !final(runner)@.aborted,
{
    if lines.len() == 0 {
        return true;
    }
    let last = lines.len() - 1;
    let line = lines[last].as_slice();
    let ghost file = filename@;
    let ghost all = lines_view(lines@);
    assert(line@ == all[last as int]);
    let ghost r0 = runner@;
    let mut go = true;

    let ghost f1 = unless_disabled(
        *opts,
        DisableCheck::ConsecutiveBlank,
        optional_seq(
            blank_state(all, all.len() as int).end_finding(
                file,
                last as int,
                line@,
                opts.consecutive_blank as nat,
            ),
        ),
    );
    if !opts.is_disabled(DisableCheck::ConsecutiveBlank) {
        let found = run.check_end(filename, last, line, opts.consecutive_blank);
        go = record_found(runner, found);
    }
    let ghost r1 = runner@;
    assert(r1 == r0.record_all(f1));

    let ghost f2 = unless_disabled(
        *opts,
        DisableCheck::FinalNewline,
        optional_seq(final_newline(file, last as int, line@)),
    );
    if go && !opts.is_disabled(DisableCheck::FinalNewline) {
        let found = check_final_newline(filename, last, line);
        go = record_found(runner, found);
    }
    proof {
        if r1.aborted {
            lemma_aborted_absorbs(r1, f2);
        }
        assert(runner@ == r1.record_all(f2));
        lemma_record_all_concat(r0, f1, f2);
    }
    go
}

/// Whether an input is passed over without a look at its lines: it counts as binary and
/// the options do not force it to be read as text.
pub open spec fn skipped(bytes: Seq<u8>, opts: LintOptions) -> bool {
    !opts.text && looks_binary(bytes)
}

/// Lints one input. `text` is the whole input and `filename` the name under which its
/// diagnostics are filed. Every finding goes to `runner`, in the order of discovery; what
/// the runner keeps of them is decided by its limits alone. An input that counts as binary
/// is passed over. The answer is `false` once the run is aborted: no further input is to
/// be linted then, and none of this one is read once that has happened. Every diagnostic
/// that is added points into the text that it shows, and none that the runner held is taken
/// away.
pub fn lint_lines(filename: &str, text: &str, runner: &mut LintRunner, opts: &LintOptions) -> (
    keep_going: bool
)
    requires
        old(runner).wf(),
    ensures
        final(runner).wf(),
        final(runner)@ == if skipped(text.spec_bytes(), *opts) {
            old(runner)@
        } else {
            old(runner)@.record_all(findings(filename@, text@, *opts))
        },
        keep_going == !final(runner)@.aborted,
        all_well_formed(old(runner)@.diagnostics) ==> all_well_formed(final(runner)@.diagnostics),
        old(runner)@.diagnostics.is_prefix_of(final(runner)@.diagnostics),
{
    proof {
        lemma_record_all_extends(runner@, findings(filename@, text@, *opts));
        lemma_findings_well_formed(filename@, text@, *opts);
        if all_well_formed(runner@.diagnostics) {
            lemma_record_all_well_formed(runner@, findings(filename@, text@, *opts));
        }
    }
    if runner.is_aborted() {
        proof {
            lemma_aborted_absorbs(runner@, findings(filename@, text@, *opts));
        }
        return false;
    }
    if !opts.text && is_binary(text.as_bytes()) {
        return true;
    }
    let chars = chars_of(text);
    let lines = split_into_lines(chars.as_slice());
    let ghost file = filename@;
    let ghost all = split_lines(text@);
    let ghost target = runner@.record_all(findings_from(file, all, *opts, 0));
    let mut run = BlankRun::new();
    let mut i: usize = 0;
    while i < lines.len()
        invariant
            i <= lines.len(),
            lines_view(lines@) == all,
            file == filename@,
            runner.wf(),
            !runner@.aborted,
            runner@.record_all(findings_from(file, all, *opts, i as int)) == target,
            target == old(runner)@.record_all(findings(filename@, text@, *opts)),
            all_well_formed(old(runner)@.diagnostics) ==> all_well_formed(target.diagnostics),
            old(runner)@.diagnostics.is_prefix_of(target.diagnostics),
            !skipped(text.spec_bytes(), *opts),
            !opts.disabled(DisableCheck::ConsecutiveBlank) ==> run@ == blank_state(
                all,
                i as int,
            ) && run@.precedes(i as int),
        decreases lines.len() - i,
    {
        let ghost before = runner@;
        let keep_going = lint_line(filename, &lines, i, &mut run, runner, opts);
        proof {
            lemma_record_all_concat(
                before,
                line_findings(file, all, i as int, *opts),
                findings_from(file, all, *opts, i + 1),
            );
        }
        if !keep_going {
            proof {
                lemma_aborted_absorbs(runner@, findings_from(file, all, *opts, i + 1));
            }
            return false;
        }
        i += 1;
    }
    lint_end(filename, &lines, &run, runner, opts)
}

/// Whether exactly `count` blank lines stand right before line `i`: the lines from
/// `i - count` up to `i` are blank, and the one before them, if there is one, is not.
pub open spec fn blank_run_before(lines: Seq<Seq<char>>, i: int, count: int) -> bool {
    &&& 0 <= count <= i <= lines.len()
    &&& forall|j: int| i - count <= j < i ==> is_blank(#[trigger] lines[j])
    &&& i - count > 0 ==> !is_blank(lines[i - count - 1])
}

/// What the check on blank lines carries at line `i` counts the blank lines right before
/// that line, and remembers the line before them.
pub proof fn lemma_blank_state(lines: Seq<Seq<char>>, i: int, count: int)
    requires
        blank_run_before(lines, i, count),
    ensures
        blank_state(lines, i).blanks_before(i) == count,
        blank_state(lines, i).precedes(i),
        blank_state(lines, i).prev is Some <==> i - count > 0,
    decreases count,
{
    if i > 0 {
        if count > 0 {
            assert(is_blank(lines[i - 1]));
            lemma_blank_state(lines, i - 1, count - 1);
        }
    }
}

/// A line that is not blank is reported by the check on blank lines exactly when more
/// than `max` blank lines stand right before it, and the span then covers just those
/// lines: a run of `max + 1` blank lines gives one diagnostic of `max + 1` lines, a run of
/// `max` gives none.
pub proof fn lemma_blank_run_reported(
    file: Seq<char>,
    lines: Seq<Seq<char>>,
    i: int,
    count: int,
    max: nat,
)
    requires
        blank_run_before(lines, i, count),
        i < lines.len(),
        !is_blank(lines[i]),
    ensures
        blank_state(lines, i).finding(file, i, lines[i], max) is Some <==> count > max,
        blank_state(lines, i).finding(file, i, lines[i], max) matches Some(d) ==> d.lnum == i
            - count && d.end_lnum == i - 1 && d.end_lnum - d.lnum + 1 == count && d.code
            == "consecutive-blank"@ && d.message == blank_run_message(count as nat, max),
{
    lemma_blank_state(lines, i, count);
}

/// An input that ends in blank lines is reported at its end exactly when more than `max`
/// blank lines stand there, and the span then covers just those lines; the diagnostic has
/// a helper only where a line that is not blank stands before them.
pub proof fn lemma_blank_run_reported_at_end(
    file: Seq<char>,
    lines: Seq<Seq<char>>,
    count: int,
    max: nat,
)
    requires
        blank_run_before(lines, lines.len() as int, count),
        count > 0,
    ensures
        ({
            let last = lines.len() - 1;
            let found = blank_state(lines, lines.len() as int).end_finding(
                file,
                last,
                lines[last],
                max,
            );
            &&& found is Some <==> count > max
            &&& found matches Some(d) ==> d.lnum == lines.len() - count && d.end_lnum == last
                && d.end_lnum - d.lnum + 1 == count && (d.helpers is Some <==> lines.len()
                - count > 0)
        }),
{
    let n = lines.len() as int;
    lemma_blank_state(lines, n, count);
    assert(is_blank(lines[n - 1]));
    lemma_blank_state(lines, n - 1, count - 1);
    assert(blank_state(lines, n) == blank_state(lines, n - 1).step(n - 1, lines[n - 1]));
}

/// The number of diagnostics with a given code in a sequence.
pub open spec fn count_code(ds: Seq<DiagnosticView>, code: Seq<char>) -> nat
    decreases ds.len(),
{
    if ds.len() == 0 {
        0
    } else {
        count_code(ds.drop_last(), code) + if ds.last().code == code {
            1nat
        } else {
            0nat
        }
    }
}

/// The count of a code in two sequences joined is the sum of the counts in each.
pub proof fn lemma_count_code_concat(a: Seq<DiagnosticView>, b: Seq<DiagnosticView>, code: Seq<char>)
    ensures
        count_code(a + b, code) == count_code(a, code) + count_code(b, code),
    decreases b.len(),
{
    if b.len() == 0 {
        assert(a + b == a);
    } else {
        lemma_count_code_concat(a, b.drop_last(), code);
        assert((a + b).drop_last() == a + b.drop_last());
    }
}

/// The count of a code in an optional finding.
pub proof fn lemma_count_code_optional(found: Option<DiagnosticView>, code: Seq<char>)
    ensures
        count_code(optional_seq(found), code) == if found matches Some(d) && d.code == code {
            1nat
        } else {
            0nat
        },
{
    if let Some(d) = found {
        assert(seq![d].drop_last() == Seq::<DiagnosticView>::empty());
        assert(count_code(seq![d].drop_last(), code) == 0);
    }
}

/// The check on control characters reports nothing under another code than its own.
pub proof fn lemma_count_code_control(
    file: Seq<char>,
    lnum: int,
    line: Seq<char>,
    n: nat,
    code: Seq<char>,
)
    requires
        code != "control-char"@,
    ensures
        count_code(control_chars_upto(file, lnum, line, n), code) == 0,
    decreases n,
{
    if n > 0 {
        lemma_count_code_control(file, lnum, line, (n - 1) as nat, code);
        let before = control_chars_upto(file, lnum, line, (n - 1) as nat);
        if reported_control(line[n - 1]) {
            assert(before.push(control_char_at(file, lnum, line, n - 1)).drop_last() == before);
        }
    }
}

/// Among the findings of one line, exactly one is of mixed indentation where the line's
/// indentation holds both a space and a tab and the check is switched on, and none
/// otherwise: whichever of the two comes first, the line is reported once.
pub proof fn lemma_mix_indent_once(
    file: Seq<char>,
    lines: Seq<Seq<char>>,
    i: int,
    opts: LintOptions,
)
    requires
        0 <= i < lines.len(),
    ensures
        count_code(line_findings(file, lines, i, opts), "mix-indent"@) == if !opts.disabled(
            DisableCheck::MixIndent,
        ) && mix_indent(file, i, lines[i]) is Some {
            1nat
        } else {
            0nat
        },
{
    let code = "mix-indent"@;
    let line = lines[i];
    reveal_strlit("mix-indent");
    reveal_strlit("trailing-space");
    reveal_strlit("conflict-marker");
    reveal_strlit("long-line");
    reveal_strlit("control-char");
    reveal_strlit("consecutive-blank");
    assert(code.len() == 10);
    assert("trailing-space"@.len() == 14);
    assert("conflict-marker"@.len() == 15);
    assert("long-line"@.len() == 9);
    assert("control-char"@.len() == 12);
    assert("consecutive-blank"@.len() == 17);
    let f1 = unless_disabled(
        opts,
        DisableCheck::MixIndent,
        optional_seq(mix_indent(file, i, line)),
    );
    let f2 = unless_disabled(
        opts,
        DisableCheck::TrailingSpace,
        optional_seq(trailing_space(file, i, line)),
    );
    let f3 = unless_disabled(
        opts,
        DisableCheck::ConflictMarker,
        optional_seq(conflict_marker(file, i, line, opts.conflict_marker_style)),
    );
    let f4 = unless_disabled(
        opts,
        DisableCheck::LongLine,
        optional_seq(long_line(file, i, line, opts.line_length as nat)),
    );
    let f5 = unless_disabled(opts, DisableCheck::ControlChar, control_chars(file, i, line));
    let f6 = unless_disabled(
        opts,
        DisableCheck::ConsecutiveBlank,
        optional_seq(
            blank_state(lines, i).finding(file, i, line, opts.consecutive_blank as nat),
        ),
    );
    lemma_count_code_optional(mix_indent(file, i, line), code);
    lemma_count_code_optional(trailing_space(file, i, line), code);
    lemma_count_code_optional(conflict_marker(file, i, line, opts.conflict_marker_style), code);
    lemma_count_code_optional(long_line(file, i, line, opts.line_length as nat), code);
    lemma_count_code_control(file, i, line, trim_eol(line).len(), code);
    lemma_count_code_optional(
        blank_state(lines, i).finding(file, i, line, opts.consecutive_blank as nat),
        code,
    );
    lemma_count_code_concat(f1, f2, code);
    lemma_count_code_concat(f1 + f2, f3, code);
    lemma_count_code_concat(f1 + f2 + f3, f4, code);
    lemma_count_code_concat(f1 + f2 + f3 + f4, f5, code);
    lemma_count_code_concat(f1 + f2 + f3 + f4 + f5, f6, code);
    assert(count_code(f2, code) == 0);
    assert(count_code(f3, code) == 0);
    assert(count_code(f4, code) == 0);
    assert(count_code(f5, code) == 0);
    assert(count_code(f6, code) == 0);
}

} // verus!
