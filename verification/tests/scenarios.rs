use genlint::lint::{is_binary, lint_lines};
use genlint::runner::LintRunner;
use genlint::types::{ConflictMarkerStyle, Diagnostic, DisableCheck, LintOptions, Severity};

fn lint(input: &str, opts: &LintOptions) -> Vec<Diagnostic> {
    let mut runner = LintRunner::new(opts);
    lint_lines("sample.txt", input, &mut runner, opts);
    runner.into_diagnostics()
}

fn codes(diags: &[Diagnostic]) -> Vec<&str> {
    diags.iter().map(|d| d.code.as_str()).collect()
}

#[test]
fn default_options_are_the_documented_ones() {
    let opts = LintOptions::default();
    assert!(opts.disables.is_empty());
    assert_eq!(opts.line_length, 120);
    assert_eq!(opts.consecutive_blank, 1);
    assert_eq!(opts.max_errors, 0);
    assert_eq!(opts.max_warnings, 0);
    assert_eq!(opts.max_infos, 0);
    assert!(!opts.text);
    assert_eq!(opts.conflict_marker_style, ConflictMarkerStyle::Git);
}

#[test]
fn tab_then_spaces_is_reported_at_the_first_space() {
    let diags = lint("\t  let x = 5;\n", &LintOptions::default());
    assert_eq!(diags.len(), 1);
    let d = &diags[0];
    assert_eq!(d.code, "mix-indent");
    assert_eq!(d.file, "sample.txt");
    assert_eq!((d.lnum, d.col, d.end_lnum, d.end_col), (0, 1, 0, 1));
    assert_eq!(d.severity, Severity::Warning);
    assert_eq!(d.message, "Mixed tabs and whitespaces");
    let helpers = d.helpers.as_ref().unwrap();
    assert_eq!(helpers.len(), 1);
    assert_eq!(helpers[0].message, "This line starts with tabs");
    assert_eq!((helpers[0].lnum, helpers[0].col), (0, 0));
    assert_eq!((helpers[0].end_lnum, helpers[0].end_col), (0, 0));
}

#[test]
fn spaces_then_tab_is_reported_at_the_first_tab() {
    let diags = lint("  \tlet x = 5;\n", &LintOptions::default());
    assert_eq!(diags.len(), 1);
    let d = &diags[0];
    assert_eq!(d.code, "mix-indent");
    assert_eq!((d.col, d.end_col), (2, 2));
    assert_eq!(d.source, "   let x = 5;\n");
    let helpers = d.helpers.as_ref().unwrap();
    assert_eq!(helpers[0].message, "This line starts with whitespaces");
    assert_eq!((helpers[0].col, helpers[0].end_col), (0, 1));
}

#[test]
fn space_and_tab_after_the_first_word_are_not_mixed_indentation() {
    let diags = lint("  let x =\t5;\n", &LintOptions::default());
    assert!(diags.is_empty());
    let diags = lint(" \t\n", &LintOptions::default());
    assert_eq!(codes(&diags), ["trailing-space"]);
}

#[test]
fn trailing_spaces_are_reported_up_to_the_last_one() {
    let diags = lint("let x = 5;  \n", &LintOptions::default());
    assert_eq!(diags.len(), 1);
    let d = &diags[0];
    assert_eq!(d.code, "trailing-space");
    assert_eq!((d.col, d.end_col), (10, 11));
    assert_eq!(d.severity, Severity::Warning);
    assert_eq!(d.message, "Trailing whitespaces or tabs");
    assert!(d.helpers.is_none());
}

#[test]
fn trailing_space_span_counts_characters_not_bytes() {
    let diags = lint("h\u{e9}llo \t\r\n", &LintOptions::default());
    assert_eq!(diags.len(), 1);
    assert_eq!(diags[0].code, "trailing-space");
    assert_eq!((diags[0].col, diags[0].end_col), (5, 6));
    assert_eq!(diags[0].source, "h\u{e9}llo  \r\n");
}

#[test]
fn stripping_the_trailing_space_span_leaves_nothing_to_report() {
    let line = "value = 1 \t \n";
    let diags = lint(line, &LintOptions::default());
    assert_eq!(codes(&diags), ["trailing-space"]);
    let chars: Vec<char> = line.chars().collect();
    let mut stripped = String::new();
    for (i, c) in chars.iter().enumerate() {
        if i < diags[0].col || i > diags[0].end_col {
            stripped.push(*c);
        }
    }
    assert_eq!(stripped, "value = 1\n");
    assert!(lint(&stripped, &LintOptions::default()).is_empty());
}

#[test]
fn five_blank_lines_are_one_diagnostic_without_helpers() {
    let diags = lint("\n\n\n\n\n", &LintOptions::default());
    assert_eq!(diags.len(), 1);
    let d = &diags[0];
    assert_eq!(d.code, "consecutive-blank");
    assert_eq!((d.lnum, d.end_lnum), (0, 4));
    assert_eq!((d.col, d.end_col), (0, 0));
    assert_eq!(d.severity, Severity::Information);
    assert_eq!(d.message, "Too many consecutive blank lines (5/1)");
    assert_eq!(d.source, "\n\n\n\n\n");
    assert_eq!(d.source_lnum, 0);
    assert!(d.helpers.as_ref().map_or(true, |h| h.is_empty()));
}

#[test]
fn missing_final_newline_is_reported_at_the_last_character() {
    let diags = lint("let x = 5;", &LintOptions::default());
    assert_eq!(diags.len(), 1);
    let d = &diags[0];
    assert_eq!(d.code, "final-newline");
    assert_eq!((d.lnum, d.col, d.end_lnum, d.end_col), (0, 9, 0, 9));
    assert_eq!(d.severity, Severity::Information);
    assert_eq!(d.message, "Missing final newline");
    assert_eq!(d.source, "let x = 5;");
}

#[test]
fn final_newline_is_checked_on_the_last_line_only() {
    let diags = lint("a\nb\nc", &LintOptions::default());
    assert_eq!(codes(&diags), ["final-newline"]);
    assert_eq!((diags[0].lnum, diags[0].col), (2, 0));
    assert!(lint("a\nb\nc\n", &LintOptions::default()).is_empty());
    assert!(lint("a\r", &LintOptions::default())
        .iter()
        .all(|d| d.code != "final-newline"));
}

#[test]
fn empty_input_has_no_diagnostics() {
    assert!(lint("", &LintOptions::default()).is_empty());
}

#[test]
fn line_as_wide_as_the_limit_is_not_reported() {
    let opts = LintOptions { line_length: 10, ..LintOptions::default() };
    assert!(lint("0123456789\n", &opts).is_empty());
}

#[test]
fn line_one_column_over_the_limit_is_reported() {
    let opts = LintOptions { line_length: 10, ..LintOptions::default() };
    let diags = lint("0123456789A\n", &opts);
    assert_eq!(diags.len(), 1);
    let d = &diags[0];
    assert_eq!(d.code, "long-line");
    assert_eq!(d.message, "Too long line (11/10)");
    assert_eq!((d.col, d.end_col), (10, 10));
    assert_eq!(d.severity, Severity::Information);
}

#[test]
fn long_line_counts_display_columns() {
    let opts = LintOptions { line_length: 6, ..LintOptions::default() };
    // two wide characters and one tab: 2 + 2 + 4 columns in three characters
    let diags = lint("\u{6f22}\u{5b57}\tx\n", &opts);
    assert_eq!(codes(&diags), ["long-line"]);
    assert_eq!(diags[0].message, "Too long line (9/6)");
    assert_eq!((diags[0].col, diags[0].end_col), (2, 3));
    // six narrow characters stay within six columns
    assert!(lint("abcdef\n", &opts).is_empty());
    // three wide characters are six columns too
    assert!(lint("\u{6f22}\u{5b57}\u{6f22}\n", &opts).is_empty());
}

#[test]
fn long_line_with_limit_zero_reports_every_line_with_width() {
    let opts = LintOptions { line_length: 0, ..LintOptions::default() };
    let diags = lint("a\n\nb\n", &opts);
    assert_eq!(codes(&diags), ["long-line", "long-line"]);
    assert_eq!(diags[0].message, "Too long line (1/0)");
    assert_eq!((diags[0].lnum, diags[1].lnum), (0, 2));
}

#[test]
fn run_of_max_plus_one_blank_lines_is_reported() {
    let opts = LintOptions { consecutive_blank: 2, ..LintOptions::default() };
    let diags = lint("a\n\n\n\nb\n", &opts);
    assert_eq!(diags.len(), 1);
    let d = &diags[0];
    assert_eq!(d.code, "consecutive-blank");
    assert_eq!((d.lnum, d.end_lnum), (1, 3));
    assert_eq!(d.end_lnum - d.lnum + 1, 3);
    assert_eq!(d.message, "Too many consecutive blank lines (3/2)");
    assert_eq!(d.source, "a\n\n\n\nb\n");
    assert_eq!(d.source_lnum, 0);
    let helpers = d.helpers.as_ref().unwrap();
    assert_eq!(helpers.len(), 2);
    assert_eq!(helpers[0].message, "Previous non-blank line");
    assert_eq!((helpers[0].lnum, helpers[0].col, helpers[0].end_col), (0, 0, 0));
    assert_eq!(helpers[1].message, "Next non-blank line");
    assert_eq!((helpers[1].lnum, helpers[1].col, helpers[1].end_col), (4, 0, 0));
}

#[test]
fn run_of_max_blank_lines_is_not_reported() {
    let opts = LintOptions { consecutive_blank: 2, ..LintOptions::default() };
    assert!(lint("a\n\n\nb\n", &opts).is_empty());
    assert!(lint("a\n\n\n", &opts).is_empty());
}

#[test]
fn blank_run_at_the_start_has_only_the_next_line_helper() {
    let diags = lint("\n\nlet x = 5;\n", &LintOptions::default());
    assert_eq!(codes(&diags), ["consecutive-blank"]);
    let d = &diags[0];
    assert_eq!((d.lnum, d.end_lnum, d.source_lnum), (0, 1, 0));
    assert_eq!(d.source, "\n\nlet x = 5;\n");
    let helpers = d.helpers.as_ref().unwrap();
    assert_eq!(helpers.len(), 1);
    assert_eq!(helpers[0].message, "Next non-blank line");
    assert_eq!((helpers[0].lnum, helpers[0].end_col), (2, 9));
}

#[test]
fn blank_run_at_the_end_has_the_previous_line_helper() {
    let diags = lint("\tlet x = 5;\r\n\r\n\r\n", &LintOptions::default());
    assert_eq!(codes(&diags), ["consecutive-blank"]);
    let d = &diags[0];
    assert_eq!((d.lnum, d.end_lnum, d.source_lnum), (1, 2, 0));
    assert_eq!(d.source, " let x = 5;\r\n\r\n\r\n");
    assert_eq!(d.message, "Too many consecutive blank lines (2/1)");
    let helpers = d.helpers.as_ref().unwrap();
    assert_eq!(helpers.len(), 1);
    assert_eq!(helpers[0].message, "Previous non-blank line");
    assert_eq!((helpers[0].lnum, helpers[0].end_lnum), (0, 0));
    assert_eq!((helpers[0].col, helpers[0].end_col), (0, 10));
}

#[test]
fn line_of_spaces_is_not_blank() {
    let opts = LintOptions {
        disables: vec![DisableCheck::TrailingSpace],
        ..LintOptions::default()
    };
    assert!(lint("a\n\n \n\nb\n", &opts).is_empty());
}

#[test]
fn control_characters_are_reported_one_by_one() {
    let diags = lint("a\u{1}b\u{7f}\tc\rd\n", &LintOptions::default());
    assert_eq!(codes(&diags), ["control-char", "control-char", "control-char"]);
    let cols: Vec<usize> = diags.iter().map(|d| d.col).collect();
    assert_eq!(cols, [1, 3, 6]);
    assert!(diags.iter().all(|d| d.col == d.end_col));
    assert!(diags.iter().all(|d| d.severity == Severity::Warning));
    assert_eq!(diags[0].message, "Line contains a control character");
    assert_eq!(diags[0].source, "a\u{1}b\u{7f} c\rd\n");
}

#[test]
fn checks_run_in_a_fixed_order_on_each_line() {
    let opts = LintOptions { line_length: 8, ..LintOptions::default() };
    let diags = lint(" \t<<<<<<< \u{2}x \nok\n", &opts);
    assert_eq!(
        codes(&diags),
        ["mix-indent", "trailing-space", "long-line", "control-char"]
    );
    let diags = lint("<<<<<<< x \n", &opts);
    assert_eq!(codes(&diags), ["trailing-space", "conflict-marker", "long-line"]);
}

#[test]
fn each_check_can_be_switched_off() {
    let input = " \tx \n\n\n<<<<<<<\n\u{1}0123456789A";
    let base = LintOptions { line_length: 10, ..LintOptions::default() };
    let all = lint(input, &base);
    assert_eq!(
        codes(&all),
        [
            "mix-indent",
            "trailing-space",
            "conflict-marker",
            "consecutive-blank",
            "long-line",
            "control-char",
            "final-newline"
        ]
    );
    let checks = [
        (DisableCheck::MixIndent, "mix-indent"),
        (DisableCheck::TrailingSpace, "trailing-space"),
        (DisableCheck::ConflictMarker, "conflict-marker"),
        (DisableCheck::ConsecutiveBlank, "consecutive-blank"),
        (DisableCheck::LongLine, "long-line"),
        (DisableCheck::ControlChar, "control-char"),
        (DisableCheck::FinalNewline, "final-newline"),
    ];
    for (check, code) in checks {
        let opts = LintOptions { disables: vec![check], line_length: 10, ..LintOptions::default() };
        let diags = lint(input, &opts);
        assert_eq!(diags.len(), 6);
        assert!(diags.iter().all(|d| d.code != code));
    }
}

#[test]
fn binary_input_is_skipped_unless_text_is_forced() {
    let input = "a \n\0b \n";
    assert!(lint(input, &LintOptions::default()).is_empty());
    let opts = LintOptions { text: true, ..LintOptions::default() };
    assert_eq!(
        codes(&lint(input, &opts)),
        ["trailing-space", "trailing-space", "control-char"]
    );
}

#[test]
fn only_the_first_8192_bytes_decide_what_is_binary() {
    let mut bytes = vec![b'a'; 8192];
    assert!(!is_binary(&bytes));
    bytes.push(0);
    assert!(!is_binary(&bytes));
    bytes[8191] = 0;
    assert!(is_binary(&bytes));
    assert!(is_binary(&[0]));
    assert!(!is_binary(&[]));

    let mut text = "a".repeat(8192);
    text.push('\0');
    text.push(' ');
    text.push('\n');
    assert_eq!(
        codes(&lint(&text, &LintOptions { line_length: 10000, ..LintOptions::default() })),
        ["trailing-space", "control-char"]
    );
}

#[test]
fn line_numbers_follow_line_feeds_only() {
    let diags = lint("a\r\nb \r\n\nc \n", &LintOptions::default());
    assert_eq!(codes(&diags), ["trailing-space", "trailing-space"]);
    assert_eq!((diags[0].lnum, diags[0].col, diags[0].end_col), (1, 1, 1));
    assert_eq!((diags[1].lnum, diags[1].col, diags[1].end_col), (3, 1, 1));
    assert_eq!(diags[0].source, "b \r\n");
}

#[test]
fn every_span_lies_within_the_shown_text() {
    let input = "\t  a \n\n\n\u{6f22}\u{5b57}\u{1}<<<<<<< x\t\n=======\r\n\r\n\r\n\nlast line without newline ";
    let opts = LintOptions { line_length: 8, ..LintOptions::default() };
    let diags = lint(input, &opts);
    assert_eq!(diags.len(), 11);
    for d in &diags {
        let len = d.source.chars().count();
        let lines = d.source.matches('\n').count();
        let mut spans = vec![(d.lnum, d.col, d.end_lnum, d.end_col)];
        for h in d.helpers.iter().flatten() {
            spans.push((h.lnum, h.col, h.end_lnum, h.end_col));
        }
        for (lnum, col, end_lnum, end_col) in spans {
            assert!(d.source_lnum <= lnum && lnum <= end_lnum);
            assert!(end_lnum - d.source_lnum <= lines);
            assert!(lnum < end_lnum || col <= end_col);
            let start = genlint::util::coord_to_pos(&d.source, d.source_lnum, lnum, col);
            let end = genlint::util::coord_to_pos(&d.source, d.source_lnum, end_lnum, end_col);
            assert!(start <= end && end < len);
        }
    }
}
