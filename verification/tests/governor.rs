use genlint::lint::lint_lines;
use genlint::runner::LintRunner;
use genlint::types::{ConflictMarkerStyle, Diagnostic, LintOptions, Severity};

fn diagnostic(severity: Severity, lnum: usize) -> Diagnostic {
    Diagnostic {
        file: "f".to_string(),
        lnum,
        end_lnum: lnum,
        col: 0,
        end_col: 0,
        severity,
        source: "x\n".to_string(),
        source_lnum: lnum,
        code: "code".to_string(),
        message: "message".to_string(),
        helpers: None,
    }
}

#[test]
fn without_limits_everything_is_kept() {
    let opts = LintOptions::default();
    let mut runner = LintRunner::new(&opts);
    for i in 0..50 {
        let severity = match i % 3 {
            0 => Severity::Error,
            1 => Severity::Warning,
            _ => Severity::Information,
        };
        assert!(runner.record(diagnostic(severity, i)));
    }
    assert_eq!(runner.diagnostics().len(), 50);
    assert_eq!(runner.count(Severity::Error), 17);
    assert_eq!(runner.count(Severity::Warning), 17);
    assert_eq!(runner.count(Severity::Information), 16);
    assert!(!runner.is_aborted());
    assert!(runner.advisories().is_empty());
    assert!(!runner.limit_reached(Severity::Error));
    let lnums: Vec<usize> = runner.diagnostics().iter().map(|d| d.lnum).collect();
    assert_eq!(lnums, (0..50).collect::<Vec<usize>>());
}

#[test]
fn the_nth_error_is_kept_and_aborts_the_run() {
    let opts = LintOptions { max_errors: 2, ..LintOptions::default() };
    let mut runner = LintRunner::new(&opts);
    assert!(runner.record(diagnostic(Severity::Error, 0)));
    assert!(runner.record(diagnostic(Severity::Warning, 1)));
    assert!(!runner.limit_reached(Severity::Error));
    assert!(!runner.record(diagnostic(Severity::Error, 2)));
    assert!(runner.is_aborted());
    assert!(runner.limit_reached(Severity::Error));
    assert_eq!(runner.advisories().as_slice(), [Severity::Error]);
    // nothing of any class is taken in any more
    assert!(!runner.record(diagnostic(Severity::Error, 3)));
    assert!(!runner.record(diagnostic(Severity::Warning, 4)));
    assert!(!runner.record(diagnostic(Severity::Information, 5)));
    assert_eq!(runner.count(Severity::Error), 2);
    assert_eq!(runner.count(Severity::Warning), 1);
    assert_eq!(runner.count(Severity::Information), 0);
    assert_eq!(runner.advisories().as_slice(), [Severity::Error]);
    let lnums: Vec<usize> = runner.diagnostics().iter().map(|d| d.lnum).collect();
    assert_eq!(lnums, [0, 1, 2]);
}

#[test]
fn a_warning_limit_blocks_warnings_only() {
    let opts = LintOptions { max_warnings: 1, max_infos: 2, ..LintOptions::default() };
    let mut runner = LintRunner::new(&opts);
    assert!(runner.record(diagnostic(Severity::Warning, 0)));
    assert!(runner.limit_reached(Severity::Warning));
    assert!(runner.is_blocked(Severity::Warning));
    assert!(runner.record(diagnostic(Severity::Warning, 1)));
    assert!(runner.record(diagnostic(Severity::Information, 2)));
    assert!(runner.record(diagnostic(Severity::Error, 3)));
    assert!(runner.record(diagnostic(Severity::Information, 4)));
    assert!(runner.record(diagnostic(Severity::Information, 5)));
    assert!(runner.record(diagnostic(Severity::Error, 6)));
    assert!(!runner.is_aborted());
    assert!(!runner.is_blocked(Severity::Error));
    assert_eq!(runner.count(Severity::Warning), 1);
    assert_eq!(runner.count(Severity::Information), 2);
    assert_eq!(runner.count(Severity::Error), 2);
    assert_eq!(
        runner.advisories().as_slice(),
        [Severity::Warning, Severity::Information]
    );
    let lnums: Vec<usize> = runner.diagnostics().iter().map(|d| d.lnum).collect();
    assert_eq!(lnums, [0, 2, 3, 4, 6]);
}

#[test]
fn scanning_stops_at_the_error_limit() {
    let opts = LintOptions { max_errors: 2, ..LintOptions::default() };
    let mut runner = LintRunner::new(&opts);
    let input = "a \n<<<<<<< one\nb \n=======\nc \n>>>>>>> two\nd \n";
    assert!(!lint_lines("first", input, &mut runner, &opts));
    let codes: Vec<&str> = runner.diagnostics().iter().map(|d| d.code.as_str()).collect();
    assert_eq!(
        codes,
        ["trailing-space", "conflict-marker", "trailing-space", "conflict-marker"]
    );
    assert_eq!(runner.count(Severity::Error), 2);
    assert_eq!(runner.advisories().as_slice(), [Severity::Error]);
    // the limit holds for the whole run: the next input is not read
    assert!(!lint_lines("second", "x \n", &mut runner, &opts));
    assert_eq!(runner.diagnostics().len(), 4);
    assert!(runner.diagnostics().iter().all(|d| d.file == "first"));
}

#[test]
fn the_error_limit_stops_the_checks_of_the_same_line() {
    let opts = LintOptions { max_errors: 1, line_length: 5, ..LintOptions::default() };
    let mut runner = LintRunner::new(&opts);
    assert!(!lint_lines("f", "<<<<<<< long \n", &mut runner, &opts));
    let codes: Vec<&str> = runner.diagnostics().iter().map(|d| d.code.as_str()).collect();
    assert_eq!(codes, ["trailing-space", "conflict-marker"]);
}

#[test]
fn counters_run_over_all_inputs() {
    let opts = LintOptions { max_warnings: 3, ..LintOptions::default() };
    let mut runner = LintRunner::new(&opts);
    assert!(lint_lines("one", "a \nb \n", &mut runner, &opts));
    assert!(lint_lines("two", "c \nd \n=======\ne", &mut runner, &opts));
    let found: Vec<(&str, &str)> = runner
        .diagnostics()
        .iter()
        .map(|d| (d.file.as_str(), d.code.as_str()))
        .collect();
    assert_eq!(
        found,
        [
            ("one", "trailing-space"),
            ("one", "trailing-space"),
            ("two", "trailing-space"),
            ("two", "conflict-marker"),
            ("two", "final-newline"),
        ]
    );
    assert_eq!(runner.advisories().as_slice(), [Severity::Warning]);
}

#[test]
fn the_dialect_decides_which_markers_are_reported() {
    let input = "<<<<<<< a\n||||||| b\n%%%%%%% c\n=======\n+++++++ d\n------- e\n\\\\\\\\\\\\\\ f\n>>>>>>> g\n";
    let expect = [
        (ConflictMarkerStyle::Git, "Git conflict marker: ", vec![0, 3, 7]),
        (ConflictMarkerStyle::GitDiff3, "Git diff3 conflict marker: ", vec![0, 1, 3, 7]),
        (ConflictMarkerStyle::Jj, "Jujutsu conflict marker: ", vec![0, 2, 4, 6, 7]),
        (ConflictMarkerStyle::JjDiff3, "Jujutsu diff3 conflict marker: ", vec![0, 1, 3, 7]),
        (
            ConflictMarkerStyle::JjSnapshot,
            "Jujutsu snapshot conflict marker: ",
            vec![0, 4, 5, 7],
        ),
    ];
    let lines: Vec<&str> = input.lines().collect();
    for (style, words, lnums) in expect {
        let opts = LintOptions { conflict_marker_style: style, ..LintOptions::default() };
        let mut runner = LintRunner::new(&opts);
        assert!(lint_lines("f", input, &mut runner, &opts));
        let diags = runner.into_diagnostics();
        let found: Vec<usize> = diags.iter().map(|d| d.lnum).collect();
        assert_eq!(found, lnums);
        for d in &diags {
            assert_eq!(d.code, "conflict-marker");
            assert_eq!(d.severity, Severity::Error);
            assert_eq!(d.message, format!("{}{}", words, lines[d.lnum]));
            assert_eq!(d.col, 0);
            assert_eq!(d.end_col, lines[d.lnum].chars().count() - 1);
        }
    }
}
