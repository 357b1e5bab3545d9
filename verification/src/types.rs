//! The data that a lint run takes in and gives out.

use vstd::prelude::*;

verus! {

/// How the collected diagnostics are written out.
#[derive(Clone, Copy, Debug, PartialEq, Eq, Structural)]
pub enum Format {
    Json,
    Jsonl,
    Plain,
}

/// A check that a run can switch off.
#[derive(Clone, Copy, Debug, PartialEq, Eq, Structural)]
pub enum DisableCheck {
    MixIndent,
    TrailingSpace,
    ConflictMarker,
    LongLine,
    ControlChar,
    ConsecutiveBlank,
    FinalNewline,
}

/// The dialect of conflict markers that a run looks for.
#[derive(Clone, Copy, Debug, PartialEq, Eq, Structural)]
pub enum ConflictMarkerStyle {
    Git,
    GitDiff3,
    Jj,
    JjDiff3,
    JjSnapshot,
}

/// The class of a diagnostic. Reporting limits are kept per class.
#[derive(Clone, Copy, Debug, PartialEq, Eq, Structural)]
pub enum Severity {
    Error,
    Warning,
    Information,
}

/// The configuration of a run. It is built once and only read afterwards.
#[derive(Debug)]
pub struct LintOptions {
    /// The checks that are switched off.
    pub disables: Vec<DisableCheck>,
    /// The greatest display width that a line may have.
    pub line_length: usize,
    /// The greatest number of blank lines that may follow one another.
    pub consecutive_blank: usize,
    /// The number of errors after which the run stops; 0 for no limit.
    pub max_errors: usize,
    /// The number of warnings after which further warnings are dropped; 0 for no limit.
    pub max_warnings: usize,
    /// The number of informations after which further ones are dropped; 0 for no limit.
    pub max_infos: usize,
    /// Treat every input as text, whatever its first bytes are.
    pub text: bool,
    /// The dialect of conflict markers to report.
    pub conflict_marker_style: ConflictMarkerStyle,
}

/// A secondary span of a diagnostic, with a message of its own.
#[derive(Debug)]
pub struct Helper {
    pub message: String,
    pub lnum: usize,
    pub end_lnum: usize,
    pub col: usize,
    pub end_col: usize,
}

/// One reported issue. Lines and columns count characters from zero, and both ends of a
/// span belong to it.
#[derive(Debug)]
pub struct Diagnostic {
    pub file: String,
    pub lnum: usize,
    pub end_lnum: usize,
    pub col: usize,
    pub end_col: usize,
    pub severity: Severity,
    /// The text that holds the span; it may run over several lines.
    pub source: String,
    /// The number of the line at which `source` begins.
    pub source_lnum: usize,
    pub code: String,
    pub message: String,
    pub helpers: Option<Vec<Helper>>,
}

/// What a [`Helper`] holds.
pub struct HelperView {
    pub message: Seq<char>,
    pub lnum: int,
    pub end_lnum: int,
    pub col: int,
    pub end_col: int,
}

/// What a [`Diagnostic`] holds.
pub struct DiagnosticView {
    pub file: Seq<char>,
    pub lnum: int,
    pub end_lnum: int,
    pub col: int,
    pub end_col: int,
    pub severity: Severity,
    pub source: Seq<char>,
    pub source_lnum: int,
    pub code: Seq<char>,
    pub message: Seq<char>,
    pub helpers: Option<Seq<HelperView>>,
}

impl View for Helper {
    type V = HelperView;

    open spec fn view(&self) -> HelperView {
        HelperView {
            message: self.message@,
            lnum: self.lnum as int,
            end_lnum: self.end_lnum as int,
            col: self.col as int,
            end_col: self.end_col as int,
        }
    }
}

/// What each helper of `helpers` holds.
pub open spec fn helper_views(helpers: Seq<Helper>) -> Seq<HelperView> {
    helpers.map_values(|h: Helper| h@)
}

impl View for Diagnostic {
    type V = DiagnosticView;

    open spec fn view(&self) -> DiagnosticView {
        DiagnosticView {
            file: self.file@,
            lnum: self.lnum as int,
            end_lnum: self.end_lnum as int,
            col: self.col as int,
            end_col: self.end_col as int,
            severity: self.severity,
            source: self.source@,
            source_lnum: self.source_lnum as int,
            code: self.code@,
            message: self.message@,
            helpers: match self.helpers {
                Some(helpers) => Some(helper_views(helpers@)),
                None => None,
            },
        }
    }
}

/// What each diagnostic of `diagnostics` holds.
pub open spec fn diagnostic_views(diagnostics: Seq<Diagnostic>) -> Seq<DiagnosticView> {
    diagnostics.map_values(|d: Diagnostic| d@)
}

/// What an optional diagnostic holds.
pub open spec fn optional_view(diagnostic: Option<Diagnostic>) -> Option<DiagnosticView> {
    match diagnostic {
        Some(d) => Some(d@),
        None => None,
    }
}

impl Severity {
    /// The name under which the class is written out.
    pub open spec fn name(self) -> Seq<char> {
        match self {
            Severity::Error => "error"@,
            Severity::Warning => "warning"@,
            Severity::Information => "information"@,
        }
    }

    /// The name under which the class is written out.
    pub fn as_str(&self) -> (name: &'static str)
        ensures
            name@ == self.name(),
    {
        match self {
            Severity::Error => "error",
            Severity::Warning => "warning",
            Severity::Information => "information",
        }
    }
}

impl LintOptions {
    /// Whether `check` is switched off.
    pub open spec fn disabled(&self, check: DisableCheck) -> bool {
        self.disables@.contains(check)
    }

    /// The reporting limit of a class; 0 for no limit.
    pub open spec fn limit(&self, severity: Severity) -> nat {
        match severity {
            Severity::Error => self.max_errors as nat,
            Severity::Warning => self.max_warnings as nat,
            Severity::Information => self.max_infos as nat,
        }
    }

    /// Whether `check` is switched off.
    pub fn is_disabled(&self, check: DisableCheck) -> (off: bool)
        ensures
            off == self.disabled(check),
    {
        contains_check(&self.disables, check)
    }
}

impl Default for LintOptions {
    /// Every check on, lines of at most 120 columns, at most one blank line in a row, no
    /// reporting limit, binary inputs skipped, Git conflict markers.
    fn default() -> (opts: LintOptions)
        ensures
            opts.disables@.len() == 0,
            opts.line_length == 120,
            opts.consecutive_blank == 1,
            opts.max_errors == 0,
            opts.max_warnings == 0,
            opts.max_infos == 0,
            !opts.text,
            opts.conflict_marker_style == ConflictMarkerStyle::Git,
    {
        LintOptions {
            disables: Vec::new(),
            line_length: 120,
            consecutive_blank: 1,
            max_errors: 0,
            max_warnings: 0,
            max_infos: 0,
            text: false,
            conflict_marker_style: ConflictMarkerStyle::Git,
        }
    }
}

/// Two things asked of a run that cannot go together: a limit for a check that is switched
/// off.
#[derive(Clone, Copy, Debug, PartialEq, Eq, Structural)]
pub enum OptionConflict {
    /// A line length was given while the check on long lines is off.
    LineLengthWithoutCheck,
    /// A number of blank lines was given while the check on blank lines is off.
    ConsecutiveBlankWithoutCheck,
}

/// The conflict among what was asked of a run, if there is one; the one on the line length
/// where there are both.
pub open spec fn option_conflict(
    disables: Seq<DisableCheck>,
    line_length_given: bool,
    consecutive_blank_given: bool,
) -> Option<OptionConflict> {
    if line_length_given && disables.contains(DisableCheck::LongLine) {
        Some(OptionConflict::LineLengthWithoutCheck)
    } else if consecutive_blank_given && disables.contains(DisableCheck::ConsecutiveBlank) {
        Some(OptionConflict::ConsecutiveBlankWithoutCheck)
    } else {
        None
    }
}

/// Whether `check` is among `disables`.
fn contains_check(disables: &Vec<DisableCheck>, check: DisableCheck) -> (found: bool)
    ensures
        found == disables@.contains(check),
{
    let mut i: usize = 0;
    while i < disables.len()
        invariant
            i <= disables.len(),
            forall|j: int| 0 <= j < i ==> disables@[j] != check,
        decreases disables.len() - i,
    {
        if disables[i] == check {
            return true;
        }
        i += 1;
    }
    false
}

/// Tells whether a limit was asked for a check that is switched off. `line_length_given`
/// and `consecutive_blank_given` say whether the caller was given the limit explicitly.
pub fn find_option_conflict(
    disables: &Vec<DisableCheck>,
    line_length_given: bool,
    consecutive_blank_given: bool,
) -> (conflict: Option<OptionConflict>)
    ensures
        conflict == option_conflict(disables@, line_length_given, consecutive_blank_given),
{
    if line_length_given && contains_check(disables, DisableCheck::LongLine) {
        Some(OptionConflict::LineLengthWithoutCheck)
    } else if consecutive_blank_given && contains_check(
        disables,
        DisableCheck::ConsecutiveBlank,
    ) {
        Some(OptionConflict::ConsecutiveBlankWithoutCheck)
    } else {
        None
    }
}

impl OptionConflict {
    /// The words that tell the user of the conflict.
    pub open spec fn words(self) -> Seq<char> {
        match self {
            OptionConflict::LineLengthWithoutCheck =>
                "Cannot use --max-line-length when 'long-lines' is disabled."@,
            OptionConflict::ConsecutiveBlankWithoutCheck =>
                "Cannot use --max-consecutive-blank when 'consecutive-blank' is disabled."@,
        }
    }

    /// The words that tell the user of the conflict.
    pub fn message(self) -> (words: &'static str)
        ensures
            words@ == self.words(),
    {
        match self {
            OptionConflict::LineLengthWithoutCheck =>
                "Cannot use --max-line-length when 'long-lines' is disabled.",
            OptionConflict::ConsecutiveBlankWithoutCheck =>
                "Cannot use --max-consecutive-blank when 'consecutive-blank' is disabled.",
        }
    }
}

} // verus!
