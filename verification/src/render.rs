//! What a renderer needs of a diagnostic beyond its fields: the level under which it is
//! shown, and the spans to underline as offsets into the shown text.

use crate::text::{chars_of, same_text};
use crate::types::{Diagnostic, DiagnosticView, HelperView, Severity};
use crate::util::{char_offset, chars_coord_to_pos};
use vstd::prelude::*;
use vstd::string::StringExecFns;

verus! {

/// The level under which a renderer shows a message.
#[derive(Clone, Copy, Debug, PartialEq, Eq, Structural)]
pub enum Level {
    Error,
    Warning,
    Info,
    Note,
    Help,
}

/// The level that a severity name stands for, if it is one of the five known names.
pub open spec fn level_of(severity: Seq<char>) -> Option<Level> {
    if severity == "error"@ {
        Some(Level::Error)
    } else if severity == "warning"@ {
        Some(Level::Warning)
    } else if severity == "information"@ {
        Some(Level::Info)
    } else if severity == "hint"@ {
        Some(Level::Note)
    } else if severity == "help"@ {
        Some(Level::Help)
    } else {
        None
    }
}

/// Whether `severity` is one of the five names that stand for a level: `error`, `warning`,
/// `information`, `hint` and `help`.
pub fn is_severity_name(severity: &str) -> (known: bool)
    ensures
        known == level_of(severity@) is Some,
{
    same_text(severity, "error") || same_text(severity, "warning") || same_text(
        severity,
        "information",
    ) || same_text(severity, "hint") || same_text(severity, "help")
}

/// The level under which a diagnostic of the given severity name is shown. The name is one
/// of the five that [`is_severity_name`] knows.
pub fn severity_to_level(severity: &str) -> (level: Level)
    requires
        level_of(severity@) is Some,
    ensures
        level_of(severity@) == Some(level),
{
    if same_text(severity, "error") {
        Level::Error
    } else if same_text(severity, "warning") {
        Level::Warning
    } else if same_text(severity, "information") {
        Level::Info
    } else if same_text(severity, "hint") {
        Level::Note
    } else {
        Level::Help
    }
}

impl Severity {
    /// The level under which diagnostics of the class are shown.
    pub open spec fn shown_as(self) -> Level {
        match self {
            Severity::Error => Level::Error,
            Severity::Warning => Level::Warning,
            Severity::Information => Level::Info,
        }
    }

    /// The level under which diagnostics of the class are shown.
    pub fn level(self) -> (level: Level)
        ensures
            level == self.shown_as(),
    {
        match self {
            Severity::Error => Level::Error,
            Severity::Warning => Level::Warning,
            Severity::Information => Level::Info,
        }
    }
}

/// The name of a class stands for the level under which the class is shown.
pub proof fn lemma_severity_name_level(severity: Severity)
    ensures
        level_of(severity.name()) == Some(severity.shown_as()),
{
    reveal_strlit("error");
    reveal_strlit("warning");
    reveal_strlit("information");
    assert("error"@.len() == 5);
    assert("warning"@.len() == 7);
    assert("information"@.len() == 11);
}

/// Whether a span is the one that a diagnostic is about, or one that gives context.
#[derive(Clone, Copy, Debug, PartialEq, Eq, Structural)]
pub enum AnnotationKind {
    Primary,
    Context,
}

/// A span to underline in a shown text: the offsets of its first character and of the
/// character after its last.
#[derive(Debug)]
pub struct Annotation {
    pub start: usize,
    pub end: usize,
    pub label: Option<String>,
    pub kind: AnnotationKind,
}

/// What an [`Annotation`] holds.
pub struct AnnotationView {
    pub start: int,
    pub end: int,
    pub label: Option<Seq<char>>,
    pub kind: AnnotationKind,
}

impl View for Annotation {
    type V = AnnotationView;

    open spec fn view(&self) -> AnnotationView {
        AnnotationView {
            start: self.start as int,
            end: self.end as int,
            label: match self.label {
                Some(label) => Some(label@),
                None => None,
            },
            kind: self.kind,
        }
    }
}

/// What each annotation of `annotations` holds.
pub open spec fn annotation_views(annotations: Seq<Annotation>) -> Seq<AnnotationView> {
    annotations.map_values(|a: Annotation| a@)
}

/// `n`, or the greatest machine word where `n` is above it.
pub open spec fn clamped(n: int) -> int {
    if n > usize::MAX {
        usize::MAX as int
    } else {
        n
    }
}

/// The annotation of the span whose first character is at `pos` and whose last is at
/// `end_pos`.
pub open spec fn annotation(pos: int, end_pos: int, label: Option<Seq<char>>, kind: AnnotationKind)
    -> AnnotationView {
    AnnotationView { start: pos, end: clamped(end_pos + 1), label, kind }
}

/// The annotation of the span from offset `pos` to offset `end_pos`, both within it.
pub fn pos_to_annotation(pos: usize, end_pos: usize, label: Option<&str>, kind: AnnotationKind)
    -> (a: Annotation)
    ensures
        a@ == annotation(
            pos as int,
            end_pos as int,
            match label {
                Some(text) => Some(text@),
                None => None,
            },
            kind,
        ),
{
    Annotation {
        start: pos,
        end: if end_pos == usize::MAX {
            usize::MAX
        } else {
            end_pos + 1
        },
        label: match label {
            Some(text) => Some(String::from_str(text)),
            None => None,
        },
        kind,
    }
}

/// The offset of `(lnum, col)` in a text that begins at line `source_lnum`, as a machine
/// word.
pub open spec fn offset_in(source: Seq<char>, source_lnum: int, lnum: int, col: int) -> int {
    clamped(char_offset(source, source_lnum as nat, lnum as nat, col as nat) as int)
}

/// The annotation of a helper of a diagnostic, within the text that the diagnostic shows.
pub open spec fn helper_annotation(d: DiagnosticView, h: HelperView) -> AnnotationView {
    annotation(
        offset_in(d.source, d.source_lnum, h.lnum, h.col),
        offset_in(d.source, d.source_lnum, h.end_lnum, h.end_col),
        Some(h.message),
        AnnotationKind::Context,
    )
}

/// The annotations of a diagnostic: its own span, without label, and then one span with
/// its message for each helper, in their order.
pub open spec fn annotations_of(d: DiagnosticView) -> Seq<AnnotationView> {
    let primary = annotation(
        offset_in(d.source, d.source_lnum, d.lnum, d.col),
        offset_in(d.source, d.source_lnum, d.end_lnum, d.end_col),
        None,
        AnnotationKind::Primary,
    );
    match d.helpers {
        Some(helpers) => seq![primary] + helpers.map_values(|h: HelperView| helper_annotation(d, h)),
        None => seq![primary],
    }
}

/// The spans that a renderer underlines for a diagnostic, as offsets in characters into the
/// text that the diagnostic shows.
pub fn diagnostic_annotations(diagnostic: &Diagnostic) -> (annotations: Vec<Annotation>)
    ensures
        annotation_views(annotations@) == annotations_of(diagnostic@),
{
    let source = chars_of(diagnostic.source.as_str());
    let pos = chars_coord_to_pos(
        source.as_slice(),
        diagnostic.source_lnum,
        diagnostic.lnum,
        diagnostic.col,
    );
    let end_pos = chars_coord_to_pos(
        source.as_slice(),
        diagnostic.source_lnum,
        diagnostic.end_lnum,
        diagnostic.end_col,
    );
    let primary = pos_to_annotation(pos, end_pos, None, AnnotationKind::Primary);
    let mut annotations: Vec<Annotation> = Vec::new();
    annotations.push(primary);
    assert(annotation_views(annotations@) =~= seq![primary@]);
    match &diagnostic.helpers {
        Some(helpers) => {
            let ghost d = diagnostic@;
            let ghost views = d.helpers->0;
            let mut i: usize = 0;
            while i < helpers.len()
                invariant
                    i <= helpers.len(),
                    d == diagnostic@,
                    source@ == d.source,
                    diagnostic.helpers == Some(*helpers),
                    views == d.helpers->0,
                    views.len() == helpers@.len(),
                    annotation_views(annotations@) == seq![primary@] + views.take(
                        i as int,
                    ).map_values(|h: HelperView| helper_annotation(d, h)),
                decreases helpers.len() - i,
            {
                let helper = &helpers[i];
                let pos = chars_coord_to_pos(
                    source.as_slice(),
                    diagnostic.source_lnum,
                    helper.lnum,
                    helper.col,
                );
                let end_pos = chars_coord_to_pos(
                    source.as_slice(),
                    diagnostic.source_lnum,
                    helper.end_lnum,
                    helper.end_col,
                );
                let a = pos_to_annotation(
                    pos,
                    end_pos,
                    Some(helper.message.as_str()),
                    AnnotationKind::Context,
                );
                proof {
                    assert(views[i as int] == helper@);
                    assert(a@ == helper_annotation(d, views[i as int]));
                    assert(views.take(i + 1).map_values(|h: HelperView| helper_annotation(d, h))
                        =~= views.take(i as int).map_values(
                        |h: HelperView| helper_annotation(d, h),
                    ).push(a@));
                    assert(annotation_views(annotations@.push(a)) =~= annotation_views(
                        annotations@,
                    ).push(a@));
                }
                annotations.push(a);
                i += 1;
            }
            assert(views.take(views.len() as int) == views);
        },
        None => {},
    }
    annotations
}

} // verus!
