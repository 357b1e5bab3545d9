//! Recognition of version-control conflict markers, one line at a time.

use crate::text::{first_index, lemma_first_index_is, push_chars, string_of};
use crate::types::ConflictMarkerStyle;
use vstd::prelude::*;
use vstd::slice::slice_subrange;
use vstd::string::StringExecFns;

verus! {

/// What the character that a marker line repeats stands for, whatever the dialect.
#[derive(Clone, Copy, Debug, PartialEq, Eq, Structural)]
pub enum MarkerRole {
    /// `<`: the conflict begins.
    Start,
    /// `|`: the base follows, in the diff3 layout.
    Diff3Base,
    /// `%`: a diff against the base follows, in Jujutsu's layout.
    JjBase,
    /// `=`: the two sides part here.
    Separator,
    /// `+`: one side's content follows, in Jujutsu's layout.
    JjSideA,
    /// `-`: a snapshot follows, in Jujutsu's snapshot layout.
    JjSnapshot,
    /// `\`: a remark on the side above, in Jujutsu's layout.
    JjSideB,
    /// `>`: the conflict ends.
    End,
}

/// The least number of repeated characters that makes a marker, in every dialect.
pub const MIN_MARKER_LEN: usize = 7;

/// The role that a line has when it begins with a long enough run of `c`.
pub open spec fn role_of(c: char) -> Option<MarkerRole> {
    if c == '<' {
        Some(MarkerRole::Start)
    } else if c == '|' {
        Some(MarkerRole::Diff3Base)
    } else if c == '%' {
        Some(MarkerRole::JjBase)
    } else if c == '=' {
        Some(MarkerRole::Separator)
    } else if c == '+' {
        Some(MarkerRole::JjSideA)
    } else if c == '-' {
        Some(MarkerRole::JjSnapshot)
    } else if c == '\\' {
        Some(MarkerRole::JjSideB)
    } else if c == '>' {
        Some(MarkerRole::End)
    } else {
        None
    }
}

/// The number of times that the first character of `line` stands at its beginning without
/// interruption; 0 for an empty line.
pub open spec fn run_len(line: Seq<char>) -> nat {
    first_index(line.len(), |i: int| line[i] != line[0])
}

impl ConflictMarkerStyle {
    /// Whether the dialect has markers of this role.
    pub open spec fn accepts(self, role: MarkerRole) -> bool {
        match self {
            ConflictMarkerStyle::Git => role == MarkerRole::Start || role
                == MarkerRole::Separator || role == MarkerRole::End,
            ConflictMarkerStyle::GitDiff3 | ConflictMarkerStyle::JjDiff3 => role
                == MarkerRole::Start || role == MarkerRole::Diff3Base || role
                == MarkerRole::Separator || role == MarkerRole::End,
            ConflictMarkerStyle::Jj => role == MarkerRole::Start || role == MarkerRole::JjBase
                || role == MarkerRole::JjSideA || role == MarkerRole::JjSideB || role
                == MarkerRole::End,
            ConflictMarkerStyle::JjSnapshot => role == MarkerRole::Start || role
                == MarkerRole::JjSideA || role == MarkerRole::JjSnapshot || role
                == MarkerRole::End,
        }
    }

    /// The words with which the dialect's messages begin.
    pub open spec fn prefix(self) -> Seq<char> {
        match self {
            ConflictMarkerStyle::Git => "Git conflict marker: "@,
            ConflictMarkerStyle::GitDiff3 => "Git diff3 conflict marker: "@,
            ConflictMarkerStyle::Jj => "Jujutsu conflict marker: "@,
            ConflictMarkerStyle::JjDiff3 => "Jujutsu diff3 conflict marker: "@,
            ConflictMarkerStyle::JjSnapshot => "Jujutsu snapshot conflict marker: "@,
        }
    }

    /// Whether the dialect has markers of this role.
    pub fn recognizes(self, role: MarkerRole) -> (yes: bool)
        ensures
            yes == self.accepts(role),
    {
        match self {
            ConflictMarkerStyle::Git => role == MarkerRole::Start || role
                == MarkerRole::Separator || role == MarkerRole::End,
            ConflictMarkerStyle::GitDiff3 | ConflictMarkerStyle::JjDiff3 => role
                == MarkerRole::Start || role == MarkerRole::Diff3Base || role
                == MarkerRole::Separator || role == MarkerRole::End,
            ConflictMarkerStyle::Jj => role == MarkerRole::Start || role == MarkerRole::JjBase
                || role == MarkerRole::JjSideA || role == MarkerRole::JjSideB || role
                == MarkerRole::End,
            ConflictMarkerStyle::JjSnapshot => role == MarkerRole::Start || role
                == MarkerRole::JjSideA || role == MarkerRole::JjSnapshot || role
                == MarkerRole::End,
        }
    }

    /// The words with which the dialect's messages begin.
    pub fn message_prefix(self) -> (words: &'static str)
        ensures
            words@ == self.prefix(),
    {
        match self {
            ConflictMarkerStyle::Git => "Git conflict marker: ",
            ConflictMarkerStyle::GitDiff3 => "Git diff3 conflict marker: ",
            ConflictMarkerStyle::Jj => "Jujutsu conflict marker: ",
            ConflictMarkerStyle::JjDiff3 => "Jujutsu diff3 conflict marker: ",
            ConflictMarkerStyle::JjSnapshot => "Jujutsu snapshot conflict marker: ",
        }
    }
}

/// A line recognized as a conflict marker.
#[derive(Debug)]
pub struct Marker {
    pub role: MarkerRole,
    /// What follows the run of the marker's character, such as the name of a branch.
    pub label: String,
    /// The dialect's words, followed by the line.
    pub message: String,
}

/// What a [`Marker`] holds.
pub struct MarkerView {
    pub role: MarkerRole,
    pub label: Seq<char>,
    pub message: Seq<char>,
}

impl View for Marker {
    type V = MarkerView;

    open spec fn view(&self) -> MarkerView {
        MarkerView { role: self.role, label: self.label@, message: self.message@ }
    }
}

/// The role that the shape of `line` gives it in any dialect: that of its first character,
/// where the line begins with at least 7 of it.
pub open spec fn shape_role(line: Seq<char>) -> Option<MarkerRole> {
    if line.len() > 0 && run_len(line) >= 7 {
        role_of(line[0])
    } else {
        None
    }
}

/// The marker that `line`, without its line ending, is in the dialect `style`: none unless
/// the line has the shape of a marker and the dialect has its role.
pub open spec fn classify(line: Seq<char>, style: ConflictMarkerStyle) -> Option<MarkerView> {
    match shape_role(line) {
        Some(role) => if style.accepts(role) {
            Some(
                MarkerView {
                    role,
                    label: line.skip(run_len(line) as int),
                    message: style.prefix() + line,
                },
            )
        } else {
            None
        },
        None => None,
    }
}

/// The role that a line has when it begins with a long enough run of `c`.
pub fn marker_role(c: char) -> (role: Option<MarkerRole>)
    ensures
        role == role_of(c),
{
    if c == '<' {
        Some(MarkerRole::Start)
    } else if c == '|' {
        Some(MarkerRole::Diff3Base)
    } else if c == '%' {
        Some(MarkerRole::JjBase)
    } else if c == '=' {
        Some(MarkerRole::Separator)
    } else if c == '+' {
        Some(MarkerRole::JjSideA)
    } else if c == '-' {
        Some(MarkerRole::JjSnapshot)
    } else if c == '\\' {
        Some(MarkerRole::JjSideB)
    } else if c == '>' {
        Some(MarkerRole::End)
    } else {
        None
    }
}

/// The number of times that the first character of `line` stands at its beginning.
pub fn leading_run(line: &[char]) -> (n: usize)
    ensures
        n == run_len(line@),
        n <= line@.len(),
{
    let ghost p = |i: int| line@[i] != line@[0];
    let mut i: usize = 0;
    while i < line.len()
        invariant
            i <= line.len(),
            p == |i: int| line@[i] != line@[0],
            forall|j: int| 0 <= j < i ==> !#[trigger] p(j),
        decreases line.len() - i,
    {
        if line[i] != line[0] {
            proof {
                assert(p(i as int));
                lemma_first_index_is(line@.len(), p, i as int);
            }
            return i;
        }
        assert(!p(i as int));
        i += 1;
    }
    proof {
        lemma_first_index_is(line@.len(), p, i as int);
    }
    i
}

/// Tells whether `line`, a line without its line ending, is a conflict marker of the
/// dialect `style`, and gives its role, its label and the message that reports it.
pub fn classify_marker(line: &[char], style: ConflictMarkerStyle) -> (marker: Option<Marker>)
    ensures
        match marker {
            Some(m) => classify(line@, style) == Some(m@),
            None => classify(line@, style) is None,
        },
{
    if line.len() == 0 {
        return None;
    }
    let run = leading_run(line);
    if run < MIN_MARKER_LEN {
        return None;
    }
    match marker_role(line[0]) {
        Some(role) => {
            if style.recognizes(role) {
                let label = string_of(slice_subrange(line, run, line.len()));
                let mut message = String::from_str(style.message_prefix());
                push_chars(&mut message, line);
                Some(Marker { role, label, message })
            } else {
                None
            }
        },
        None => None,
    }
}

/// No dialect reports a role outside its own set, and the role of a reported line is the one
/// that its shape gives it in every dialect.
pub proof fn lemma_dialect_exclusive(line: Seq<char>, style: ConflictMarkerStyle)
    ensures
        classify(line, style) is Some <==> (shape_role(line) is Some && style.accepts(
            shape_role(line)->0,
        )),
        classify(line, style) matches Some(m) ==> style.accepts(m.role) && shape_role(line)
            == Some(m.role) && m.message == style.prefix() + line,
{
}

} // verus!
