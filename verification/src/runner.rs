//! The governor of a run: it keeps the diagnostics, counts them by class, holds each class to
//! its limit and tells when the run has to stop.

use crate::types::{diagnostic_views, Diagnostic, DiagnosticView, LintOptions, Severity};
use vstd::prelude::*;

verus! {

/// What the governor knows of one class of diagnostics.
pub struct ClassView {
    /// The most that are kept; 0 for no limit.
    pub limit: nat,
    /// How many are kept.
    pub count: nat,
    /// The limit was reached, and that was made known.
    pub announced: bool,
    /// Further diagnostics of the class are dropped.
    pub blocked: bool,
}

/// What a [`LintRunner`] holds.
pub struct RunnerView {
    /// The diagnostics that were kept, in the order in which they came.
    pub diagnostics: Seq<DiagnosticView>,
    pub errors: ClassView,
    pub warnings: ClassView,
    pub infos: ClassView,
    /// The limit on errors was reached: nothing more is taken in.
    pub aborted: bool,
    /// The classes whose limit was made known, in the order in which that happened.
    pub advisories: Seq<Severity>,
}

/// The number of diagnostics of a class in a sequence.
pub open spec fn count_of(diagnostics: Seq<DiagnosticView>, severity: Severity) -> nat
    decreases diagnostics.len(),
{
    if diagnostics.len() == 0 {
        0
    } else {
        count_of(diagnostics.drop_last(), severity) + if diagnostics.last().severity
            == severity {
            1nat
        } else {
            0nat
        }
    }
}

impl ClassView {
    /// A class that has taken nothing in yet.
    pub open spec fn fresh(limit: nat) -> ClassView {
        ClassView { limit, count: 0, announced: false, blocked: false }
    }

    /// Whether `count` diagnostics reach the limit.
    pub open spec fn reached_by(self, count: nat) -> bool {
        self.limit > 0 && count >= self.limit
    }
}

impl RunnerView {
    /// The governor before anything was recorded.
    pub open spec fn fresh(max_errors: nat, max_warnings: nat, max_infos: nat) -> RunnerView {
        RunnerView {
            diagnostics: Seq::empty(),
            errors: ClassView::fresh(max_errors),
            warnings: ClassView::fresh(max_warnings),
            infos: ClassView::fresh(max_infos),
            aborted: false,
            advisories: Seq::empty(),
        }
    }

    /// What is known of a class.
    pub open spec fn class(self, severity: Severity) -> ClassView {
        match severity {
            Severity::Error => self.errors,
            Severity::Warning => self.warnings,
            Severity::Information => self.infos,
        }
    }

    /// The same governor with `class` in the place of what was known of one class.
    pub open spec fn with_class(self, severity: Severity, class: ClassView) -> RunnerView {
        match severity {
            Severity::Error => RunnerView { errors: class, ..self },
            Severity::Warning => RunnerView { warnings: class, ..self },
            Severity::Information => RunnerView { infos: class, ..self },
        }
    }

    /// Whether a diagnostic of this class would be kept.
    pub open spec fn accepts(self, severity: Severity) -> bool {
        !self.aborted && !self.class(severity).blocked
    }

    /// The governor after one diagnostic was handed to it. Once the run is aborted, or the
    /// diagnostic's class is blocked, nothing changes. Otherwise the diagnostic is kept and
    /// counted; where that reaches the limit of its class, the limit is made known, and
    /// the run is aborted for an error, the class blocked for any other.
    pub open spec fn record(self, d: DiagnosticView) -> RunnerView {
        if !self.accepts(d.severity) {
            self
        } else {
            let class = self.class(d.severity);
            let count = class.count + 1;
            let reached = class.reached_by(count);
            let is_error = d.severity == Severity::Error;
            RunnerView {
                diagnostics: self.diagnostics.push(d),
                aborted: reached && is_error,
                advisories: if reached {
                    self.advisories.push(d.severity)
                } else {
                    self.advisories
                },
                ..self
            }.with_class(
                d.severity,
                ClassView {
                    limit: class.limit,
                    count,
                    announced: class.announced || reached,
                    blocked: reached && !is_error,
                },
            )
        }
    }

    /// The governor after a sequence of diagnostics was handed to it, one by one.
    pub open spec fn record_all(self, ds: Seq<DiagnosticView>) -> RunnerView
        decreases ds.len(),
    {
        if ds.len() == 0 {
            self
        } else {
            self.record_all(ds.drop_last()).record(ds.last())
        }
    }

    /// What holds of one class of a governor: its count is the number of kept diagnostics of
    /// the class, never above a limit that is set, and the limit is known as reached exactly
    /// when the count has come to it, with one advisory for that.
    pub open spec fn class_wf(self, severity: Severity) -> bool {
        let class = self.class(severity);
        &&& class.count == count_of(self.diagnostics, severity)
        &&& class.limit > 0 ==> class.count <= class.limit
        &&& class.announced <==> class.reached_by(class.count)
        &&& self.advisories.contains(severity) <==> class.announced
    }

    /// What holds of every governor. Besides what holds of each class: the run is aborted
    /// exactly when the errors have reached their limit, any other class is blocked exactly
    /// when it has reached its own, and no class has two advisories.
    pub open spec fn wf(self) -> bool {
        &&& self.class_wf(Severity::Error)
        &&& self.class_wf(Severity::Warning)
        &&& self.class_wf(Severity::Information)
        &&& self.aborted == self.errors.announced
        &&& !self.errors.blocked
        &&& self.warnings.blocked == self.warnings.announced
        &&& self.infos.blocked == self.infos.announced
        &&& self.advisories.no_duplicates()
    }
}

/// A sequence holds at most as many diagnostics of a class as it is long.
pub proof fn lemma_count_of_bound(diagnostics: Seq<DiagnosticView>, severity: Severity)
    ensures
        count_of(diagnostics, severity) <= diagnostics.len(),
    decreases diagnostics.len(),
{
    if diagnostics.len() > 0 {
        lemma_count_of_bound(diagnostics.drop_last(), severity);
    }
}

/// Recording keeps a governor well-formed.
pub proof fn lemma_record_wf(r: RunnerView, d: DiagnosticView)
    requires
        r.wf(),
    ensures
        r.record(d).wf(),
{
    if r.accepts(d.severity) {
        let after = r.record(d);
        assert(after.diagnostics.drop_last() == r.diagnostics);
        let class = r.class(d.severity);
        let reached = class.reached_by(class.count + 1);
        assert forall|s: Severity| after.advisories.contains(s) <==> after.class(
            s,
        ).announced by {
            assert(r.class_wf(s));
            if reached {
                assert(after.advisories.last() == d.severity);
                if r.advisories.contains(s) {
                    let i = choose|i: int| 0 <= i < r.advisories.len() && r.advisories[i] == s;
                    assert(after.advisories[i] == s);
                }
            }
        }
        assert(after.class_wf(Severity::Error));
        assert(after.class_wf(Severity::Warning));
        assert(after.class_wf(Severity::Information));
    }
}

/// Recording two sequences one after the other is recording them joined.
pub proof fn lemma_record_all_concat(r: RunnerView, a: Seq<DiagnosticView>, b: Seq<DiagnosticView>)
    ensures
        r.record_all(a + b) == r.record_all(a).record_all(b),
    decreases b.len(),
{
    if b.len() == 0 {
        assert(a + b == a);
    } else {
        lemma_record_all_concat(r, a, b.drop_last());
        assert((a + b).drop_last() == a + b.drop_last());
    }
}

/// An aborted governor takes nothing in.
pub proof fn lemma_aborted_absorbs(r: RunnerView, ds: Seq<DiagnosticView>)
    requires
        r.aborted,
    ensures
        r.record_all(ds) == r,
    decreases ds.len(),
{
    if ds.len() > 0 {
        lemma_aborted_absorbs(r, ds.drop_last());
    }
}

/// Recording keeps a governor well-formed, however many diagnostics it is handed.
pub proof fn lemma_record_all_wf(r: RunnerView, ds: Seq<DiagnosticView>)
    requires
        r.wf(),
    ensures
        r.record_all(ds).wf(),
    decreases ds.len(),
{
    if ds.len() > 0 {
        lemma_record_all_wf(r, ds.drop_last());
        lemma_record_wf(r.record_all(ds.drop_last()), ds.last());
    }
}

/// Recording takes no diagnostic away and changes none: what a governor kept before is the
/// beginning of what it keeps after. The list only grows.
pub proof fn lemma_record_all_extends(r: RunnerView, ds: Seq<DiagnosticView>)
    ensures
        r.diagnostics.is_prefix_of(r.record_all(ds).diagnostics),
    decreases ds.len(),
{
    if ds.len() > 0 {
        lemma_record_all_extends(r, ds.drop_last());
    }
}

/// Recording never changes the limit of a class.
pub proof fn lemma_limit_kept(r: RunnerView, ds: Seq<DiagnosticView>, severity: Severity)
    ensures
        r.record_all(ds).class(severity).limit == r.class(severity).limit,
    decreases ds.len(),
{
    if ds.len() > 0 {
        lemma_limit_kept(r, ds.drop_last(), severity);
    }
}

/// The number of error diagnostics that a governor keeps grows with each error that comes,
/// as long as the limit on errors is not reached by them; the run is not aborted then.
pub proof fn lemma_errors_below_limit(r: RunnerView, ds: Seq<DiagnosticView>)
    requires
        r.wf(),
        !r.aborted,
        r.errors.limit == 0 || r.errors.count + count_of(ds, Severity::Error) < r.errors.limit,
    ensures
        !r.record_all(ds).aborted,
        r.record_all(ds).errors.count == r.errors.count + count_of(ds, Severity::Error),
    decreases ds.len(),
{
    if ds.len() > 0 {
        let before = ds.drop_last();
        let s = r.record_all(before);
        lemma_errors_below_limit(r, before);
        lemma_record_all_wf(r, before);
        lemma_record_all_wf(r, ds);
        assert(s.class_wf(Severity::Error));
        assert(r.record_all(ds) == s.record(ds.last()));
        assert(r.record_all(ds).class_wf(Severity::Error));
        lemma_limit_kept(r, before, Severity::Error);
    }
}

/// With a limit of `N` errors, once the errors that come bring the count to `N` or would
/// bring it above, the governor keeps exactly `N` errors, the run is aborted, and the limit
/// on errors was made known once.
pub proof fn lemma_error_limit(r: RunnerView, ds: Seq<DiagnosticView>)
    requires
        r.wf(),
        r.errors.limit > 0,
        r.errors.count + count_of(ds, Severity::Error) >= r.errors.limit,
    ensures
        r.record_all(ds).aborted,
        r.record_all(ds).errors.count == r.errors.limit,
        count_of(r.record_all(ds).diagnostics, Severity::Error) == r.errors.limit,
        r.record_all(ds).advisories.contains(Severity::Error),
        r.record_all(ds).advisories.no_duplicates(),
    decreases ds.len(),
{
    lemma_record_all_wf(r, ds);
    lemma_limit_kept(r, ds, Severity::Error);
    let after = r.record_all(ds);
    assert(r.class_wf(Severity::Error));
    assert(after.class_wf(Severity::Error));
    if r.aborted {
        lemma_aborted_absorbs(r, ds);
    } else if ds.len() > 0 {
        let before = ds.drop_last();
        let s = r.record_all(before);
        lemma_record_all_wf(r, before);
        lemma_limit_kept(r, before, Severity::Error);
        assert(s.class_wf(Severity::Error));
        assert(after == s.record(ds.last()));
        if r.errors.count + count_of(before, Severity::Error) >= r.errors.limit {
            lemma_error_limit(r, before);
            assert(after == s);
        } else {
            lemma_errors_below_limit(r, before);
            assert(ds.last().severity == Severity::Error);
            assert(s.accepts(Severity::Error));
            assert(after.errors.count == s.errors.count + 1);
        }
    }
}

/// Once the limit on errors is reached, whatever else the scan would have found changes
/// nothing: what the governor holds is what it held when the limit was reached.
pub proof fn lemma_error_limit_stops(
    r: RunnerView,
    ds: Seq<DiagnosticView>,
    more: Seq<DiagnosticView>,
)
    requires
        r.wf(),
        r.errors.limit > 0,
        r.errors.count + count_of(ds, Severity::Error) >= r.errors.limit,
    ensures
        r.record_all(ds + more) == r.record_all(ds),
{
    lemma_error_limit(r, ds);
    lemma_record_all_concat(r, ds, more);
    lemma_aborted_absorbs(r.record_all(ds), more);
}

/// No class ever holds more diagnostics than its limit, and the run is aborted only where
/// the errors have come to theirs: a limit on warnings or informations stops nothing else.
pub proof fn lemma_class_limit(r: RunnerView, ds: Seq<DiagnosticView>, severity: Severity)
    requires
        r.wf(),
    ensures
        r.record_all(ds).class(severity).limit == r.class(severity).limit,
        r.class(severity).limit > 0 ==> count_of(r.record_all(ds).diagnostics, severity)
            <= r.class(severity).limit,
        r.record_all(ds).aborted ==> r.record_all(ds).errors.limit > 0 && r.record_all(
            ds,
        ).errors.count == r.record_all(ds).errors.limit,
    decreases ds.len(),
{
    lemma_record_all_wf(r, ds);
    if ds.len() > 0 {
        lemma_class_limit(r, ds.drop_last(), severity);
    }
}

/// What the governor keeps for one class of diagnostics.
#[derive(Debug)]
struct ClassState {
    limit: usize,
    count: usize,
    announced: bool,
    blocked: bool,
}

impl View for ClassState {
    type V = ClassView;

    closed spec fn view(&self) -> ClassView {
        ClassView {
            limit: self.limit as nat,
            count: self.count as nat,
            announced: self.announced,
            blocked: self.blocked,
        }
    }
}

impl ClassState {
    fn new(limit: usize) -> (class: ClassState)
        ensures
            class@ == ClassView::fresh(limit as nat),
    {
        ClassState { limit, count: 0, announced: false, blocked: false }
    }

    /// Counts one more diagnostic, the last of `kept` that the governor holds, and tells
    /// whether that reaches the limit.
    fn count_one(&mut self, is_error: bool, kept: usize) -> (reached: bool)
        requires
            old(self).count < kept,
        ensures
            reached == old(self)@.reached_by(old(self)@.count + 1),
            final(self)@ == (ClassView {
                limit: old(self)@.limit,
                count: old(self)@.count + 1,
                announced: old(self)@.announced || reached,
                blocked: reached && !is_error,
            }),
    {
        self.count = self.count + 1;
        let reached = self.limit > 0 && self.count >= self.limit;
        if reached {
            self.announced = true;
        }
        self.blocked = reached && !is_error;
        reached
    }
}

/// The governor of a run. One is made when the run begins; every diagnostic of every input
/// goes through it.
#[derive(Debug)]
pub struct LintRunner {
    diagnostics: Vec<Diagnostic>,
    errors: ClassState,
    warnings: ClassState,
    infos: ClassState,
    aborted: bool,
    advisories: Vec<Severity>,
}

impl View for LintRunner {
    type V = RunnerView;

    closed spec fn view(&self) -> RunnerView {
        RunnerView {
            diagnostics: diagnostic_views(self.diagnostics@),
            errors: self.errors@,
            warnings: self.warnings@,
            infos: self.infos@,
            aborted: self.aborted,
            advisories: self.advisories@,
        }
    }
}

impl LintRunner {
    /// What holds of every governor that this module hands out.
    pub open spec fn wf(&self) -> bool {
        self@.wf()
    }

    /// A governor with the limits of `opts` that has recorded nothing yet.
    pub fn new(opts: &LintOptions) -> (runner: LintRunner)
        ensures
            runner.wf(),
            runner@ == RunnerView::fresh(
                opts.max_errors as nat,
                opts.max_warnings as nat,
                opts.max_infos as nat,
            ),
    {
        let runner = LintRunner {
            diagnostics: Vec::new(),
            errors: ClassState::new(opts.max_errors),
            warnings: ClassState::new(opts.max_warnings),
            infos: ClassState::new(opts.max_infos),
            aborted: false,
            advisories: Vec::new(),
        };
        assert(runner@.diagnostics =~= Seq::<DiagnosticView>::empty());
        assert(runner@.advisories =~= Seq::<Severity>::empty());
        runner
    }

    /// Hands one diagnostic to the governor, which keeps it or drops it. The answer is
    /// `false` once the run is aborted: the caller then stops scanning.
    pub fn record(&mut self, diagnostic: Diagnostic) -> (keep_going: bool)
        requires
            old(self).wf(),
        ensures
            final(self).wf(),
            final(self)@ == old(self)@.record(diagnostic@),
            keep_going == !final(self)@.aborted,
            old(self)@.diagnostics.is_prefix_of(final(self)@.diagnostics),
    {
        proof {
            lemma_record_wf(self@, diagnostic@);
        }
        if self.aborted {
            return false;
        }
        let severity = diagnostic.severity;
        let blocked = match severity {
            Severity::Error => self.errors.blocked,
            Severity::Warning => self.warnings.blocked,
            Severity::Information => self.infos.blocked,
        };
        if blocked {
            return true;
        }
        proof {
            lemma_count_of_bound(self@.diagnostics, severity);
            assert(diagnostic_views(self.diagnostics@.push(diagnostic)) =~= diagnostic_views(
                self.diagnostics@,
            ).push(diagnostic@));
        }
        self.diagnostics.push(diagnostic);
        let kept = self.diagnostics.len();
        let reached = match severity {
            Severity::Error => self.errors.count_one(true, kept),
            Severity::Warning => self.warnings.count_one(false, kept),
            Severity::Information => self.infos.count_one(false, kept),
        };
        if reached {
            self.advisories.push(severity);
            if severity == Severity::Error {
                self.aborted = true;
            }
        }
        !self.aborted
    }

    /// The diagnostics that were kept, in the order in which they came.
    pub fn diagnostics(&self) -> (kept: &Vec<Diagnostic>)
        ensures
            diagnostic_views(kept@) == self@.diagnostics,
    {
        &self.diagnostics
    }

    /// Gives up the governor for the diagnostics that it kept.
    pub fn into_diagnostics(self) -> (kept: Vec<Diagnostic>)
        ensures
            diagnostic_views(kept@) == self@.diagnostics,
    {
        self.diagnostics
    }

    /// The number of diagnostics of a class that were kept.
    pub fn count(&self, severity: Severity) -> (count: usize)
        ensures
            count == self@.class(severity).count,
    {
        match severity {
            Severity::Error => self.errors.count,
            Severity::Warning => self.warnings.count,
            Severity::Information => self.infos.count,
        }
    }

    /// Whether a class has reached its limit.
    pub fn limit_reached(&self, severity: Severity) -> (reached: bool)
        ensures
            reached == self@.class(severity).announced,
    {
        match severity {
            Severity::Error => self.errors.announced,
            Severity::Warning => self.warnings.announced,
            Severity::Information => self.infos.announced,
        }
    }

    /// Whether further diagnostics of a class are dropped while the run goes on.
    pub fn is_blocked(&self, severity: Severity) -> (blocked: bool)
        ensures
            blocked == self@.class(severity).blocked,
    {
        match severity {
            Severity::Error => self.errors.blocked,
            Severity::Warning => self.warnings.blocked,
            Severity::Information => self.infos.blocked,
        }
    }

    /// Whether the run is aborted: the errors have reached their limit.
    pub fn is_aborted(&self) -> (aborted: bool)
        ensures
            aborted == self@.aborted,
    {
        self.aborted
    }

    /// The classes whose limit was reached, in the order in which that happened. Each one
    /// is there once: the caller prints one line for each.
    pub fn advisories(&self) -> (classes: &Vec<Severity>)
        ensures
            classes@ == self@.advisories,
    {
        &self.advisories
    }
}

} // verus!
