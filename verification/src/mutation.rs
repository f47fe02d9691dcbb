//! Mutations, what comes of testing them, and how that is reported.

use vstd::prelude::*;

verus! {

/// A change to one line of a source file.
#[derive(Debug, PartialEq, Eq)]
pub struct Mutation {
    /// The file, relative to the project's root.
    pub file_path: String,
    /// The number of the line, counted from one.
    pub line_number: usize,
    /// What the line reads before the change.
    pub original_line: String,
    /// What the line reads after it.
    pub mutated_line: String,
    /// What the change is meant to show.
    pub description: String,
}

/// The mutations proposed for a project.
#[derive(Debug, PartialEq, Eq)]
pub struct MutationPlan {
    pub mutations: Vec<Mutation>,
}

/// What came of testing one mutation.
#[derive(Debug, PartialEq, Eq)]
pub enum MutationOutcome {
    /// The tests passed although the line was changed.
    Survived,
    /// The tests failed.
    Killed,
    /// The tests did not finish in time.
    Timeout,
    /// The changed project could not be built, or the change not be made.
    BuildError(String),
    /// The line to change was not found.
    LineMismatch(String),
}

/// The mathematical form of a [`MutationOutcome`].
pub enum OutcomeView {
    Survived,
    Killed,
    Timeout,
    BuildError(Seq<char>),
    LineMismatch(Seq<char>),
}

impl View for MutationOutcome {
    type V = OutcomeView;

    open spec fn view(&self) -> OutcomeView {
        match self {
            MutationOutcome::Survived => OutcomeView::Survived,
            MutationOutcome::Killed => OutcomeView::Killed,
            MutationOutcome::Timeout => OutcomeView::Timeout,
            MutationOutcome::BuildError(e) => OutcomeView::BuildError(e@),
            MutationOutcome::LineMismatch(e) => OutcomeView::LineMismatch(e@),
        }
    }
}

/// The name of an outcome, with its reason where it has one.
pub open spec fn outcome_text(outcome: OutcomeView) -> Seq<char> {
    match outcome {
        OutcomeView::Survived => "SURVIVED"@,
        OutcomeView::Killed => "KILLED"@,
        OutcomeView::Timeout => "TIMEOUT"@,
        OutcomeView::BuildError(e) => "BUILD ERROR: "@ + e,
        OutcomeView::LineMismatch(e) => "LINE MISMATCH: "@ + e,
    }
}

impl MutationOutcome {
    /// The name of the outcome, with its reason where it has one.
    pub fn to_string(&self) -> (r: String)
        ensures
            r@ == outcome_text(self@),
    {
        match self {
            MutationOutcome::Survived => "SURVIVED".to_owned(),
            MutationOutcome::Killed => "KILLED".to_owned(),
            MutationOutcome::Timeout => "TIMEOUT".to_owned(),
            MutationOutcome::BuildError(e) => "BUILD ERROR: ".to_owned().concat(e.as_str()),
            MutationOutcome::LineMismatch(e) => "LINE MISMATCH: ".to_owned().concat(e.as_str()),
        }
    }
}

/// An outcome as it is shown while the mutations are tested.
pub open spec fn outcome_badge(outcome: OutcomeView) -> Seq<char> {
    match outcome {
        OutcomeView::Survived => "❌ SURVIVED"@,
        OutcomeView::Killed => "✅ KILLED"@,
        OutcomeView::Timeout => "⏱️  TIMEOUT"@,
        OutcomeView::BuildError(_) => "🔧 BUILD ERROR"@,
        OutcomeView::LineMismatch(_) => "⚠️  LINE MISMATCH"@,
    }
}

impl MutationOutcome {
    /// The outcome as it is shown while the mutations are tested.
    pub fn badge(&self) -> (r: &'static str)
        ensures
            r@ == outcome_badge(self@),
    {
        match self {
            MutationOutcome::Survived => "❌ SURVIVED",
            MutationOutcome::Killed => "✅ KILLED",
            MutationOutcome::Timeout => "⏱️  TIMEOUT",
            MutationOutcome::BuildError(_) => "🔧 BUILD ERROR",
            MutationOutcome::LineMismatch(_) => "⚠️  LINE MISMATCH",
        }
    }
}

/// A mutation and what came of testing it.
#[derive(Debug, PartialEq, Eq)]
pub struct MutationResult {
    pub mutation: Mutation,
    pub outcome: MutationOutcome,
}

/// The mathematical form of a [`Mutation`].
pub struct MutationView {
    pub file_path: Seq<char>,
    pub line_number: nat,
    pub original_line: Seq<char>,
    pub mutated_line: Seq<char>,
    pub description: Seq<char>,
}

impl View for Mutation {
    type V = MutationView;

    open spec fn view(&self) -> MutationView {
        MutationView {
            file_path: self.file_path@,
            line_number: self.line_number as nat,
            original_line: self.original_line@,
            mutated_line: self.mutated_line@,
            description: self.description@,
        }
    }
}

/// The mathematical form of a [`MutationResult`].
pub struct ResultView {
    pub mutation: MutationView,
    pub outcome: OutcomeView,
}

impl View for MutationResult {
    type V = ResultView;

    open spec fn view(&self) -> ResultView {
        ResultView { mutation: self.mutation@, outcome: self.outcome@ }
    }
}

/// The mathematical form of a list of mutations.
pub open spec fn mutation_views(mutations: Seq<Mutation>) -> Seq<MutationView> {
    mutations.map_values(|m: Mutation| m@)
}

/// The mathematical form of a list of results.
pub open spec fn result_views(results: Seq<MutationResult>) -> Seq<ResultView> {
    results.map_values(|r: MutationResult| r@)
}

/// The text of an outcome says which of the five it is, and ends with the reason
/// where there is one, whatever the reason reads.
pub proof fn reasons_are_told(reason: Seq<char>)
    ensures
        outcome_text(OutcomeView::Survived) == "SURVIVED"@,
        outcome_text(OutcomeView::Killed) == "KILLED"@,
        outcome_text(OutcomeView::Timeout) == "TIMEOUT"@,
        ({
            let told = outcome_text(OutcomeView::BuildError(reason));
            told.take(13) == "BUILD ERROR: "@ && told.skip(13) == reason
        }),
        ({
            let told = outcome_text(OutcomeView::LineMismatch(reason));
            told.take(15) == "LINE MISMATCH: "@ && told.skip(15) == reason
        }),
{
    reveal_strlit("BUILD ERROR: ");
    reveal_strlit("LINE MISMATCH: ");
    assert(("BUILD ERROR: "@ + reason).take(13) =~= "BUILD ERROR: "@);
    assert(("BUILD ERROR: "@ + reason).skip(13) =~= reason);
    assert(("LINE MISMATCH: "@ + reason).take(15) =~= "LINE MISMATCH: "@);
    assert(("LINE MISMATCH: "@ + reason).skip(15) =~= reason);
}

/// What is shown of an outcome depends on which of the five it is and on nothing
/// else, and differs from one to the other: it ends with the outcome's name.
pub proof fn badges_tell_outcomes(reason: Seq<char>, other: Seq<char>)
    ensures
        outcome_badge(OutcomeView::BuildError(reason)) == outcome_badge(
            OutcomeView::BuildError(other),
        ),
        outcome_badge(OutcomeView::LineMismatch(reason)) == outcome_badge(
            OutcomeView::LineMismatch(other),
        ),
        outcome_badge(OutcomeView::Survived) == "❌ SURVIVED"@,
        outcome_badge(OutcomeView::Killed) == "✅ KILLED"@,
        outcome_badge(OutcomeView::Timeout) == "⏱️  TIMEOUT"@,
        outcome_badge(OutcomeView::BuildError(reason)) == "🔧 BUILD ERROR"@,
        outcome_badge(OutcomeView::LineMismatch(reason)) == "⚠️  LINE MISMATCH"@,
{
}

/// The mathematical forms leave nothing out and change nothing.
pub proof fn views_are_faithful(
    m: Mutation,
    r: MutationResult,
    mutations: Seq<Mutation>,
    results: Seq<MutationResult>,
    reason: String,
)
    ensures
        m@.file_path == m.file_path@,
        m@.line_number == m.line_number,
        m@.original_line == m.original_line@,
        m@.mutated_line == m.mutated_line@,
        m@.description == m.description@,
        r@.mutation == r.mutation@,
        r@.outcome == r.outcome@,
        MutationOutcome::Survived@ == OutcomeView::Survived,
        MutationOutcome::Killed@ == OutcomeView::Killed,
        MutationOutcome::Timeout@ == OutcomeView::Timeout,
        MutationOutcome::BuildError(reason)@ == OutcomeView::BuildError(reason@),
        MutationOutcome::LineMismatch(reason)@ == OutcomeView::LineMismatch(reason@),
        mutation_views(mutations).len() == mutations.len(),
        forall|i: int|
            0 <= i < mutations.len() ==> #[trigger] mutation_views(mutations)[i] == mutations[i]@,
        result_views(results).len() == results.len(),
        forall|i: int|
            0 <= i < results.len() ==> #[trigger] result_views(results)[i] == results[i]@,
{
}

} // verus!
