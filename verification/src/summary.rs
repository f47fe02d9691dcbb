//! Summing up the results of a run.

use vstd::prelude::*;

use crate::mutation::{self, MutationResult, OutcomeView, ResultView};
use crate::numerals::{self, push_decimal};
use crate::text::{self, trim};

verus! {

/// One result as it is listed.
pub open spec fn result_line(r: ResultView) -> Seq<char> {
    "- "@ + r.mutation.file_path + ":"@ + numerals::decimal(r.mutation.line_number) + " ["@
        + mutation::outcome_text(r.outcome) + "] "@ + r.mutation.description + " | "@
        + text::trimmed(r.mutation.original_line) + " → "@ + text::trimmed(
        r.mutation.mutated_line,
    )
}

/// All results as they are listed, one to a line.
pub open spec fn results_summary(results: Seq<ResultView>) -> Seq<char>
    decreases results.len(),
{
    if results.len() == 0 {
        Seq::empty()
    } else {
        results_summary(results.drop_last()) + result_line(results.last()).push('\n')
    }
}

fn push_result(out: &mut String, r: &MutationResult)
    ensures
        final(out)@ == old(out)@ + result_line(r@).push('\n'),
{
    let ghost before = out@;
    out.append("- ");
    out.append(r.mutation.file_path.as_str());
    out.append(":");
    push_decimal(out, r.mutation.line_number);
    out.append(" [");
    out.append(r.outcome.to_string().as_str());
    out.append("] ");
    out.append(r.mutation.description.as_str());
    out.append(" | ");
    out.append(trim(r.mutation.original_line.as_str()));
    out.append(" → ");
    out.append(trim(r.mutation.mutated_line.as_str()));
    out.push('\n');
    assert(out@ =~= before + result_line(r@).push('\n'));
}

/// Lists the results, one line each.
pub fn format_results_summary(results: &[MutationResult]) -> (r: String)
    ensures
        r@ == results_summary(mutation::result_views(results@)),
{
    let ghost all = mutation::result_views(results@);
    let mut r = String::new();
    for i in 0..results.len()
        invariant
            all == mutation::result_views(results@),
            r@ == results_summary(all.take(i as int)),
    {
        assert(all.take(i + 1).drop_last() == all.take(i as int));
        assert(all.take(i + 1).last() == results@[i as int]@);
        push_result(&mut r, &results[i]);
    }
    assert(all.take(results@.len() as int) == all);
    r
}

/// Whether the tests had a say on a mutation: its code was changed and could
/// be built.
pub open spec fn testable(outcome: OutcomeView) -> bool {
    !(outcome is BuildError || outcome is LineMismatch)
}

/// How many results are such as `wanted` says.
pub open spec fn count(results: Seq<ResultView>, wanted: spec_fn(OutcomeView) -> bool) -> nat
    decreases results.len(),
{
    if results.len() == 0 {
        0
    } else {
        count(results.drop_last(), wanted) + if wanted(results.last().outcome) {
            1nat
        } else {
            0nat
        }
    }
}

/// How many mutations survived.
pub open spec fn survivors(results: Seq<ResultView>) -> nat {
    count(results, |o: OutcomeView| o is Survived)
}

/// How many mutations were killed.
pub open spec fn kills(results: Seq<ResultView>) -> nat {
    count(results, |o: OutcomeView| o is Killed)
}

/// On how many mutations the tests had a say.
pub open spec fn testables(results: Seq<ResultView>) -> nat {
    count(results, |o: OutcomeView| testable(o))
}

/// The number of results of each sort.
#[derive(Debug, PartialEq, Eq)]
pub struct Tally {
    pub killed: usize,
    pub survived: usize,
    pub testable: usize,
}

/// Whether a tally counts the given results.
pub open spec fn tallies(t: Tally, results: Seq<ResultView>) -> bool {
    &&& t.killed == kills(results)
    &&& t.survived == survivors(results)
    &&& t.testable == testables(results)
}

/// Counts the results of each sort.
pub fn tally(results: &[MutationResult]) -> (r: Tally)
    ensures
        tallies(r, mutation::result_views(results@)),
{
    let ghost all = mutation::result_views(results@);
    let mut killed: usize = 0;
    let mut survived: usize = 0;
    let mut testable: usize = 0;
    for i in 0..results.len()
        invariant
            all == mutation::result_views(results@),
            killed == kills(all.take(i as int)),
            survived == survivors(all.take(i as int)),
            testable == testables(all.take(i as int)),
            killed <= i,
            survived <= i,
            testable <= i,
    {
        assert(all.take(i + 1).drop_last() == all.take(i as int));
        assert(all.take(i + 1).last() == results@[i as int]@);
        match &results[i].outcome {
            mutation::MutationOutcome::Killed => {
                killed += 1;
                testable += 1;
            },
            mutation::MutationOutcome::Survived => {
                survived += 1;
                testable += 1;
            },
            mutation::MutationOutcome::Timeout => {
                testable += 1;
            },
            _ => {},
        }
    }
    assert(all.take(results@.len() as int) == all);
    Tally { killed, survived, testable }
}

/// Counts as they are shown.
pub open spec fn counts_text(killed: nat, survived: nat, testable: nat) -> Seq<char> {
    "\n📊 Results: "@ + numerals::decimal(killed) + " killed, "@ + numerals::decimal(survived)
        + " survived out of "@ + numerals::decimal(testable) + " testable mutations"@
}

impl Tally {
    /// The counts as they are shown.
    pub fn to_string(&self) -> (r: String)
        ensures
            r@ == counts_text(
                self.killed as nat,
                self.survived as nat,
                self.testable as nat,
            ),
    {
        let mut r = "\n📊 Results: ".to_owned();
        push_decimal(&mut r, self.killed);
        r.append(" killed, ");
        push_decimal(&mut r, self.survived);
        r.append(" survived out of ");
        push_decimal(&mut r, self.testable);
        r.append(" testable mutations");
        r
    }
}

/// Of the mutations that could be tested, those that neither survived nor were
/// killed timed out; no mutation is counted as both.
pub proof fn counts_add_up(results: Seq<ResultView>)
    ensures
        testables(results) == kills(results) + survivors(results) + count(
            results,
            |o: OutcomeView| o is Timeout,
        ),
        testables(results) <= results.len(),
    decreases results.len(),
{
    if results.len() > 0 {
        counts_add_up(results.drop_last());
    }
}

/// No mutation is counted as surviving exactly where none survived.
pub proof fn no_survivors(results: Seq<ResultView>)
    ensures
        survivors(results) == 0 <==> forall|i: int|
            0 <= i < results.len() ==> !((#[trigger] results[i]).outcome is Survived),
    decreases results.len(),
{
    if results.len() > 0 {
        let front = results.drop_last();
        no_survivors(front);
        if survivors(results) == 0 {
            assert forall|i: int| 0 <= i < results.len() implies !((
            #[trigger] results[i]).outcome is Survived) by {
                if i < front.len() {
                    assert(results[i] == front[i]);
                }
            }
        } else if survivors(front) > 0 {
            let i = choose|i: int| 0 <= i < front.len() && (#[trigger] front[i]).outcome is Survived;
            assert(results[i] == front[i]);
        } else {
            assert(results[results.len() - 1].outcome is Survived);
        }
    }
}

/// The summary has one line for each result, in order, as long as no result
/// takes up more than a line.
pub proof fn one_line_for_each_result(results: Seq<ResultView>)
    requires
        forall|i: int|
            0 <= i < results.len() ==> {
                &&& !result_line(#[trigger] results[i]).contains('\n')
                &&& result_line(results[i]).last() != '\r'
            },
    ensures
        text::lines(results_summary(results)) == results.map_values(|r: ResultView| result_line(r)),
        results.len() > 0 ==> results_summary(results).last() == '\n',
        results.len() == 0 ==> results_summary(results).len() == 0,
    decreases results.len(),
{
    let listed = results.map_values(|r: ResultView| result_line(r));
    if results.len() == 0 {
        assert(text::lines(results_summary(results)) =~= listed);
    } else {
        let front = results.drop_last();
        let last = results.last();
        assert(results[results.len() - 1] == last);
        assert forall|i: int| 0 <= i < front.len() implies {
            &&& !result_line(#[trigger] front[i]).contains('\n')
            &&& result_line(front[i]).last() != '\r'
        } by {
            assert(front[i] == results[i]);
        }
        one_line_for_each_result(front);
        text::line_is_appended(results_summary(front), result_line(last));
        assert(text::lines(results_summary(results)) =~= listed);
    }
}

/// A result is listed with its file and line, its outcome, its description and
/// the two lines, trimmed, each of them whole.
pub proof fn result_is_told(r: ResultView)
    ensures
        result_line(r) == "- "@ + (r.mutation.file_path + seq![':'] + numerals::decimal(
            r.mutation.line_number,
        )) + " ["@ + mutation::outcome_text(r.outcome) + "] "@ + r.mutation.description + " | "@ + (
        text::trimmed(r.mutation.original_line) + " → "@ + text::trimmed(r.mutation.mutated_line)),
{
    reveal_strlit(":");
    assert(result_line(r) =~= "- "@ + (r.mutation.file_path + seq![':'] + numerals::decimal(
        r.mutation.line_number,
    )) + " ["@ + mutation::outcome_text(r.outcome) + "] "@ + r.mutation.description + " | "@ + (
    text::trimmed(r.mutation.original_line) + " → "@ + text::trimmed(r.mutation.mutated_line)));
}

/// The summary of two lists of results is the summary of the one and then that
/// of the other; that of one result is its line; that of none is empty.
pub proof fn summaries_add_up(a: Seq<ResultView>, b: Seq<ResultView>, r: ResultView)
    ensures
        results_summary(a + b) == results_summary(a) + results_summary(b),
        results_summary(seq![r]) == result_line(r) + seq!['\n'],
        results_summary(Seq::empty()) == Seq::<char>::empty(),
    decreases b.len(),
{
    reveal_with_fuel(results_summary, 2);
    assert(seq![r].drop_last() =~= Seq::<ResultView>::empty());
    assert(results_summary(seq![r]) =~= result_line(r) + seq!['\n']);
    if b.len() == 0 {
        assert(a + b =~= a);
        assert(results_summary(a + b) =~= results_summary(a) + results_summary(b));
    } else {
        summaries_add_up(a, b.drop_last(), r);
        assert((a + b).drop_last() =~= a + b.drop_last());
        assert(results_summary(a + b) =~= results_summary(a) + results_summary(b));
    }
}

/// Each result counts once and for itself: the counts of two lists of results
/// are those of the one and of the other together, and one result is counted as
/// killed, survived or testable exactly where its outcome says so. A mutation
/// that timed out is testable; one that could not be built, or whose line was
/// not found, is not.
pub proof fn each_result_counts_once(a: Seq<ResultView>, b: Seq<ResultView>, r: ResultView)
    ensures
        kills(a + b) == kills(a) + kills(b),
        survivors(a + b) == survivors(a) + survivors(b),
        testables(a + b) == testables(a) + testables(b),
        kills(Seq::empty()) == 0 && survivors(Seq::empty()) == 0 && testables(Seq::empty()) == 0,
        kills(seq![r]) == if r.outcome is Killed {
            1nat
        } else {
            0nat
        },
        survivors(seq![r]) == if r.outcome is Survived {
            1nat
        } else {
            0nat
        },
        testables(seq![r]) == if r.outcome is Killed || r.outcome is Survived
            || r.outcome is Timeout {
            1nat
        } else {
            0nat
        },
    decreases b.len(),
{
    reveal_with_fuel(count, 2);
    assert(seq![r].drop_last() =~= Seq::<ResultView>::empty());
    if b.len() == 0 {
        assert(a + b =~= a);
    } else {
        each_result_counts_once(a, b.drop_last(), r);
        assert((a + b).drop_last() =~= a + b.drop_last());
    }
}

/// A tally holds the three counts, and is shown with each of them in its place.
pub proof fn tally_is_told(t: Tally, results: Seq<ResultView>)
    ensures
        tallies(t, results) <==> {
            &&& t.killed == kills(results)
            &&& t.survived == survivors(results)
            &&& t.testable == testables(results)
        },
        counts_text(t.killed as nat, t.survived as nat, t.testable as nat) == "\n📊 Results: "@ + (
        numerals::decimal(t.killed as nat) + " killed, "@) + (numerals::decimal(t.survived as nat)
            + " survived out of "@) + (numerals::decimal(t.testable as nat)
            + " testable mutations"@),
{
    assert(counts_text(t.killed as nat, t.survived as nat, t.testable as nat)
        =~= "\n📊 Results: "@ + (numerals::decimal(t.killed as nat) + " killed, "@) + (
    numerals::decimal(t.survived as nat) + " survived out of "@) + (numerals::decimal(
        t.testable as nat,
    ) + " testable mutations"@));
}

} // verus!
