//! What a run of the test suite says about the code under test.

use vstd::prelude::*;

use crate::decoding::{self, decode};
use crate::mutation::{MutationOutcome, OutcomeView};
use crate::text::{self, contains, same_text};

verus! {

/// How the command that runs the tests ended.
#[derive(Debug, PartialEq, Eq)]
pub enum TestExit {
    /// It ran to its end.
    Finished {
        /// Whether its exit status was zero.
        success: bool,
        /// What it wrote to its standard output.
        stdout: Vec<u8>,
        /// What it wrote to its standard error.
        stderr: Vec<u8>,
    },
    /// It could not be run, for the reason given.
    NotRun(String),
    /// It did not end in time.
    TimedOut,
}

/// Whether a run of the tests passed, and what it printed.
#[derive(Debug, PartialEq, Eq)]
pub struct TestReport {
    pub success: bool,
    pub output: String,
}

/// The mathematical form of a [`TestReport`].
pub struct ReportView {
    pub success: bool,
    pub output: Seq<char>,
}

impl View for TestReport {
    type V = ReportView;

    open spec fn view(&self) -> ReportView {
        ReportView { success: self.success, output: self.output@ }
    }
}

/// The report on a run that ended in `exit`.
pub open spec fn report_of(exit: TestExit) -> ReportView {
    match exit {
        TestExit::Finished { success, stdout, stderr } => ReportView {
            success,
            output: decoding::decoded(stdout@) + decoding::decoded(stderr@),
        },
        TestExit::NotRun(reason) => ReportView {
            success: false,
            output: "Failed to run cargo test: "@ + reason@,
        },
        TestExit::TimedOut => ReportView { success: false, output: "TIMEOUT"@ },
    }
}

/// The report on a run that ended by itself and printed the given texts.
pub fn finished_report(success: bool, stdout: &str, stderr: &str) -> (r: TestReport)
    ensures
        r@ == (ReportView { success, output: stdout@ + stderr@ }),
{
    TestReport { success, output: stdout.to_owned().concat(stderr) }
}

/// The report on a run that ended in `exit`.
pub fn test_report(exit: &TestExit) -> (r: TestReport)
    ensures
        r@ == report_of(*exit),
{
    match exit {
        TestExit::Finished { success, stdout, stderr } => {
            let printed = decode(stdout.as_slice());
            let errors = decode(stderr.as_slice());
            finished_report(*success, printed.as_str(), errors.as_str())
        },
        TestExit::NotRun(reason) => TestReport {
            success: false,
            output: "Failed to run cargo test: ".to_owned().concat(reason.as_str()),
        },
        TestExit::TimedOut => TestReport { success: false, output: "TIMEOUT".to_owned() },
    }
}

/// What a run of the tests on changed code says of the change.
pub open spec fn outcome_of(report: ReportView) -> OutcomeView {
    if report.output == "TIMEOUT"@ {
        OutcomeView::Timeout
    } else if report.success {
        OutcomeView::Survived
    } else if text::occurs(report.output, "error[E"@) || text::occurs(report.output, "could not compile"@) {
        OutcomeView::BuildError("compilation failed"@)
    } else {
        OutcomeView::Killed
    }
}

/// What a run of the tests on changed code says of the change.
pub fn classify(report: &TestReport) -> (r: MutationOutcome)
    ensures
        r@ == outcome_of(report@),
{
    let output = report.output.as_str();
    if same_text(output, "TIMEOUT") {
        MutationOutcome::Timeout
    } else if report.success {
        MutationOutcome::Survived
    } else if contains(output, "error[E") || contains(output, "could not compile") {
        MutationOutcome::BuildError("compilation failed".to_owned())
    } else {
        MutationOutcome::Killed
    }
}

/// A mutation survives only where the tests ran to their end and passed, and
/// tests that do not end in time always make its outcome a timeout.
pub proof fn only_passing_tests_let_survive(exit: TestExit)
    ensures
        outcome_of(report_of(exit)) is Survived ==> exit is Finished && exit->success,
        exit is TimedOut ==> outcome_of(report_of(exit)) is Timeout,
{
}

/// A run that did not pass, was not cut off, and says neither that a compiler
/// error was met nor that something could not be compiled kills the mutation,
/// whatever else it prints. Only one of these two texts makes a build error of
/// it, and neither matters where the tests passed.
pub proof fn failing_tests_kill(report: ReportView)
    ensures
        ({
            let faulty = exists|a: Seq<char>, b: Seq<char>|
                report.output == #[trigger] (a + "error[E"@ + b);
            let broken = exists|a: Seq<char>, b: Seq<char>|
                report.output == #[trigger] (a + "could not compile"@ + b);
            let cut_off = report.output == "TIMEOUT"@;
            let outcome = outcome_of(report);
            &&& outcome is Killed <==> !report.success && !cut_off && !faulty && !broken
            &&& outcome is BuildError <==> !report.success && !cut_off && (faulty || broken)
            &&& outcome is Survived <==> report.success && !cut_off
            &&& outcome is Timeout <==> cut_off
            &&& !(outcome is LineMismatch)
            &&& outcome is BuildError ==> outcome == OutcomeView::BuildError("compilation failed"@)
        }),
{
    text::found_between(report.output, "error[E"@);
    text::found_between(report.output, "could not compile"@);
}

/// A report says whether the tests passed as the exit status does, and holds
/// all that was printed: the standard output first, the errors behind it. A run
/// that did not come to its end never passes, and is told from any other by what
/// the report says.
pub proof fn report_holds_what_was_printed(
    success: bool,
    stdout: Vec<u8>,
    stderr: Vec<u8>,
    reason: String,
)
    ensures
        ({
            let report = report_of(TestExit::Finished { success, stdout, stderr });
            let n = decoding::decoded(stdout@).len() as int;
            &&& report.success == success
            &&& report.output.len() == n + decoding::decoded(stderr@).len()
            &&& report.output.take(n) == decoding::decoded(stdout@)
            &&& report.output.skip(n) == decoding::decoded(stderr@)
        }),
        ({
            let report = report_of(TestExit::NotRun(reason));
            &&& !report.success
            &&& report.output == "Failed to run cargo test: "@ + reason@
            &&& !(outcome_of(report) is Survived) && !(outcome_of(report) is Timeout)
        }),
        !report_of(TestExit::TimedOut).success,
        report_of(TestExit::TimedOut).output == "TIMEOUT"@,
{
    let a = decoding::decoded(stdout@);
    let b = decoding::decoded(stderr@);
    assert((a + b).take(a.len() as int) =~= a);
    assert((a + b).skip(a.len() as int) =~= b);
    reveal_strlit("Failed to run cargo test: ");
    reveal_strlit("TIMEOUT");
    assert(report_of(TestExit::NotRun(reason)).output[0] == 'F');
}

/// A report keeps what it is made of.
pub proof fn report_is_seen_whole(r: TestReport)
    ensures
        r@.success == r.success,
        r@.output == r.output@,
{
}

} // verus!
