//! The fixed course of a run, as a machine that asks for one effect at a time.

use vstd::prelude::*;

use crate::config::{self, Config, Models};
use crate::fences::{self, strip_code_fences};
use crate::mutation::{self, Mutation, MutationPlan, MutationResult, MutationView, ResultView};
use crate::numerals::{self, push_decimal};
use crate::paths::{self, PathView, SourcePath};
use crate::prompts::{
    self, analysis_role, build_analysis_prompt, build_mutation_prompt, PLAN_REQUEST, PLAN_ROLE,
};
use crate::report::{ReportView, TestReport};
use crate::summary::{self, format_results_summary, tally};

verus! {

/// How long the tests may take on unchanged code, in nanoseconds.
pub const BASELINE_TIMEOUT: u128 = 300_000_000_000;

/// How long the tests may take at least on changed code, in nanoseconds.
pub const LEAST_TIMEOUT: u128 = 30_000_000_000;

/// The longest time that can be measured, in nanoseconds.
pub const LONGEST_TIME: u128 = 18_446_744_073_709_551_615_999_999_999;

/// How long the tests may take on changed code, given how long they took on
/// unchanged code.
pub open spec fn timeout_for(baseline: int) -> int {
    if 3 * baseline < LEAST_TIMEOUT {
        LEAST_TIMEOUT as int
    } else {
        3 * baseline
    }
}

/// How long the tests may take on changed code, given how long they took on
/// unchanged code: three times as long, but no less than half a minute. All
/// times are in nanoseconds.
pub fn mutation_timeout(baseline: u128) -> (r: u128)
    requires
        3 * baseline <= LONGEST_TIME,
    ensures
        r == timeout_for(baseline as int),
{
    let tripled: u128 = 3 * baseline;
    if tripled < LEAST_TIMEOUT {
        LEAST_TIMEOUT
    } else {
        tripled
    }
}

/// An effect that the run asks for.
#[derive(Debug, PartialEq, Eq)]
pub enum WorkflowAction {
    /// Find the files to test.
    Discover,
    /// Read the files.
    ReadSources,
    /// Run the tests on unchanged code.
    RunBaseline { timeout: u128 },
    /// Ask the model for mutations.
    AskForPlan { model: String, role: String, prompt: String },
    /// Read a mutation plan from its JSON form.
    ParsePlan { json: String },
    /// Test the mutations.
    TestMutations { mutations: Vec<Mutation>, timeout: u128 },
    /// Ask the model what the results mean.
    AskForAnalysis { model: String, role: String, prompt: String },
    /// Print the analysis, and write its tests into the sources where `apply`
    /// says so. Nothing more is to do.
    Conclude { analysis: String, apply: bool },
    /// Nothing more is to do.
    Stop,
    /// Give up for the reason given.
    Fail { reason: String },
}

/// What came of an effect.
#[derive(Debug, PartialEq, Eq)]
pub enum WorkflowEvent {
    /// The files to test.
    FilesFound { files: Vec<SourcePath> },
    /// The files, shown with their line numbers.
    SourcesRead { sources: String },
    /// The tests ran on unchanged code, for so many nanoseconds.
    BaselineRun { report: TestReport, elapsed: u128 },
    /// The model's answer to the request for mutations.
    PlanReceived { reply: String },
    /// The mutation plan, or why it could not be read.
    PlanParsed { plan: Result<MutationPlan, String> },
    /// The mutations were tested.
    MutationsTested { results: Vec<MutationResult> },
    /// The model's analysis.
    AnalysisReceived { reply: String },
}

/// Which effect the run waits for, and what it keeps for later.
#[derive(Debug, PartialEq, Eq)]
pub enum WorkflowPhase {
    Discovering,
    Reading,
    Measuring { sources: String },
    Planning { sources: String, timeout: u128 },
    Parsing { sources: String, timeout: u128, reply: String },
    Testing { sources: String },
    Analyzing,
    Over,
}

/// A run of the tool.
#[derive(Debug, PartialEq, Eq)]
pub struct Workflow {
    pub config: Config,
    pub models: Models,
    /// The directory that paths are shown relative to.
    pub cwd: SourcePath,
    pub phase: WorkflowPhase,
}

/// What to show next, if it is not empty, and what to do then.
#[derive(Debug, PartialEq, Eq)]
pub struct Step {
    pub notice: String,
    pub action: WorkflowAction,
}

/// The options that the course of a run depends on.
pub struct Options {
    pub auto_mode: bool,
    /// The name of the model that is asked.
    pub model: Seq<char>,
    /// The directory that paths are shown relative to.
    pub cwd: PathView,
}

/// The mathematical form of a [`WorkflowPhase`].
pub enum PhaseView {
    Discovering,
    Reading,
    Measuring { sources: Seq<char> },
    Planning { sources: Seq<char>, timeout: int },
    Parsing { sources: Seq<char>, timeout: int, reply: Seq<char> },
    Testing { sources: Seq<char> },
    Analyzing,
    Over,
}

/// The mathematical form of a [`WorkflowAction`].
pub enum ActionView {
    Discover,
    ReadSources,
    RunBaseline { timeout: int },
    AskForPlan { model: Seq<char>, role: Seq<char>, prompt: Seq<char> },
    ParsePlan { json: Seq<char> },
    TestMutations { mutations: Seq<MutationView>, timeout: int },
    AskForAnalysis { model: Seq<char>, role: Seq<char>, prompt: Seq<char> },
    Conclude { analysis: Seq<char>, apply: bool },
    Stop,
    Fail { reason: Seq<char> },
}

/// The mathematical form of a [`WorkflowEvent`].
pub enum EventView {
    FilesFound { files: Seq<PathView> },
    SourcesRead { sources: Seq<char> },
    BaselineRun { report: ReportView, elapsed: int },
    PlanReceived { reply: Seq<char> },
    PlanParsed { plan: Result<Seq<MutationView>, Seq<char>> },
    MutationsTested { results: Seq<ResultView> },
    AnalysisReceived { reply: Seq<char> },
}

/// The mathematical form of a [`Step`], with the phase that it leads to.
pub struct StepView {
    pub phase: PhaseView,
    pub notice: Seq<char>,
    pub action: ActionView,
}

impl View for WorkflowPhase {
    type V = PhaseView;

    open spec fn view(&self) -> PhaseView {
        match self {
            WorkflowPhase::Discovering => PhaseView::Discovering,
            WorkflowPhase::Reading => PhaseView::Reading,
            WorkflowPhase::Measuring { sources } => PhaseView::Measuring { sources: sources@ },
            WorkflowPhase::Planning { sources, timeout } => PhaseView::Planning {
                sources: sources@,
                timeout: *timeout as int,
            },
            WorkflowPhase::Parsing { sources, timeout, reply } => PhaseView::Parsing {
                sources: sources@,
                timeout: *timeout as int,
                reply: reply@,
            },
            WorkflowPhase::Testing { sources } => PhaseView::Testing { sources: sources@ },
            WorkflowPhase::Analyzing => PhaseView::Analyzing,
            WorkflowPhase::Over => PhaseView::Over,
        }
    }
}

impl View for WorkflowAction {
    type V = ActionView;

    open spec fn view(&self) -> ActionView {
        match self {
            WorkflowAction::Discover => ActionView::Discover,
            WorkflowAction::ReadSources => ActionView::ReadSources,
            WorkflowAction::RunBaseline { timeout } => ActionView::RunBaseline {
                timeout: *timeout as int,
            },
            WorkflowAction::AskForPlan { model, role, prompt } => ActionView::AskForPlan {
                model: model@,
                role: role@,
                prompt: prompt@,
            },
            WorkflowAction::ParsePlan { json } => ActionView::ParsePlan { json: json@ },
            WorkflowAction::TestMutations { mutations, timeout } => ActionView::TestMutations {
                mutations: mutation::mutation_views(mutations@),
                timeout: *timeout as int,
            },
            WorkflowAction::AskForAnalysis { model, role, prompt } => ActionView::AskForAnalysis {
                model: model@,
                role: role@,
                prompt: prompt@,
            },
            WorkflowAction::Conclude { analysis, apply } => ActionView::Conclude {
                analysis: analysis@,
                apply: *apply,
            },
            WorkflowAction::Stop => ActionView::Stop,
            WorkflowAction::Fail { reason } => ActionView::Fail { reason: reason@ },
        }
    }
}

impl View for WorkflowEvent {
    type V = EventView;

    open spec fn view(&self) -> EventView {
        match self {
            WorkflowEvent::FilesFound { files } => EventView::FilesFound {
                files: paths::path_views(files@),
            },
            WorkflowEvent::SourcesRead { sources } => EventView::SourcesRead { sources: sources@ },
            WorkflowEvent::BaselineRun { report, elapsed } => EventView::BaselineRun {
                report: report@,
                elapsed: *elapsed as int,
            },
            WorkflowEvent::PlanReceived { reply } => EventView::PlanReceived { reply: reply@ },
            WorkflowEvent::PlanParsed { plan } => EventView::PlanParsed {
                plan: match plan {
                    Ok(p) => Ok(mutation::mutation_views(p.mutations@)),
                    Err(e) => Err(e@),
                },
            },
            WorkflowEvent::MutationsTested { results } => EventView::MutationsTested {
                results: mutation::result_views(results@),
            },
            WorkflowEvent::AnalysisReceived { reply } => EventView::AnalysisReceived {
                reply: reply@,
            },
        }
    }
}

impl Workflow {
    /// The options that the course of the run depends on.
    pub open spec fn options(&self) -> Options {
        Options {
            auto_mode: self.config.auto_mode,
            model: config::model_name(self.config.quick_mode, self.models),
            cwd: self.cwd@,
        }
    }
}

/// Whether a run in `phase` waits for an event such as `event`. A measured time
/// must be such that three times as much can still be measured.
pub open spec fn awaited(phase: PhaseView, event: EventView) -> bool {
    match phase {
        PhaseView::Discovering => event is FilesFound,
        PhaseView::Reading => event is SourcesRead,
        PhaseView::Measuring { .. } => event is BaselineRun && 0 <= 3 * event->elapsed
            <= LONGEST_TIME,
        PhaseView::Planning { .. } => event is PlanReceived,
        PhaseView::Parsing { .. } => event is PlanParsed,
        PhaseView::Testing { .. } => event is MutationsTested,
        PhaseView::Analyzing => event is AnalysisReceived,
        PhaseView::Over => false,
    }
}

/// The files to test as they are shown, one to a line and relative to `cwd`
/// where they lie below it.
pub open spec fn file_lines(files: Seq<PathView>, cwd: PathView) -> Seq<char>
    decreases files.len(),
{
    if files.len() == 0 {
        Seq::empty()
    } else {
        file_lines(files.drop_last(), cwd) + "   "@ + paths::path_text(
            paths::relative(files.last(), cwd),
        ) + "\n"@
    }
}

/// The step that ends a run.
pub open spec fn stopping(notice: Seq<char>) -> StepView {
    StepView { phase: PhaseView::Over, notice, action: ActionView::Stop }
}

/// The first step of a run.
pub open spec fn first_step() -> StepView {
    StepView {
        phase: PhaseView::Discovering,
        notice: "📁 Discovering source files..."@,
        action: ActionView::Discover,
    }
}

/// The step after the files were looked for.
pub open spec fn after_discovery(options: Options, files: Seq<PathView>) -> StepView {
    if files.len() == 0 {
        stopping("❌ No Rust source files found"@)
    } else {
        StepView {
            phase: PhaseView::Reading,
            notice: file_lines(files, options.cwd) + "\n📖 Reading source files..."@,
            action: ActionView::ReadSources,
        }
    }
}

/// The step after the files were read.
pub open spec fn after_reading(sources: Seq<char>) -> StepView {
    StepView {
        phase: PhaseView::Measuring { sources },
        notice: "⏱️  Running baseline tests..."@,
        action: ActionView::RunBaseline { timeout: BASELINE_TIMEOUT as int },
    }
}

/// The step after the tests ran on unchanged code.
pub open spec fn after_baseline(
    options: Options,
    sources: Seq<char>,
    report: ReportView,
    elapsed: int,
) -> StepView {
    if !report.success {
        stopping("❌ Baseline tests failed! Fix your tests first.\n"@ + report.output)
    } else {
        StepView {
            phase: PhaseView::Planning { sources, timeout: timeout_for(elapsed) },
            notice: "\n🧬 Asking AI for mutation plan..."@,
            action: ActionView::AskForPlan {
                model: options.model,
                role: PLAN_ROLE@,
                prompt: prompts::mutation_prompt(sources),
            },
        }
    }
}

/// The step after the model proposed mutations.
pub open spec fn after_plan(sources: Seq<char>, timeout: int, reply: Seq<char>) -> StepView {
    StepView {
        phase: PhaseView::Parsing { sources, timeout, reply },
        notice: Seq::empty(),
        action: ActionView::ParsePlan { json: fences::unfenced(reply) },
    }
}

/// The step after the plan was read.
pub open spec fn after_parsing(
    sources: Seq<char>,
    timeout: int,
    reply: Seq<char>,
    plan: Result<Seq<MutationView>, Seq<char>>,
) -> StepView {
    match plan {
        Ok(mutations) => StepView {
            phase: PhaseView::Testing { sources },
            notice: "   Got "@ + numerals::decimal(mutations.len())
                + " mutations\n\n🧪 Testing mutations...\n"@,
            action: ActionView::TestMutations { mutations, timeout },
        },
        Err(e) => StepView {
            phase: PhaseView::Over,
            notice: Seq::empty(),
            action: ActionView::Fail {
                reason: "Failed to parse mutation plan: "@ + e + "\nRaw response:\n"@ + reply,
            },
        },
    }
}

/// The counts of the results, as they are shown.
pub open spec fn counted(results: Seq<ResultView>) -> Seq<char> {
    summary::counts_text(
        summary::kills(results),
        summary::survivors(results),
        summary::testables(results),
    )
}

/// What is said of the results, before the model is asked what they mean.
pub open spec fn conclusion(results: Seq<ResultView>) -> Seq<char> {
    if summary::survivors(results) == 0 {
        "\n\n🎉 All mutations were killed! Your tests look solid."@
    } else {
        "\n\n💡 Analyzing surviving mutations...\n"@
    }
}

/// The step after the mutations were tested.
pub open spec fn after_testing(
    options: Options,
    sources: Seq<char>,
    results: Seq<ResultView>,
) -> StepView {
    StepView {
        phase: PhaseView::Analyzing,
        notice: counted(results) + conclusion(results),
        action: ActionView::AskForAnalysis {
            model: options.model,
            role: prompts::analysis_role_text(options.auto_mode),
            prompt: prompts::analysis_prompt(
                options.auto_mode,
                summary::results_summary(results),
                sources,
            ),
        },
    }
}

/// The step after the model analyzed the results.
pub open spec fn after_analysis(options: Options, reply: Seq<char>) -> StepView {
    StepView {
        phase: PhaseView::Over,
        notice: Seq::empty(),
        action: ActionView::Conclude { analysis: reply, apply: options.auto_mode },
    }
}

/// The step that follows `phase` on `event`.
pub open spec fn next(options: Options, phase: PhaseView, event: EventView) -> StepView {
    match (phase, event) {
        (PhaseView::Discovering, EventView::FilesFound { files }) => after_discovery(
            options,
            files,
        ),
        (PhaseView::Reading, EventView::SourcesRead { sources }) => after_reading(sources),
        (PhaseView::Measuring { sources }, EventView::BaselineRun { report, elapsed }) =>
            after_baseline(options, sources, report, elapsed),
        (PhaseView::Planning { sources, timeout }, EventView::PlanReceived { reply }) =>
            after_plan(sources, timeout, reply),
        (PhaseView::Parsing { sources, timeout, reply }, EventView::PlanParsed { plan }) =>
            after_parsing(sources, timeout, reply, plan),
        (PhaseView::Testing { sources }, EventView::MutationsTested { results }) => after_testing(
            options,
            sources,
            results,
        ),
        (PhaseView::Analyzing, EventView::AnalysisReceived { reply }) => after_analysis(
            options,
            reply,
        ),
        _ => stopping(Seq::empty()),
    }
}

fn show_files(files: &[SourcePath], cwd: &SourcePath) -> (r: String)
    ensures
        r@ == file_lines(paths::path_views(files@), cwd@),
{
    let ghost all = paths::path_views(files@);
    let mut r = String::new();
    for i in 0..files.len()
        invariant
            all == paths::path_views(files@),
            r@ == file_lines(all.take(i as int), cwd@),
    {
        assert(all.take(i + 1).drop_last() == all.take(i as int));
        assert(all.take(i + 1).last() == files@[i as int]@);
        r.append("   ");
        r.append(files[i].relative_to(cwd).display().as_str());
        r.append("\n");
    }
    assert(all.take(files@.len() as int) == all);
    r
}

impl Workflow {
    /// Starts a run with the given options in the directory `cwd`.
    pub fn start(config: Config, models: Models, cwd: SourcePath) -> (r: (Workflow, Step))
        ensures
            r.0.config == config,
            r.0.models == models,
            r.0.cwd == cwd,
            r.0.phase@ == first_step().phase,
            r.1.notice@ == first_step().notice,
            r.1.action@ == first_step().action,
    {
        let step = Step {
            notice: "📁 Discovering source files...".to_owned(),
            action: WorkflowAction::Discover,
        };
        (Workflow { config, models, cwd, phase: WorkflowPhase::Discovering }, step)
    }

    /// Whether the run waits for an event such as `event`.
    pub fn awaits(&self, event: &WorkflowEvent) -> (r: bool)
        ensures
            r == awaited(self.phase@, event@),
    {
        match (&self.phase, event) {
            (WorkflowPhase::Discovering, WorkflowEvent::FilesFound { .. }) => true,
            (WorkflowPhase::Reading, WorkflowEvent::SourcesRead { .. }) => true,
            (WorkflowPhase::Measuring { .. }, WorkflowEvent::BaselineRun { elapsed, .. }) =>
                *elapsed <= LONGEST_TIME / 3,
            (WorkflowPhase::Planning { .. }, WorkflowEvent::PlanReceived { .. }) => true,
            (WorkflowPhase::Parsing { .. }, WorkflowEvent::PlanParsed { .. }) => true,
            (WorkflowPhase::Testing { .. }, WorkflowEvent::MutationsTested { .. }) => true,
            (WorkflowPhase::Analyzing, WorkflowEvent::AnalysisReceived { .. }) => true,
            _ => false,
        }
    }

    /// The run after `event`, and its next step.
    pub fn step(self, event: WorkflowEvent) -> (r: (Workflow, Step))
        requires
            awaited(self.phase@, event@),
        ensures
            r.0.config == self.config,
            r.0.models == self.models,
            r.0.cwd == self.cwd,
            (StepView { phase: r.0.phase@, notice: r.1.notice@, action: r.1.action@ }) == next(
                self.options(),
                self.phase@,
                event@,
            ),
    {
        let Workflow { config, models, cwd, phase } = self;
        let (phase, notice, action) = match (phase, event) {
            (WorkflowPhase::Discovering, WorkflowEvent::FilesFound { files }) => {
                if files.len() == 0 {
                    (
                        WorkflowPhase::Over,
                        "❌ No Rust source files found".to_owned(),
                        WorkflowAction::Stop,
                    )
                } else {
                    (
                        WorkflowPhase::Reading,
                        show_files(files.as_slice(), &cwd).concat("\n📖 Reading source files..."),
                        WorkflowAction::ReadSources,
                    )
                }
            },
            (WorkflowPhase::Reading, WorkflowEvent::SourcesRead { sources }) => (
                WorkflowPhase::Measuring { sources },
                "⏱️  Running baseline tests...".to_owned(),
                WorkflowAction::RunBaseline { timeout: BASELINE_TIMEOUT },
            ),
            (WorkflowPhase::Measuring { sources }, WorkflowEvent::BaselineRun { report, elapsed }) => {
                if !report.success {
                    (
                        WorkflowPhase::Over,
                        "❌ Baseline tests failed! Fix your tests first.\n".to_owned().concat(
                            report.output.as_str(),
                        ),
                        WorkflowAction::Stop,
                    )
                } else {
                    let action = WorkflowAction::AskForPlan {
                        model: config.model_id(&models).to_owned(),
                        role: PLAN_ROLE.to_owned(),
                        prompt: build_mutation_prompt(sources.as_str()),
                    };
                    (
                        WorkflowPhase::Planning { sources, timeout: mutation_timeout(elapsed) },
                        "\n🧬 Asking AI for mutation plan...".to_owned(),
                        action,
                    )
                }
            },
            (WorkflowPhase::Planning { sources, timeout }, WorkflowEvent::PlanReceived { reply }) => {
                let json = strip_code_fences(reply.as_str()).to_owned();
                (
                    WorkflowPhase::Parsing { sources, timeout, reply },
                    String::new(),
                    WorkflowAction::ParsePlan { json },
                )
            },
            (
                WorkflowPhase::Parsing { sources, timeout, reply },
                WorkflowEvent::PlanParsed { plan },
            ) => match plan {
                Ok(plan) => {
                    let mut notice = "   Got ".to_owned();
                    push_decimal(&mut notice, plan.mutations.len());
                    notice.append(" mutations\n\n🧪 Testing mutations...\n");
                    (
                        WorkflowPhase::Testing { sources },
                        notice,
                        WorkflowAction::TestMutations { mutations: plan.mutations, timeout },
                    )
                },
                Err(e) => {
                    let mut reason = "Failed to parse mutation plan: ".to_owned();
                    reason.append(e.as_str());
                    reason.append("\nRaw response:\n");
                    reason.append(reply.as_str());
                    (WorkflowPhase::Over, String::new(), WorkflowAction::Fail { reason })
                },
            },
            (WorkflowPhase::Testing { sources }, WorkflowEvent::MutationsTested { results }) => {
                let counts = tally(results.as_slice());
                let conclusion = if counts.survived == 0 {
                    "\n\n🎉 All mutations were killed! Your tests look solid."
                } else {
                    "\n\n💡 Analyzing surviving mutations...\n"
                };
                let listed = format_results_summary(results.as_slice());
                (
                    WorkflowPhase::Analyzing,
                    counts.to_string().concat(conclusion),
                    WorkflowAction::AskForAnalysis {
                        model: config.model_id(&models).to_owned(),
                        role: analysis_role(config.auto_mode).to_owned(),
                        prompt: build_analysis_prompt(
                            config.auto_mode,
                            listed.as_str(),
                            sources.as_str(),
                        ),
                    },
                )
            },
            (WorkflowPhase::Analyzing, WorkflowEvent::AnalysisReceived { reply }) => (
                WorkflowPhase::Over,
                String::new(),
                WorkflowAction::Conclude { analysis: reply, apply: config.auto_mode },
            ),
            _ => (WorkflowPhase::Over, String::new(), WorkflowAction::Stop),
        };
        (Workflow { config, models, cwd, phase }, Step { notice, action })
    }
}

/// The step that a run has come to after `events`.
pub open spec fn after_events(options: Options, events: Seq<EventView>) -> StepView
    decreases events.len(),
{
    if events.len() == 0 {
        first_step()
    } else {
        next(options, after_events(options, events.drop_last()).phase, events.last())
    }
}

/// Whether a run can go through `events`: each is of the sort it waits for.
pub open spec fn possible_run(options: Options, events: Seq<EventView>) -> bool {
    forall|i: int|
        0 <= i < events.len() ==> awaited(
            after_events(options, events.take(i)).phase,
            #[trigger] events[i],
        )
}

/// Whether an effect is a call to the model.
pub open spec fn asks_model(action: ActionView) -> bool {
    action is AskForPlan || action is AskForAnalysis
}

/// How often a run has called the model once it has gone through `events`.
pub open spec fn model_calls(options: Options, events: Seq<EventView>) -> nat
    decreases events.len(),
{
    if events.len() == 0 {
        0
    } else {
        model_calls(options, events.drop_last()) + if asks_model(
            after_events(options, events).action,
        ) {
            1nat
        } else {
            0nat
        }
    }
}

/// How often the model has been called and how many effects there have been
/// when a run is in `phase` and asks for `action`.
spec fn on_course(step: StepView, calls: nat, effects: nat) -> bool {
    match step.phase {
        PhaseView::Discovering => calls == 0 && effects == 0,
        PhaseView::Reading => calls == 0 && effects == 1,
        PhaseView::Measuring { .. } => calls == 0 && effects == 2,
        PhaseView::Planning { .. } => {
            &&& calls == 1
            &&& effects == 3
            &&& step.action is AskForPlan
        },
        PhaseView::Parsing { .. } => calls == 1 && effects == 4,
        PhaseView::Testing { .. } => {
            &&& calls == 1
            &&& effects == 5
            &&& step.action is TestMutations
        },
        PhaseView::Analyzing => {
            &&& calls == 2
            &&& effects == 6
            &&& step.action is AskForAnalysis
        },
        PhaseView::Over => {
            &&& step.action is Stop ==> calls == 0 && effects <= 3
            &&& step.action is Fail ==> calls == 1 && effects == 5
            &&& step.action is Conclude ==> calls == 2 && effects == 7
            &&& step.action is Stop || step.action is Fail || step.action is Conclude
        },
    }
}

proof fn run_stays_on_course(options: Options, events: Seq<EventView>)
    requires
        possible_run(options, events),
    ensures
        on_course(after_events(options, events), model_calls(options, events), events.len()),
    decreases events.len(),
{
    if events.len() > 0 {
        let before = events.drop_last();
        let last = events.len() - 1;
        assert(before == events.take(last));
        run_stays_possible(options, events, last);
        run_stays_on_course(options, before);
        assert(awaited(after_events(options, before).phase, events[last]));
    }
}

/// The model is called first for a plan, before any mutation is tested, and
/// then for an analysis. Every run in which the mutations were tested calls it
/// exactly twice, whether any survived or not; no run calls it more often.
pub proof fn model_is_called_twice(options: Options, events: Seq<EventView>)
    requires
        possible_run(options, events),
    ensures
        model_calls(options, events) <= 2,
        after_events(options, events).action is AskForPlan ==> model_calls(options, events) == 1,
        after_events(options, events).action is TestMutations ==> model_calls(options, events) == 1,
        forall|i: int|
            0 <= i < events.len() && (#[trigger] events[i]) is MutationsTested ==> model_calls(
                options,
                events,
            ) == 2,
        after_events(options, events).action is AskForAnalysis ==> model_calls(options, events)
            == 2,
        after_events(options, events).action is Conclude ==> model_calls(options, events) == 2,
{
    run_stays_on_course(options, events);
    action_tells_phase(options, events);
    assert forall|i: int|
        0 <= i < events.len() && (#[trigger] events[i]) is MutationsTested implies model_calls(
        options,
        events,
    ) == 2 by {
        run_stays_possible(options, events, i);
        run_stays_on_course(options, events.take(i));
        assert(awaited(after_events(options, events.take(i)).phase, events[i]));
    }
}

proof fn run_stays_possible(options: Options, events: Seq<EventView>, n: int)
    requires
        possible_run(options, events),
        0 <= n <= events.len(),
    ensures
        possible_run(options, events.take(n)),
{
    let front = events.take(n);
    assert forall|i: int| 0 <= i < front.len() implies awaited(
        after_events(options, front.take(i)).phase,
        #[trigger] front[i],
    ) by {
        assert(front.take(i) == events.take(i));
        assert(front[i] == events[i]);
    }
}

proof fn action_tells_phase(options: Options, events: Seq<EventView>)
    ensures
        after_events(options, events).action is AskForPlan ==> after_events(
            options,
            events,
        ).phase is Planning,
        after_events(options, events).action is TestMutations ==> after_events(
            options,
            events,
        ).phase is Testing,
        after_events(options, events).action is AskForAnalysis ==> after_events(
            options,
            events,
        ).phase is Analyzing,
        after_events(options, events).action is Conclude ==> after_events(
            options,
            events,
        ).phase is Over,
{
}

/// A run is over after at most seven effects, and then asks for nothing more.
pub proof fn run_ends(options: Options, events: Seq<EventView>)
    requires
        possible_run(options, events),
    ensures
        events.len() <= 7,
        after_events(options, events).phase is Over <==> {
            ||| after_events(options, events).action is Stop
            ||| after_events(options, events).action is Fail
            ||| after_events(options, events).action is Conclude
        },
{
    run_stays_on_course(options, events);
}

/// Where the tests fail on unchanged code the run stops, and the model is never
/// called.
pub proof fn failing_baseline_stops(options: Options, events: Seq<EventView>)
    requires
        possible_run(options, events),
        events.len() > 0,
        events.last() matches EventView::BaselineRun { report, .. } && !report.success,
    ensures
        after_events(options, events).action is Stop,
        model_calls(options, events) == 0,
{
    let before = events.drop_last();
    let last = events.len() - 1;
    assert(before == events.take(last));
    run_stays_possible(options, events, last);
    run_stays_on_course(options, before);
    assert(awaited(after_events(options, before).phase, events[last]));
}

/// Once the mutations are tested, the model is asked what all of the results
/// mean, and the user is told that none survived exactly where none did.
pub proof fn survivors_are_analyzed(
    options: Options,
    sources: Seq<char>,
    results: Seq<ResultView>,
)
    ensures
        ({
            let step = next(
                options,
                PhaseView::Testing { sources },
                EventView::MutationsTested { results },
            );
            let killed = "\n\n🎉 All mutations were killed! Your tests look solid."@;
            &&& step.action == (ActionView::AskForAnalysis {
                model: options.model,
                role: prompts::analysis_role_text(options.auto_mode),
                prompt: prompts::analysis_prompt(
                    options.auto_mode,
                    summary::results_summary(results),
                    sources,
                ),
            })
            &&& step.notice == counted(results) + killed <==> !exists|i: int|
                0 <= i < results.len() && (#[trigger] results[i]).outcome is Survived
        }),
{
    summary::no_survivors(results);
    let killed = "\n\n🎉 All mutations were killed! Your tests look solid."@;
    let survived = "\n\n💡 Analyzing surviving mutations...\n"@;
    reveal_strlit("\n\n🎉 All mutations were killed! Your tests look solid.");
    reveal_strlit("\n\n💡 Analyzing surviving mutations...\n");
    let n = counted(results).len() as int;
    assert((counted(results) + killed)[n + 2] == killed[2]);
    assert((counted(results) + survived)[n + 2] == survived[2]);
}

/// Changed code may run three times as long as unchanged code did, and half a
/// minute in any case, but no longer. Unchanged code may run for five minutes.
pub proof fn timeout_is_the_longer(baseline: int)
    requires
        0 <= baseline,
    ensures
        timeout_for(baseline) >= 3 * baseline,
        timeout_for(baseline) >= 30_000_000_000,
        timeout_for(baseline) == 3 * baseline || timeout_for(baseline) == 30_000_000_000,
        BASELINE_TIMEOUT == 5 * 60 * 1_000_000_000,
        LONGEST_TIME == 0x1_0000_0000_0000_0000 * 1_000_000_000 - 1,
{
}

/// The files to test are shown one below the other, each as it is seen from the
/// working directory, and none is left out.
pub proof fn files_are_shown(a: Seq<PathView>, b: Seq<PathView>, p: PathView, cwd: PathView)
    ensures
        file_lines(a + b, cwd) == file_lines(a, cwd) + file_lines(b, cwd),
        file_lines(seq![p], cwd) == seq![' ', ' ', ' '] + paths::path_text(paths::relative(p, cwd))
            + seq!['\n'],
        file_lines(Seq::empty(), cwd) == Seq::<char>::empty(),
    decreases b.len(),
{
    reveal_strlit("   ");
    reveal_strlit("\n");
    reveal_with_fuel(file_lines, 2);
    let one = seq![p];
    assert(one.drop_last() =~= Seq::<PathView>::empty());
    assert("   "@ =~= seq![' ', ' ', ' ']);
    assert("\n"@ =~= seq!['\n']);
    assert(file_lines(one, cwd) =~= seq![' ', ' ', ' '] + paths::path_text(paths::relative(p, cwd))
        + seq!['\n']);
    if b.len() == 0 {
        assert(a + b =~= a);
        assert(file_lines(a + b, cwd) =~= file_lines(a, cwd) + file_lines(b, cwd));
    } else {
        files_are_shown(a, b.drop_last(), p, cwd);
        assert((a + b).drop_last() =~= a + b.drop_last());
        assert((a + b).last() == b.last());
        assert(file_lines(a + b, cwd) =~= file_lines(a, cwd) + file_lines(b, cwd));
    }
}

/// What happens in a run in which everything goes well.
pub struct Course {
    pub files: Seq<PathView>,
    pub sources: Seq<char>,
    pub report: ReportView,
    pub elapsed: int,
    pub plan_reply: Seq<char>,
    pub mutations: Seq<MutationView>,
    pub results: Seq<ResultView>,
    pub analysis: Seq<char>,
}

/// The events of such a run.
pub open spec fn events_of(c: Course) -> Seq<EventView> {
    seq![
        EventView::FilesFound { files: c.files },
        EventView::SourcesRead { sources: c.sources },
        EventView::BaselineRun { report: c.report, elapsed: c.elapsed },
        EventView::PlanReceived { reply: c.plan_reply },
        EventView::PlanParsed { plan: Ok(c.mutations) },
        EventView::MutationsTested { results: c.results },
        EventView::AnalysisReceived { reply: c.analysis },
    ]
}

/// A run in which everything goes well asks for one effect after the other, and
/// hands each what the ones before it brought: the sources to both requests, the
/// plan between its fences to be read, its mutations to be tested with the time
/// that the tests took, all results to be analyzed, and the analysis to be shown
/// and, in automatic mode only, applied. The same model is asked both times.
pub proof fn course_of_a_run(options: Options, c: Course)
    requires
        c.files.len() > 0,
        c.report.success,
        0 <= 3 * c.elapsed <= LONGEST_TIME,
    ensures
        possible_run(options, events_of(c)),
        after_events(options, Seq::empty()).action == ActionView::Discover,
        after_events(options, events_of(c).take(1)).action == ActionView::ReadSources,
        after_events(options, events_of(c).take(2)).action == (ActionView::RunBaseline {
            timeout: 300_000_000_000,
        }),
        after_events(options, events_of(c).take(3)).action == (ActionView::AskForPlan {
            model: options.model,
            role: PLAN_ROLE@,
            prompt: PLAN_REQUEST@ + c.sources,
        }),
        after_events(options, events_of(c).take(4)).action == (ActionView::ParsePlan {
            json: fences::unfenced(c.plan_reply),
        }),
        after_events(options, events_of(c).take(5)).action == (ActionView::TestMutations {
            mutations: c.mutations,
            timeout: if 3 * c.elapsed < 30_000_000_000 {
                30_000_000_000
            } else {
                3 * c.elapsed
            },
        }),
        after_events(options, events_of(c).take(6)).action == (ActionView::AskForAnalysis {
            model: options.model,
            role: prompts::analysis_role_text(options.auto_mode),
            prompt: prompts::analysis_prompt(
                options.auto_mode,
                summary::results_summary(c.results),
                c.sources,
            ),
        }),
        after_events(options, events_of(c)).action == (ActionView::Conclude {
            analysis: c.analysis,
            apply: options.auto_mode,
        }),
{
    let e = events_of(c);
    assert(e.len() == 7);
    let timeout = timeout_for(c.elapsed);
    assert(e.take(0) =~= Seq::<EventView>::empty());
    assert(e.take(7) =~= e);
    assert(after_events(options, e.take(0)) == first_step());
    one_event_on(options, e, 0);
    assert(after_events(options, e.take(1)) == after_discovery(options, c.files));
    one_event_on(options, e, 1);
    assert(after_events(options, e.take(2)) == after_reading(c.sources));
    one_event_on(options, e, 2);
    assert(after_events(options, e.take(3)) == after_baseline(
        options,
        c.sources,
        c.report,
        c.elapsed,
    ));
    one_event_on(options, e, 3);
    assert(after_events(options, e.take(4)) == after_plan(c.sources, timeout, c.plan_reply));
    one_event_on(options, e, 4);
    assert(after_events(options, e.take(5)) == after_parsing(
        c.sources,
        timeout,
        c.plan_reply,
        Ok(c.mutations),
    ));
    one_event_on(options, e, 5);
    assert(after_events(options, e.take(6)) == after_testing(options, c.sources, c.results));
    one_event_on(options, e, 6);
    assert(after_events(options, e.take(7)) == after_analysis(options, c.analysis));
    assert forall|i: int| 0 <= i < e.len() implies awaited(
        after_events(options, e.take(i)).phase,
        #[trigger] e[i],
    ) by {
        assert(i == 0 || i == 1 || i == 2 || i == 3 || i == 4 || i == 5 || i == 6);
    }
}

proof fn one_event_on(options: Options, e: Seq<EventView>, i: int)
    requires
        0 <= i < e.len(),
    ensures
        after_events(options, e.take(i + 1)) == next(
            options,
            after_events(options, e.take(i)).phase,
            e[i],
        ),
{
    assert(e.take(i + 1).drop_last() =~= e.take(i));
    assert(e.take(i + 1).last() == e[i]);
}

/// What is shown on the way: each step is announced, the files and the counts
/// are told, and where the run ends early the reason is.
pub proof fn steps_are_announced(
    options: Options,
    files: Seq<PathView>,
    sources: Seq<char>,
    report: ReportView,
    elapsed: int,
    timeout: int,
    reply: Seq<char>,
    mutations: Seq<MutationView>,
    problem: Seq<char>,
    results: Seq<ResultView>,
)
    ensures
        first_step().notice == "📁 Discovering source files..."@,
        next(options, PhaseView::Discovering, EventView::FilesFound { files }).notice
            == if files.len() == 0 {
            "❌ No Rust source files found"@
        } else {
            file_lines(files, options.cwd) + "\n📖 Reading source files..."@
        },
        files.len() == 0 ==> next(
            options,
            PhaseView::Discovering,
            EventView::FilesFound { files },
        ).action is Stop,
        next(options, PhaseView::Reading, EventView::SourcesRead { sources }).notice
            == "⏱️  Running baseline tests..."@,
        next(
            options,
            PhaseView::Measuring { sources },
            EventView::BaselineRun { report, elapsed },
        ).notice == if report.success {
            "\n🧬 Asking AI for mutation plan..."@
        } else {
            "❌ Baseline tests failed! Fix your tests first.\n"@ + report.output
        },
        next(
            options,
            PhaseView::Planning { sources, timeout },
            EventView::PlanReceived { reply },
        ).notice == Seq::<char>::empty(),
        next(
            options,
            PhaseView::Parsing { sources, timeout, reply },
            EventView::PlanParsed { plan: Ok(mutations) },
        ).notice == "   Got "@ + (numerals::decimal(mutations.len())
            + " mutations\n\n🧪 Testing mutations...\n"@),
        next(
            options,
            PhaseView::Parsing { sources, timeout, reply },
            EventView::PlanParsed { plan: Err(problem) },
        ).action == (ActionView::Fail {
            reason: "Failed to parse mutation plan: "@ + problem + ("\nRaw response:\n"@ + reply),
        }),
        next(
            options,
            PhaseView::Testing { sources },
            EventView::MutationsTested { results },
        ).notice == summary::counts_text(
            summary::kills(results),
            summary::survivors(results),
            summary::testables(results),
        ) + if summary::survivors(results) == 0 {
            "\n\n🎉 All mutations were killed! Your tests look solid."@
        } else {
            "\n\n💡 Analyzing surviving mutations...\n"@
        },
        next(options, PhaseView::Analyzing, EventView::AnalysisReceived { reply }).notice
            == Seq::<char>::empty(),
{
    assert("   Got "@ + numerals::decimal(mutations.len())
        + " mutations\n\n🧪 Testing mutations...\n"@ =~= "   Got "@ + (numerals::decimal(
        mutations.len(),
    ) + " mutations\n\n🧪 Testing mutations...\n"@));
    assert("Failed to parse mutation plan: "@ + problem + "\nRaw response:\n"@ + reply
        =~= "Failed to parse mutation plan: "@ + problem + ("\nRaw response:\n"@ + reply));
}

/// Whatever comes of an effect is awaited, and nothing that answers another; a
/// measured time only where three times as much can still be measured.
pub proof fn answers_are_awaited(
    event: EventView,
    sources: Seq<char>,
    timeout: int,
    reply: Seq<char>,
)
    ensures
        awaited(PhaseView::Discovering, event) <==> event is FilesFound,
        awaited(PhaseView::Reading, event) <==> event is SourcesRead,
        awaited(PhaseView::Measuring { sources }, event) <==> event is BaselineRun && 0 <= 3
            * event->elapsed < 0x1_0000_0000_0000_0000 * 1_000_000_000,
        awaited(PhaseView::Planning { sources, timeout }, event) <==> event is PlanReceived,
        awaited(PhaseView::Parsing { sources, timeout, reply }, event) <==> event is PlanParsed,
        awaited(PhaseView::Testing { sources }, event) <==> event is MutationsTested,
        awaited(PhaseView::Analyzing, event) <==> event is AnalysisReceived,
        !awaited(PhaseView::Over, event),
{
}

/// The mathematical forms of a run, its effects and their results leave nothing
/// out that they depend on.
pub proof fn run_is_seen_whole(
    run: Workflow,
    text: String,
    role: String,
    prompt: String,
    timeout: u128,
    mutations: Vec<Mutation>,
    files: Vec<SourcePath>,
    report: TestReport,
    results: Vec<MutationResult>,
    apply: bool,
)
    ensures
        run.options().auto_mode == run.config.auto_mode,
        run.options().cwd == run.cwd@,
        run.options().model == if run.config.quick_mode {
            run.models.quick@
        } else {
            run.models.thorough@
        },
        WorkflowAction::Discover@ == ActionView::Discover,
        WorkflowAction::ReadSources@ == ActionView::ReadSources,
        (WorkflowAction::RunBaseline { timeout })@ == (ActionView::RunBaseline {
            timeout: timeout as int,
        }),
        (WorkflowAction::AskForPlan { model: text, role, prompt })@ == (ActionView::AskForPlan {
            model: text@,
            role: role@,
            prompt: prompt@,
        }),
        (WorkflowAction::ParsePlan { json: text })@ == (ActionView::ParsePlan { json: text@ }),
        (WorkflowAction::TestMutations { mutations, timeout })@ == (ActionView::TestMutations {
            mutations: mutation::mutation_views(mutations@),
            timeout: timeout as int,
        }),
        (WorkflowAction::AskForAnalysis { model: text, role, prompt })@
            == (ActionView::AskForAnalysis { model: text@, role: role@, prompt: prompt@ }),
        (WorkflowAction::Conclude { analysis: text, apply })@ == (ActionView::Conclude {
            analysis: text@,
            apply,
        }),
        WorkflowAction::Stop@ == ActionView::Stop,
        (WorkflowAction::Fail { reason: text })@ == (ActionView::Fail { reason: text@ }),
        (WorkflowEvent::FilesFound { files })@ == (EventView::FilesFound {
            files: paths::path_views(files@),
        }),
        (WorkflowEvent::SourcesRead { sources: text })@ == (EventView::SourcesRead {
            sources: text@,
        }),
        (WorkflowEvent::BaselineRun { report, elapsed: timeout })@ == (EventView::BaselineRun {
            report: report@,
            elapsed: timeout as int,
        }),
        (WorkflowEvent::PlanReceived { reply: text })@ == (EventView::PlanReceived {
            reply: text@,
        }),
        (WorkflowEvent::PlanParsed { plan: Ok(MutationPlan { mutations }) })@
            == (EventView::PlanParsed { plan: Ok(mutation::mutation_views(mutations@)) }),
        (WorkflowEvent::PlanParsed { plan: Err(text) })@ == (EventView::PlanParsed {
            plan: Err(text@),
        }),
        (WorkflowEvent::MutationsTested { results })@ == (EventView::MutationsTested {
            results: mutation::result_views(results@),
        }),
        (WorkflowEvent::AnalysisReceived { reply: text })@ == (EventView::AnalysisReceived {
            reply: text@,
        }),
        WorkflowPhase::Discovering@ == PhaseView::Discovering,
        WorkflowPhase::Reading@ == PhaseView::Reading,
        (WorkflowPhase::Measuring { sources: text })@ == (PhaseView::Measuring { sources: text@ }),
        (WorkflowPhase::Planning { sources: text, timeout })@ == (PhaseView::Planning {
            sources: text@,
            timeout: timeout as int,
        }),
        (WorkflowPhase::Parsing { sources: text, timeout, reply: role })@ == (PhaseView::Parsing {
            sources: text@,
            timeout: timeout as int,
            reply: role@,
        }),
        (WorkflowPhase::Testing { sources: text })@ == (PhaseView::Testing { sources: text@ }),
        WorkflowPhase::Analyzing@ == PhaseView::Analyzing,
        WorkflowPhase::Over@ == PhaseView::Over,
{
}

} // verus!
