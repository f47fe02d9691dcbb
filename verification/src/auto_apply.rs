//! Writing the suggested tests into the sources, as a machine that asks for
//! one effect at a time.

use vstd::prelude::*;

use crate::fences::{self, extract_code_block};
use crate::patch::{self, insert_tests};
use crate::paths::{self, PathView, SourcePath};
use crate::report::{ReportView, TestReport};

verus! {

/// An effect that the machine asks for.
#[derive(Debug, PartialEq, Eq)]
pub enum ApplyAction {
    /// List the Rust files of the project.
    ListFiles,
    /// Read the file at `path`.
    ReadFile { path: SourcePath },
    /// Show `notice`, and write `contents` to the file at `path`.
    WriteFile { path: SourcePath, contents: String, notice: String },
    /// Show `notice`, and run the tests.
    RunTests { notice: String },
    /// Show `notice`. Nothing more is to do.
    Stop { notice: String },
    /// Give up with the error that reading or writing ended in.
    Abort,
}

/// What came of an effect.
#[derive(Debug, PartialEq, Eq)]
pub enum ApplyEvent {
    /// The Rust files of the project.
    FilesListed { files: Vec<SourcePath> },
    /// The file was read, or could not be.
    FileRead { contents: Option<String> },
    /// The file was written, or could not be.
    FileWritten { ok: bool },
    /// The tests ran.
    TestsRun { report: TestReport },
}

/// Which effect the machine waits for.
#[derive(Debug, PartialEq, Eq)]
pub enum ApplyPhase {
    Listing,
    Reading,
    Writing,
    Verifying,
    Over,
}

/// Writing tests into the files of a project.
#[derive(Debug, PartialEq, Eq)]
pub struct AutoApply {
    /// The directory that paths are shown relative to.
    pub cwd: SourcePath,
    /// The tests to write.
    pub tests: String,
    /// The files of the project.
    pub files: Vec<SourcePath>,
    /// How many of them have been dealt with.
    pub position: usize,
    /// Into how many the tests have been written.
    pub applied: usize,
    pub phase: ApplyPhase,
}

/// The mathematical form of an [`AutoApply`].
pub struct ApplyState {
    pub cwd: PathView,
    pub tests: Seq<char>,
    pub files: Seq<PathView>,
    pub position: int,
    pub applied: int,
    pub phase: ApplyPhase,
}

/// The mathematical form of an [`ApplyAction`].
pub enum ApplyActionView {
    ListFiles,
    ReadFile { path: PathView },
    WriteFile { path: PathView, contents: Seq<char>, notice: Seq<char> },
    RunTests { notice: Seq<char> },
    Stop { notice: Seq<char> },
    Abort,
}

/// The mathematical form of an [`ApplyEvent`].
pub enum ApplyEventView {
    FilesListed { files: Seq<PathView> },
    FileRead { contents: Option<Seq<char>> },
    FileWritten { ok: bool },
    TestsRun { report: ReportView },
}

impl View for AutoApply {
    type V = ApplyState;

    open spec fn view(&self) -> ApplyState {
        ApplyState {
            cwd: self.cwd@,
            tests: self.tests@,
            files: paths::path_views(self.files@),
            position: self.position as int,
            applied: self.applied as int,
            phase: self.phase,
        }
    }
}

impl View for ApplyAction {
    type V = ApplyActionView;

    open spec fn view(&self) -> ApplyActionView {
        match self {
            ApplyAction::ListFiles => ApplyActionView::ListFiles,
            ApplyAction::ReadFile { path } => ApplyActionView::ReadFile { path: path@ },
            ApplyAction::WriteFile { path, contents, notice } => ApplyActionView::WriteFile {
                path: path@,
                contents: contents@,
                notice: notice@,
            },
            ApplyAction::RunTests { notice } => ApplyActionView::RunTests { notice: notice@ },
            ApplyAction::Stop { notice } => ApplyActionView::Stop { notice: notice@ },
            ApplyAction::Abort => ApplyActionView::Abort,
        }
    }
}

impl View for ApplyEvent {
    type V = ApplyEventView;

    open spec fn view(&self) -> ApplyEventView {
        match self {
            ApplyEvent::FilesListed { files } => ApplyEventView::FilesListed {
                files: paths::path_views(files@),
            },
            ApplyEvent::FileRead { contents } => ApplyEventView::FileRead {
                contents: match contents {
                    Some(c) => Some(c@),
                    None => None,
                },
            },
            ApplyEvent::FileWritten { ok } => ApplyEventView::FileWritten { ok: *ok },
            ApplyEvent::TestsRun { report } => ApplyEventView::TestsRun { report: report@ },
        }
    }
}

/// Whether the counts of a state fit its files and its phase.
pub open spec fn consistent(s: ApplyState) -> bool {
    &&& 0 <= s.applied <= s.position <= s.files.len()
    &&& (s.phase is Reading || s.phase is Writing) ==> s.position < s.files.len()
}

/// Whether a machine in state `s` waits for an event such as `event`.
pub open spec fn awaited(s: ApplyState, event: ApplyEventView) -> bool {
    match s.phase {
        ApplyPhase::Listing => event is FilesListed,
        ApplyPhase::Reading => event is FileRead,
        ApplyPhase::Writing => event is FileWritten,
        ApplyPhase::Verifying => event is TestsRun,
        ApplyPhase::Over => false,
    }
}

/// Where the machine starts on a reply with the given text, and its first
/// effect.
pub open spec fn started(cwd: PathView, analysis: Seq<char>) -> (ApplyState, ApplyActionView) {
    let tests = fences::extracted(analysis);
    let s = ApplyState {
        cwd,
        tests,
        files: Seq::empty(),
        position: 0,
        applied: 0,
        phase: ApplyPhase::Listing,
    };
    if tests.len() == 0 {
        (
            ApplyState { phase: ApplyPhase::Over, ..s },
            ApplyActionView::Stop { notice: "   ⚠️  No code block found in AI response"@ },
        )
    } else {
        (s, ApplyActionView::ListFiles)
    }
}

/// The step to the next file that has not been dealt with, or to what follows
/// the last.
pub open spec fn proceeding(s: ApplyState) -> (ApplyState, ApplyActionView) {
    if s.position < s.files.len() {
        (
            ApplyState { phase: ApplyPhase::Reading, ..s },
            ApplyActionView::ReadFile { path: s.files[s.position] },
        )
    } else if s.applied == 0 {
        (
            ApplyState { phase: ApplyPhase::Over, ..s },
            ApplyActionView::Stop { notice: "   ⚠️  Could not find test module to patch"@ },
        )
    } else {
        (
            ApplyState { phase: ApplyPhase::Verifying, ..s },
            ApplyActionView::RunTests { notice: "   Verifying tests..."@ },
        )
    }
}

/// The step that writes the tests into a file that reads `source`.
pub open spec fn writing(s: ApplyState, source: Seq<char>) -> (ApplyState, ApplyActionView) {
    (
        ApplyState { phase: ApplyPhase::Writing, ..s },
        ApplyActionView::WriteFile {
            path: s.files[s.position],
            contents: patch::with_tests(source, s.tests),
            notice: "   Writing "@ + paths::path_text(
                paths::relative(s.files[s.position], s.cwd),
            ) + "..."@,
        },
    )
}

/// What is said of the tests once the new ones are in place.
pub open spec fn verdict(report: ReportView) -> Seq<char> {
    if report.success {
        "   ✅ All tests pass with improvements!"@
    } else {
        "   ❌ Tests failed after auto-apply. Check output:\n"@ + report.output
    }
}

/// The state that follows `s` on `event`, and the effect asked for.
pub open spec fn next(s: ApplyState, event: ApplyEventView) -> (ApplyState, ApplyActionView) {
    let over = ApplyState { phase: ApplyPhase::Over, ..s };
    match event {
        ApplyEventView::FilesListed { files } => proceeding(
            ApplyState { files, position: 0, applied: 0, ..s },
        ),
        ApplyEventView::FileRead { contents } => match contents {
            Some(source) => if patch::has_test_module(source) {
                writing(s, source)
            } else {
                proceeding(ApplyState { position: s.position + 1, ..s })
            },
            None => (over, ApplyActionView::Abort),
        },
        ApplyEventView::FileWritten { ok } => if ok {
            proceeding(ApplyState { position: s.position + 1, applied: s.applied + 1, ..s })
        } else {
            (over, ApplyActionView::Abort)
        },
        ApplyEventView::TestsRun { report } => (
            over,
            ApplyActionView::Stop { notice: verdict(report) },
        ),
    }
}

impl AutoApply {
    /// Starts on the reply `analysis`.
    pub fn start(cwd: SourcePath, analysis: &str) -> (r: (AutoApply, ApplyAction))
        ensures
            (r.0@, r.1@) == started(cwd@, analysis@),
            consistent(r.0@),
    {
        let tests = extract_code_block(analysis);
        let empty = tests.as_str().is_empty();
        let phase = if empty {
            ApplyPhase::Over
        } else {
            ApplyPhase::Listing
        };
        let action = if empty {
            ApplyAction::Stop { notice: "   ⚠️  No code block found in AI response".to_owned() }
        } else {
            ApplyAction::ListFiles
        };
        let apply = AutoApply { cwd, tests, files: Vec::new(), position: 0, applied: 0, phase };
        assert(apply@.files =~= Seq::empty());
        (apply, action)
    }

    /// Whether the machine waits for an event such as `event`.
    pub fn awaits(&self, event: &ApplyEvent) -> (r: bool)
        ensures
            r == awaited(self@, event@),
    {
        match (&self.phase, event) {
            (ApplyPhase::Listing, ApplyEvent::FilesListed { .. }) => true,
            (ApplyPhase::Reading, ApplyEvent::FileRead { .. }) => true,
            (ApplyPhase::Writing, ApplyEvent::FileWritten { .. }) => true,
            (ApplyPhase::Verifying, ApplyEvent::TestsRun { .. }) => true,
            _ => false,
        }
    }

    /// Takes note of `event`, and says which effect comes next.
    pub fn step(&mut self, event: ApplyEvent) -> (r: ApplyAction)
        requires
            consistent(old(self)@),
            awaited(old(self)@, event@),
        ensures
            (final(self)@, r@) == next(old(self)@, event@),
            consistent(final(self)@),
    {
        match event {
            ApplyEvent::FilesListed { files } => {
                self.files = files;
                self.position = 0;
                self.applied = 0;
                self.proceed()
            },
            ApplyEvent::FileRead { contents: Some(source) } => {
                assert(self@.files[self.position as int] == self.files@[self.position as int]@);
                match insert_tests(source.as_str(), self.tests.as_str()) {
                    Some(contents) => {
                        let path = self.files[self.position].copied();
                        let mut notice = "   Writing ".to_owned();
                        notice.append(path.relative_to(&self.cwd).display().as_str());
                        notice.append("...");
                        self.phase = ApplyPhase::Writing;
                        ApplyAction::WriteFile { path, contents, notice }
                    },
                    None => {
                        assert(self.position < self.files.len());
                        self.position = self.position + 1;
                        self.proceed()
                    },
                }
            },
            ApplyEvent::FileWritten { ok: true } => {
                assert(self.position < self.files.len());
                self.position = self.position + 1;
                self.applied = self.applied + 1;
                self.proceed()
            },
            ApplyEvent::TestsRun { report } => {
                self.phase = ApplyPhase::Over;
                let notice = if report.success {
                    "   ✅ All tests pass with improvements!".to_owned()
                } else {
                    "   ❌ Tests failed after auto-apply. Check output:\n".to_owned().concat(
                        report.output.as_str(),
                    )
                };
                ApplyAction::Stop { notice }
            },
            _ => {
                self.phase = ApplyPhase::Over;
                ApplyAction::Abort
            },
        }
    }

    fn proceed(&mut self) -> (r: ApplyAction)
        requires
            0 <= old(self)@.applied <= old(self)@.position <= old(self)@.files.len(),
        ensures
            (final(self)@, r@) == proceeding(old(self)@),
            consistent(final(self)@),
    {
        if self.position < self.files.len() {
            assert(self@.files[self.position as int] == self.files@[self.position as int]@);
            self.phase = ApplyPhase::Reading;
            ApplyAction::ReadFile { path: self.files[self.position].copied() }
        } else if self.applied == 0 {
            self.phase = ApplyPhase::Over;
            ApplyAction::Stop { notice: "   ⚠️  Could not find test module to patch".to_owned() }
        } else {
            self.phase = ApplyPhase::Verifying;
            ApplyAction::RunTests { notice: "   Verifying tests...".to_owned() }
        }
    }
}

/// The contents of the files of a project, by path.
pub type SourceTree = Map<PathView, Seq<char>>;

/// Whether `action` can turn the files `before` into `after` and be answered
/// with `event`. Reading and writing may fail, and a write that fails may leave
/// anything in the file that it was to write. The tests change no source.
pub open spec fn performed(
    action: ApplyActionView,
    event: ApplyEventView,
    before: SourceTree,
    after: SourceTree,
) -> bool {
    match (action, event) {
        (ApplyActionView::ListFiles, ApplyEventView::FilesListed { .. }) => after == before,
        (ApplyActionView::ReadFile { path }, ApplyEventView::FileRead { contents }) => {
            &&& after == before
            &&& contents matches Some(c) ==> before.contains_pair(path, c)
        },
        (
            ApplyActionView::WriteFile { path, contents, .. },
            ApplyEventView::FileWritten { ok },
        ) => if ok {
            after == before.insert(path, contents)
        } else {
            after.remove(path) == before.remove(path)
        },
        (ApplyActionView::RunTests { .. }, ApplyEventView::TestsRun { .. }) => after == before,
        _ => false,
    }
}

/// Where the machine stands after `events`, and the effect it then asks for.
pub open spec fn after_events(
    cwd: PathView,
    analysis: Seq<char>,
    events: Seq<ApplyEventView>,
) -> (ApplyState, ApplyActionView)
    decreases events.len(),
{
    if events.len() == 0 {
        started(cwd, analysis)
    } else {
        next(after_events(cwd, analysis, events.drop_last()).0, events.last())
    }
}

/// Whether the machine can run through `events`, with the files being
/// `trees[i]` after the first `i` of them. No file is listed twice, see
/// `discovery::no_file_is_listed_twice`.
pub open spec fn possible_run(
    cwd: PathView,
    analysis: Seq<char>,
    events: Seq<ApplyEventView>,
    trees: Seq<SourceTree>,
) -> bool {
    &&& trees.len() == events.len() + 1
    &&& forall|i: int|
        0 <= i < events.len() ==> {
            let (s, action) = after_events(cwd, analysis, events.take(i));
            &&& awaited(s, #[trigger] events[i])
            &&& performed(action, events[i], trees[i], trees[i + 1])
            &&& events[i] matches ApplyEventView::FilesListed { files } ==> files.no_duplicates()
        }
}

/// What a file reads once it has been dealt with.
pub open spec fn treated(contents: Seq<char>, tests: Seq<char>) -> Seq<char> {
    if patch::has_test_module(contents) {
        patch::with_tests(contents, tests)
    } else {
        contents
    }
}

/// Whether `tree` is `first` with the first `n` of `files` dealt with.
pub open spec fn treated_up_to(
    first: SourceTree,
    tree: SourceTree,
    files: Seq<PathView>,
    n: int,
    tests: Seq<char>,
) -> bool {
    &&& tree.dom() == first.dom()
    &&& forall|i: int|
        0 <= i < n ==> first.contains_key(#[trigger] files[i]) && tree[files[i]] == treated(
            first[files[i]],
            tests,
        )
    &&& forall|p: PathView|
        #![trigger tree[p]]
        first.contains_key(p) && (forall|i: int| 0 <= i < n ==> #[trigger] files[i] != p) ==> tree[p]
            == first[p]
}

/// Whether `tree` is `first` with the first `n` of `files` dealt with, but for
/// what the next of them holds.
pub open spec fn treated_but_for_next(
    first: SourceTree,
    tree: SourceTree,
    files: Seq<PathView>,
    n: int,
    tests: Seq<char>,
) -> bool {
    &&& forall|i: int|
        0 <= i < n ==> {
            &&& first.contains_key(#[trigger] files[i])
            &&& tree.contains_key(files[i])
            &&& tree[files[i]] == treated(first[files[i]], tests)
        }
    &&& forall|p: PathView|
        #![trigger tree.contains_key(p)]
        (forall|i: int| 0 <= i <= n ==> #[trigger] files[i] != p) ==> {
            &&& tree.contains_key(p) == first.contains_key(p)
            &&& first.contains_key(p) ==> tree[p] == first[p]
        }
}

/// How many of the first `n` files have a test module.
pub open spec fn modules(first: SourceTree, files: Seq<PathView>, n: int) -> int
    decreases n,
{
    if n <= 0 {
        0
    } else {
        modules(first, files, n - 1) + if patch::has_test_module(first[files[n - 1]]) {
            1int
        } else {
            0int
        }
    }
}

/// What holds between two steps, `first` being the files at the start.
spec fn on_course(
    tests: Seq<char>,
    s: ApplyState,
    action: ApplyActionView,
    first: SourceTree,
    tree: SourceTree,
) -> bool {
    &&& consistent(s)
    &&& s.tests == tests
    &&& s.files.no_duplicates()
    &&& match s.phase {
        ApplyPhase::Listing => {
            &&& tree == first
            &&& action is ListFiles
            &&& s.files.len() == 0
        },
        ApplyPhase::Reading => {
            &&& treated_up_to(first, tree, s.files, s.position, tests)
            &&& s.applied == modules(first, s.files, s.position)
            &&& action == (ApplyActionView::ReadFile { path: s.files[s.position] })
        },
        ApplyPhase::Writing => {
            let path = s.files[s.position];
            &&& treated_up_to(first, tree, s.files, s.position, tests)
            &&& s.applied == modules(first, s.files, s.position)
            &&& first.contains_key(path)
            &&& patch::has_test_module(first[path])
            &&& action is WriteFile
            &&& action->WriteFile_path == path
            &&& action->WriteFile_contents == patch::with_tests(first[path], tests)
        },
        ApplyPhase::Verifying => {
            &&& s.position == s.files.len()
            &&& treated_up_to(first, tree, s.files, s.position, tests)
            &&& s.applied == modules(first, s.files, s.position)
            &&& s.applied > 0
            &&& action is RunTests
        },
        ApplyPhase::Over => {
            &&& action is Stop || action is Abort
            &&& action is Stop ==> {
                &&& s.position == s.files.len()
                &&& treated_up_to(first, tree, s.files, s.position, tests)
                &&& s.applied == modules(first, s.files, s.position)
            }
            &&& action is Abort ==> {
                &&& s.position < s.files.len()
                &&& treated_but_for_next(first, tree, s.files, s.position, tests)
            }
        },
    }
}

proof fn dealing_with_a_file(
    first: SourceTree,
    before: SourceTree,
    after: SourceTree,
    files: Seq<PathView>,
    n: int,
    tests: Seq<char>,
)
    requires
        files.no_duplicates(),
        0 <= n < files.len(),
        treated_up_to(first, before, files, n, tests),
        first.contains_key(files[n]),
        after == before.insert(files[n], treated(first[files[n]], tests)),
    ensures
        treated_up_to(first, after, files, n + 1, tests),
{
    assert(after.dom() =~= first.dom());
    assert forall|i: int| 0 <= i < n + 1 implies first.contains_key(#[trigger] files[i])
        && after[files[i]] == treated(first[files[i]], tests) by {
        if i < n {
            assert(files[i] != files[n]);
        }
    }
    assert forall|p: PathView|
        #![trigger after[p]]
        first.contains_key(p) && (forall|i: int| 0 <= i < n + 1 ==> #[trigger] files[i]
            != p) implies after[p] == first[p] by {
        assert(files[n] != p);
        assert(before[p] == first[p]);
    }
}

proof fn stopping_at_a_file(
    first: SourceTree,
    before: SourceTree,
    after: SourceTree,
    files: Seq<PathView>,
    n: int,
    tests: Seq<char>,
)
    requires
        files.no_duplicates(),
        0 <= n < files.len(),
        treated_up_to(first, before, files, n, tests),
        after.remove(files[n]) == before.remove(files[n]),
    ensures
        treated_but_for_next(first, after, files, n, tests),
{
    let path = files[n];
    assert forall|p: PathView|
        #![trigger after.contains_key(p)]
        p != path implies after.contains_key(p) == before.contains_key(p) && (before.contains_key(p)
        ==> after[p] == before[p]) by {
        assert(after.remove(path).contains_key(p) == after.contains_key(p));
        assert(before.remove(path).contains_key(p) == before.contains_key(p));
        if before.contains_key(p) {
            assert(after.remove(path)[p] == after[p]);
            assert(before.remove(path)[p] == before[p]);
        }
    }
    assert forall|i: int| 0 <= i < n implies {
        &&& first.contains_key(#[trigger] files[i])
        &&& after.contains_key(files[i])
        &&& after[files[i]] == treated(first[files[i]], tests)
    } by {
        assert(files[i] != path);
        assert(before.dom().contains(files[i]));
    }
    assert forall|p: PathView|
        #![trigger after.contains_key(p)]
        (forall|i: int| 0 <= i <= n ==> #[trigger] files[i] != p) implies {
        &&& after.contains_key(p) == first.contains_key(p)
        &&& first.contains_key(p) ==> after[p] == first[p]
    } by {
        assert(files[n] != p);
        assert(after.contains_key(p) == before.contains_key(p));
        assert(before.dom().contains(p) == first.dom().contains(p));
        assert forall|i: int| 0 <= i < n implies #[trigger] files[i] != p by {}
        if first.contains_key(p) {
            assert(before[p] == first[p]);
        }
    }
}

proof fn step_stays_on_course(
    tests: Seq<char>,
    s: ApplyState,
    action: ApplyActionView,
    event: ApplyEventView,
    first: SourceTree,
    before: SourceTree,
    after: SourceTree,
)
    requires
        on_course(tests, s, action, first, before),
        awaited(s, event),
        performed(action, event, before, after),
        event matches ApplyEventView::FilesListed { files } ==> files.no_duplicates(),
    ensures
        on_course(tests, next(s, event).0, next(s, event).1, first, after),
{
    match event {
        ApplyEventView::FilesListed { files } => {
            assert(treated_up_to(first, after, files, 0, tests));
            assert(modules(first, files, 0) == 0);
        },
        ApplyEventView::FileRead { contents: Some(source) } => {
            let path = s.files[s.position];
            assert(before.contains_pair(path, source));
            assert(first.contains_key(path)) by {
                assert(before.dom().contains(path));
            }
            assert forall|i: int| 0 <= i < s.position implies #[trigger] s.files[i] != path by {}
            assert(before[path] == first[path]);
            if !patch::has_test_module(source) {
                assert(before.insert(path, treated(first[path], tests)) =~= before);
                dealing_with_a_file(first, before, after, s.files, s.position, tests);
                assert(modules(first, s.files, s.position + 1) == modules(
                    first,
                    s.files,
                    s.position,
                ));
            }
        },
        ApplyEventView::FileWritten { ok } => {
            if ok {
                dealing_with_a_file(first, before, after, s.files, s.position, tests);
                assert(modules(first, s.files, s.position + 1) == modules(
                    first,
                    s.files,
                    s.position,
                ) + 1);
            } else {
                stopping_at_a_file(first, before, after, s.files, s.position, tests);
            }
        },
        ApplyEventView::FileRead { contents: None } => {
            stopping_at_a_file(first, before, after, s.files, s.position, tests);
        },
        _ => {},
    }
}

proof fn run_stays_on_course(
    cwd: PathView,
    analysis: Seq<char>,
    events: Seq<ApplyEventView>,
    trees: Seq<SourceTree>,
)
    requires
        possible_run(cwd, analysis, events, trees),
    ensures
        on_course(
            fences::extracted(analysis),
            after_events(cwd, analysis, events).0,
            after_events(cwd, analysis, events).1,
            trees[0],
            trees.last(),
        ),
    decreases events.len(),
{
    let tests = fences::extracted(analysis);
    if events.len() == 0 {
        let (s, action) = started(cwd, analysis);
        assert(treated_up_to(trees[0], trees[0], s.files, 0, tests));
        assert(modules(trees[0], s.files, 0) == 0);
    } else {
        let before = events.drop_last();
        let last = events.len() - 1;
        assert(before == events.take(last));
        assert(possible_run(cwd, analysis, before, trees.drop_last())) by {
            assert forall|i: int| 0 <= i < before.len() implies {
                let (s, action) = after_events(cwd, analysis, before.take(i));
                &&& awaited(s, #[trigger] before[i])
                &&& performed(action, before[i], trees.drop_last()[i], trees.drop_last()[i + 1])
                &&& before[i] matches ApplyEventView::FilesListed {
                    files,
                } ==> files.no_duplicates()
            } by {
                assert(before.take(i) == events.take(i));
                assert(before[i] == events[i]);
            }
        }
        run_stays_on_course(cwd, analysis, before, trees.drop_last());
        let (s, action) = after_events(cwd, analysis, before);
        assert(awaited(s, events[last]));
        step_stays_on_course(
            tests,
            s,
            action,
            events[last],
            trees[0],
            trees[last],
            trees[last + 1],
        );
    }
}

/// Unless reading or writing a file fails, the tests end up in the test module
/// of every listed file that has one, and nothing else in the project changes.
/// The files are in this state before the tests are run.
pub proof fn tests_reach_every_module(
    cwd: PathView,
    analysis: Seq<char>,
    events: Seq<ApplyEventView>,
    trees: Seq<SourceTree>,
)
    requires
        possible_run(cwd, analysis, events, trees),
        after_events(cwd, analysis, events).1 is RunTests || after_events(
            cwd,
            analysis,
            events,
        ).1 is Stop,
    ensures
        ({
            let s = after_events(cwd, analysis, events).0;
            treated_up_to(
                trees[0],
                trees.last(),
                s.files,
                s.files.len() as int,
                fences::extracted(analysis),
            )
        }),
{
    run_stays_on_course(cwd, analysis, events, trees);
}

/// Where reading or writing a file fails, the files before it have been dealt
/// with, and everything else in the project is as it was but for that file.
pub proof fn failure_spares_the_rest(
    cwd: PathView,
    analysis: Seq<char>,
    events: Seq<ApplyEventView>,
    trees: Seq<SourceTree>,
)
    requires
        possible_run(cwd, analysis, events, trees),
        after_events(cwd, analysis, events).1 is Abort,
    ensures
        ({
            let s = after_events(cwd, analysis, events).0;
            &&& s.position < s.files.len()
            &&& treated_but_for_next(
                trees[0],
                trees.last(),
                s.files,
                s.position,
                fences::extracted(analysis),
            )
        }),
{
    run_stays_on_course(cwd, analysis, events, trees);
    abort_ends(cwd, analysis, events);
}

proof fn abort_ends(cwd: PathView, analysis: Seq<char>, events: Seq<ApplyEventView>)
    ensures
        after_events(cwd, analysis, events).1 is Abort ==> after_events(
            cwd,
            analysis,
            events,
        ).0.phase is Over,
{
}

/// The tests are run only after they have been written into at least one file;
/// a file counts as written into exactly where it has a test module.
pub proof fn tests_run_only_on_patched_files(
    cwd: PathView,
    analysis: Seq<char>,
    events: Seq<ApplyEventView>,
    trees: Seq<SourceTree>,
)
    requires
        possible_run(cwd, analysis, events, trees),
        after_events(cwd, analysis, events).1 is RunTests,
    ensures
        ({
            let s = after_events(cwd, analysis, events).0;
            &&& s.applied > 0
            &&& s.applied == modules(trees[0], s.files, s.files.len() as int)
            &&& fences::extracted(analysis).len() > 0
        }),
{
    run_stays_on_course(cwd, analysis, events, trees);
    code_is_there(cwd, analysis, events, trees);
}

proof fn code_is_there(
    cwd: PathView,
    analysis: Seq<char>,
    events: Seq<ApplyEventView>,
    trees: Seq<SourceTree>,
)
    requires
        possible_run(cwd, analysis, events, trees),
        events.len() > 0 || after_events(cwd, analysis, events).1 is RunTests,
    ensures
        fences::extracted(analysis).len() > 0,
{
    if events.len() > 0 {
        assert(events.take(0) == Seq::<ApplyEventView>::empty());
        assert(awaited(started(cwd, analysis).0, events[0]));
    }
}

/// A reply without code ends the matter; any code, however short, lets the files
/// be listed.
pub proof fn code_is_needed(cwd: PathView, analysis: Seq<char>)
    ensures
        ({
            let (s, action) = started(cwd, analysis);
            let code = fences::extracted(analysis);
            &&& s.cwd == cwd
            &&& s.tests == code
            &&& code.len() > 0 ==> action == ApplyActionView::ListFiles && s.phase is Listing
            &&& code.len() == 0 ==> s.phase is Over && action == (ApplyActionView::Stop {
                notice: "   ⚠️  No code block found in AI response"@,
            })
        }),
{
}

/// Every listed file is read, from the first to the last, and written exactly
/// where it has a test module; then the tests are run exactly where some file was
/// written, and otherwise it is said that none could be. A failure to read or to
/// write ends the matter at once.
pub proof fn every_file_gets_its_turn(s: ApplyState, event: ApplyEventView)
    requires
        consistent(s),
        awaited(s, event),
    ensures
        ({
            let (t, action) = next(s, event);
            let treated = match event {
                ApplyEventView::FilesListed { .. } => 0,
                ApplyEventView::FileRead { .. } => s.position + 1,
                ApplyEventView::FileWritten { .. } => s.position + 1,
                ApplyEventView::TestsRun { .. } => s.position,
            };
            let written = match event {
                ApplyEventView::FilesListed { .. } => 0,
                ApplyEventView::FileWritten { .. } => s.applied + 1,
                _ => s.applied,
            };
            let goes_on = match event {
                ApplyEventView::FilesListed { .. } => true,
                ApplyEventView::FileRead { contents } => match contents {
                    Some(source) => !patch::has_test_module(source),
                    None => false,
                },
                ApplyEventView::FileWritten { ok } => ok,
                ApplyEventView::TestsRun { .. } => false,
            };
            &&& t.tests == s.tests && t.cwd == s.cwd
            &&& event matches ApplyEventView::FilesListed { files } ==> t.files == files
            &&& !(event is FilesListed) ==> t.files == s.files
            &&& goes_on ==> t.position == treated && t.applied == written
            &&& goes_on && treated < t.files.len() ==> action == (ApplyActionView::ReadFile {
                path: t.files[treated],
            })
            &&& goes_on && treated >= t.files.len() && written > 0 ==> action == (
            ApplyActionView::RunTests { notice: "   Verifying tests..."@ })
            &&& goes_on && treated >= t.files.len() && written == 0 ==> action == (
            ApplyActionView::Stop { notice: "   ⚠️  Could not find test module to patch"@ })
            &&& event matches ApplyEventView::FileRead { contents: Some(source) } ==> (
            patch::has_test_module(source) ==> action == (ApplyActionView::WriteFile {
                path: s.files[s.position],
                contents: patch::with_tests(source, s.tests),
                notice: "   Writing "@ + (paths::path_text(
                    paths::relative(s.files[s.position], s.cwd),
                ) + "..."@),
            }))
            &&& event == (ApplyEventView::FileRead { contents: None }) ==> action is Abort
            &&& event == (ApplyEventView::FileWritten { ok: false }) ==> action is Abort
            &&& event matches ApplyEventView::TestsRun { report } ==> action == (
            ApplyActionView::Stop {
                notice: if report.success {
                    "   ✅ All tests pass with improvements!"@
                } else {
                    "   ❌ Tests failed after auto-apply. Check output:\n"@ + report.output
                },
            })
            &&& action is ReadFile <==> t.phase is Reading
            &&& action is WriteFile <==> t.phase is Writing
            &&& action is RunTests <==> t.phase is Verifying
            &&& action is Stop || action is Abort <==> t.phase is Over
        }),
{
    if s.position < s.files.len() {
        let shown = paths::path_text(paths::relative(s.files[s.position], s.cwd));
        assert("   Writing "@ + shown + "..."@ =~= "   Writing "@ + (shown + "..."@));
    }
}

/// Whatever comes of an effect is awaited, and nothing that answers another.
pub proof fn answers_are_awaited(s: ApplyState, event: ApplyEventView)
    ensures
        s.phase is Listing ==> (awaited(s, event) <==> event is FilesListed),
        s.phase is Reading ==> (awaited(s, event) <==> event is FileRead),
        s.phase is Writing ==> (awaited(s, event) <==> event is FileWritten),
        s.phase is Verifying ==> (awaited(s, event) <==> event is TestsRun),
        s.phase is Over ==> !awaited(s, event),
        consistent(s) <==> {
            &&& 0 <= s.applied <= s.position <= s.files.len()
            &&& s.phase is Reading || s.phase is Writing ==> s.position != s.files.len()
        },
{
}

/// The mathematical forms of the machine, its effects and their results leave
/// nothing out.
pub proof fn machine_is_seen_whole(
    machine: AutoApply,
    path: SourcePath,
    contents: String,
    notice: String,
    files: Vec<SourcePath>,
    report: TestReport,
    ok: bool,
)
    ensures
        machine@.cwd == machine.cwd@,
        machine@.tests == machine.tests@,
        machine@.files == paths::path_views(machine.files@),
        machine@.position == machine.position,
        machine@.applied == machine.applied,
        machine@.phase == machine.phase,
        ApplyAction::ListFiles@ == ApplyActionView::ListFiles,
        (ApplyAction::ReadFile { path })@ == (ApplyActionView::ReadFile { path: path@ }),
        (ApplyAction::WriteFile { path, contents, notice })@ == (ApplyActionView::WriteFile {
            path: path@,
            contents: contents@,
            notice: notice@,
        }),
        (ApplyAction::RunTests { notice })@ == (ApplyActionView::RunTests { notice: notice@ }),
        (ApplyAction::Stop { notice })@ == (ApplyActionView::Stop { notice: notice@ }),
        ApplyAction::Abort@ == ApplyActionView::Abort,
        (ApplyEvent::FilesListed { files })@ == (ApplyEventView::FilesListed {
            files: paths::path_views(files@),
        }),
        (ApplyEvent::FileRead { contents: Some(contents) })@ == (ApplyEventView::FileRead {
            contents: Some(contents@),
        }),
        (ApplyEvent::FileRead { contents: None })@ == (ApplyEventView::FileRead { contents: None }),
        (ApplyEvent::FileWritten { ok })@ == (ApplyEventView::FileWritten { ok }),
        (ApplyEvent::TestsRun { report })@ == (ApplyEventView::TestsRun { report: report@ }),
{
}

} // verus!
