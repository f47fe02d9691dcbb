//! Testing one mutation, as a machine that asks for one effect at a time.
//!
//! The machine never touches a file. Each step takes what came of the effect
//! it asked for last and answers with the next one. It saves a copy of the
//! file before it changes a line, and asks for the copy back before it ends.

use vstd::prelude::*;

use crate::mutation::{MutationOutcome, OutcomeView};
use crate::numerals::{self, push_decimal};
use crate::report::{self, classify, ReportView, TestReport};
use crate::target::{self, find_target_line, replace_line};
use crate::text::{self, as_strs, lines_of, trim};

verus! {

/// An effect that a trial asks for.
#[derive(Debug, PartialEq, Eq)]
pub enum TrialAction {
    /// Read the file at `path`.
    ReadFile { path: String },
    /// Write `contents` to the file at `path`.
    WriteFile { path: String, contents: String },
    /// Copy the file at `from` over the file at `to`.
    CopyFile { from: String, to: String },
    /// Remove the file at `path`.
    RemoveFile { path: String },
    /// Run the tests.
    RunTests,
    /// Nothing more: the trial ended in `outcome`.
    Finish { outcome: MutationOutcome },
}

/// What came of an effect.
#[derive(Debug, PartialEq, Eq)]
pub enum TrialEvent {
    /// The file was read, or could not be.
    FileRead { contents: Option<String> },
    /// The file was written, or could not be.
    FileWritten { ok: bool },
    /// The copy was made, as far as it could be.
    FileCopied,
    /// The file was removed, as far as it could be.
    FileRemoved,
    /// The tests ran.
    TestsRun { report: TestReport },
}

/// Where a trial stands: which effect it waits for.
#[derive(Debug, PartialEq, Eq)]
pub enum TrialPhase {
    /// The file is being read.
    Reading,
    /// Its contents are being saved.
    Saving { original: String },
    /// The changed contents are being written.
    Mutating,
    /// The tests are running.
    Testing,
    /// The saved contents are being copied back.
    Restoring { outcome: MutationOutcome },
    /// The saved contents are being removed.
    Cleaning { outcome: MutationOutcome },
    /// The trial is over.
    Done,
}

/// The trial of one mutation.
#[derive(Debug, PartialEq, Eq)]
pub struct Trial {
    pub file_path: String,
    pub line_number: usize,
    pub original_line: String,
    pub mutated_line: String,
    pub phase: TrialPhase,
}

/// What a trial is about.
pub struct Job {
    pub file: Seq<char>,
    pub line_number: int,
    pub original_line: Seq<char>,
    pub mutated_line: Seq<char>,
}

/// The mathematical form of a [`TrialPhase`].
pub enum PhaseView {
    Reading,
    Saving { original: Seq<char> },
    Mutating,
    Testing,
    Restoring { outcome: OutcomeView },
    Cleaning { outcome: OutcomeView },
    Done,
}

/// The mathematical form of a [`TrialAction`].
pub enum ActionView {
    ReadFile { path: Seq<char> },
    WriteFile { path: Seq<char>, contents: Seq<char> },
    CopyFile { from: Seq<char>, to: Seq<char> },
    RemoveFile { path: Seq<char> },
    RunTests,
    Finish { outcome: OutcomeView },
}

/// The mathematical form of a [`TrialEvent`].
pub enum EventView {
    FileRead { contents: Option<Seq<char>> },
    FileWritten { ok: bool },
    FileCopied,
    FileRemoved,
    TestsRun { report: ReportView },
}

impl View for TrialPhase {
    type V = PhaseView;

    open spec fn view(&self) -> PhaseView {
        match self {
            TrialPhase::Reading => PhaseView::Reading,
            TrialPhase::Saving { original } => PhaseView::Saving { original: original@ },
            TrialPhase::Mutating => PhaseView::Mutating,
            TrialPhase::Testing => PhaseView::Testing,
            TrialPhase::Restoring { outcome } => PhaseView::Restoring { outcome: outcome@ },
            TrialPhase::Cleaning { outcome } => PhaseView::Cleaning { outcome: outcome@ },
            TrialPhase::Done => PhaseView::Done,
        }
    }
}

impl View for TrialAction {
    type V = ActionView;

    open spec fn view(&self) -> ActionView {
        match self {
            TrialAction::ReadFile { path } => ActionView::ReadFile { path: path@ },
            TrialAction::WriteFile { path, contents } => ActionView::WriteFile {
                path: path@,
                contents: contents@,
            },
            TrialAction::CopyFile { from, to } => ActionView::CopyFile { from: from@, to: to@ },
            TrialAction::RemoveFile { path } => ActionView::RemoveFile { path: path@ },
            TrialAction::RunTests => ActionView::RunTests,
            TrialAction::Finish { outcome } => ActionView::Finish { outcome: outcome@ },
        }
    }
}

impl View for TrialEvent {
    type V = EventView;

    open spec fn view(&self) -> EventView {
        match self {
            TrialEvent::FileRead { contents } => EventView::FileRead {
                contents: match contents {
                    Some(c) => Some(c@),
                    None => None,
                },
            },
            TrialEvent::FileWritten { ok } => EventView::FileWritten { ok: *ok },
            TrialEvent::FileCopied => EventView::FileCopied,
            TrialEvent::FileRemoved => EventView::FileRemoved,
            TrialEvent::TestsRun { report } => EventView::TestsRun { report: report@ },
        }
    }
}

/// The path at which the contents of `file` are saved.
pub open spec fn backup_of(file: Seq<char>) -> Seq<char> {
    file + ".morris-backup"@
}

/// The path at which the contents of `file_path` are saved.
pub fn backup_path(file_path: &str) -> (r: String)
    ensures
        r@ == backup_of(file_path@),
{
    file_path.to_owned().concat(".morris-backup")
}

/// What line `number` of `lines` reads, where there is such a line.
pub open spec fn found_line(lines: Seq<Seq<char>>, number: int) -> Seq<char> {
    if 0 < number <= lines.len() {
        lines[number - 1]
    } else {
        "<out of range>"@
    }
}

/// Why the line that `job` names cannot be changed in `lines`.
pub open spec fn mismatch_text(job: Job, lines: Seq<Seq<char>>) -> Seq<char> {
    "line "@ + numerals::decimal(job.line_number as nat) + ": expected '"@ + text::trimmed(
        job.original_line,
    ) + "', found '"@ + text::trimmed(found_line(lines, job.line_number)) + "'"@
}

/// Whether a trial in `phase` waits for an event such as `event`.
pub open spec fn awaited(phase: PhaseView, event: EventView) -> bool {
    match phase {
        PhaseView::Reading => event is FileRead,
        PhaseView::Saving { .. } => event is FileWritten,
        PhaseView::Mutating => event is FileWritten,
        PhaseView::Testing => event is TestsRun,
        PhaseView::Restoring { .. } => event is FileCopied,
        PhaseView::Cleaning { .. } => event is FileRemoved,
        PhaseView::Done => false,
    }
}

/// The step from saved contents to changed contents, or out of the trial where
/// the line is not found.
pub open spec fn after_saving(job: Job, original: Seq<char>) -> (PhaseView, ActionView) {
    let lines = text::lines(original);
    match target::target_line(lines, job.line_number, job.original_line) {
        Some(number) => (
            PhaseView::Mutating,
            ActionView::WriteFile {
                path: job.file,
                contents: target::with_line(lines, number, job.mutated_line),
            },
        ),
        None => (
            PhaseView::Cleaning { outcome: OutcomeView::LineMismatch(mismatch_text(job, lines)) },
            ActionView::RemoveFile { path: backup_of(job.file) },
        ),
    }
}

/// The end of a trial on which nothing was changed.
pub open spec fn given_up(reason: Seq<char>) -> (PhaseView, ActionView) {
    (PhaseView::Done, ActionView::Finish { outcome: OutcomeView::BuildError(reason) })
}

/// The step to copying the saved contents back.
pub open spec fn restoring(job: Job, outcome: OutcomeView) -> (PhaseView, ActionView) {
    (
        PhaseView::Restoring { outcome },
        ActionView::CopyFile { from: backup_of(job.file), to: job.file },
    )
}

/// The phase that follows `phase` on `event`, and the effect asked for.
pub open spec fn next(job: Job, phase: PhaseView, event: EventView) -> (PhaseView, ActionView) {
    match (phase, event) {
        (PhaseView::Reading, EventView::FileRead { contents: None }) => given_up(
            "Cannot read file"@,
        ),
        (PhaseView::Reading, EventView::FileRead { contents: Some(original) }) => (
            PhaseView::Saving { original },
            ActionView::WriteFile { path: backup_of(job.file), contents: original },
        ),
        (PhaseView::Saving { original }, EventView::FileWritten { ok }) => if ok {
            after_saving(job, original)
        } else {
            given_up("Cannot create backup"@)
        },
        (PhaseView::Mutating, EventView::FileWritten { ok }) => if ok {
            (PhaseView::Testing, ActionView::RunTests)
        } else {
            restoring(job, OutcomeView::BuildError("Cannot write mutation"@))
        },
        (PhaseView::Testing, EventView::TestsRun { report }) => restoring(
            job,
            report::outcome_of(report),
        ),
        (PhaseView::Restoring { outcome }, EventView::FileCopied) => (
            PhaseView::Cleaning { outcome },
            ActionView::RemoveFile { path: backup_of(job.file) },
        ),
        (PhaseView::Cleaning { outcome }, EventView::FileRemoved) => (
            PhaseView::Done,
            ActionView::Finish { outcome },
        ),
        _ => (phase, ActionView::RunTests),
    }
}

/// The first effect that a trial asks for.
pub open spec fn first_action(job: Job) -> ActionView {
    ActionView::ReadFile { path: job.file }
}

impl Trial {
    /// What the trial is about.
    pub open spec fn job(&self) -> Job {
        Job {
            file: self.file_path@,
            line_number: self.line_number as int,
            original_line: self.original_line@,
            mutated_line: self.mutated_line@,
        }
    }

    /// The trial of changing line `line_number` of the file at `file_path`
    /// from `original_line` to `mutated_line`, and its first effect.
    pub fn start(
        file_path: &str,
        line_number: usize,
        original_line: &str,
        mutated_line: &str,
    ) -> (r: (Trial, TrialAction))
        ensures
            r.0.job() == (Job {
                file: file_path@,
                line_number: line_number as int,
                original_line: original_line@,
                mutated_line: mutated_line@,
            }),
            r.0.phase@ == PhaseView::Reading,
            r.1@ == first_action(r.0.job()),
    {
        let trial = Trial {
            file_path: file_path.to_owned(),
            line_number,
            original_line: original_line.to_owned(),
            mutated_line: mutated_line.to_owned(),
            phase: TrialPhase::Reading,
        };
        (trial, TrialAction::ReadFile { path: file_path.to_owned() })
    }

    /// Whether the trial waits for an event such as `event`.
    pub fn awaits(&self, event: &TrialEvent) -> (r: bool)
        ensures
            r == awaited(self.phase@, event@),
    {
        match (&self.phase, event) {
            (TrialPhase::Reading, TrialEvent::FileRead { .. }) => true,
            (TrialPhase::Saving { .. }, TrialEvent::FileWritten { .. }) => true,
            (TrialPhase::Mutating, TrialEvent::FileWritten { .. }) => true,
            (TrialPhase::Testing, TrialEvent::TestsRun { .. }) => true,
            (TrialPhase::Restoring { .. }, TrialEvent::FileCopied) => true,
            (TrialPhase::Cleaning { .. }, TrialEvent::FileRemoved) => true,
            _ => false,
        }
    }

    /// The trial after `event`, and the effect it asks for.
    pub fn step(self, event: TrialEvent) -> (r: (Trial, TrialAction))
        requires
            awaited(self.phase@, event@),
        ensures
            r.0.job() == self.job(),
            (r.0.phase@, r.1@) == next(self.job(), self.phase@, event@),
    {
        let Trial { file_path, line_number, original_line, mutated_line, phase } = self;
        let (phase, action) = match (phase, event) {
            (TrialPhase::Reading, TrialEvent::FileRead { contents: Some(original) }) => {
                let action = TrialAction::WriteFile {
                    path: backup_path(file_path.as_str()),
                    contents: original.clone(),
                };
                (TrialPhase::Saving { original }, action)
            },
            (TrialPhase::Saving { original }, TrialEvent::FileWritten { ok: true }) => {
                Self::mutate(
                    file_path.as_str(),
                    line_number,
                    original_line.as_str(),
                    mutated_line.as_str(),
                    original.as_str(),
                )
            },
            (TrialPhase::Saving { .. }, _) => Self::give_up("Cannot create backup"),
            (TrialPhase::Mutating, TrialEvent::FileWritten { ok: true }) => (
                TrialPhase::Testing,
                TrialAction::RunTests,
            ),
            (TrialPhase::Mutating, _) => Self::restore(
                file_path.as_str(),
                MutationOutcome::BuildError("Cannot write mutation".to_owned()),
            ),
            (TrialPhase::Testing, TrialEvent::TestsRun { report }) => Self::restore(
                file_path.as_str(),
                classify(&report),
            ),
            (TrialPhase::Restoring { outcome }, _) => (
                TrialPhase::Cleaning { outcome },
                TrialAction::RemoveFile { path: backup_path(file_path.as_str()) },
            ),
            (TrialPhase::Cleaning { outcome }, _) => (
                TrialPhase::Done,
                TrialAction::Finish { outcome },
            ),
            _ => Self::give_up("Cannot read file"),
        };
        (Trial { file_path, line_number, original_line, mutated_line, phase }, action)
    }

    fn give_up(reason: &str) -> (r: (TrialPhase, TrialAction))
        ensures
            (r.0@, r.1@) == given_up(reason@),
    {
        let outcome = MutationOutcome::BuildError(reason.to_owned());
        (TrialPhase::Done, TrialAction::Finish { outcome })
    }

    fn restore(file_path: &str, outcome: MutationOutcome) -> (r: (TrialPhase, TrialAction))
        ensures
            r.0@ == (PhaseView::Restoring { outcome: outcome@ }),
            r.1@ == (ActionView::CopyFile { from: backup_of(file_path@), to: file_path@ }),
    {
        let action = TrialAction::CopyFile {
            from: backup_path(file_path),
            to: file_path.to_owned(),
        };
        (TrialPhase::Restoring { outcome }, action)
    }

    fn mutate(
        file_path: &str,
        line_number: usize,
        original_line: &str,
        mutated_line: &str,
        original: &str,
    ) -> (r: (TrialPhase, TrialAction))
        ensures
            (r.0@, r.1@) == after_saving(
                Job {
                    file: file_path@,
                    line_number: line_number as int,
                    original_line: original_line@,
                    mutated_line: mutated_line@,
                },
                original@,
            ),
    {
        let owned = lines_of(original);
        let lines = as_strs(owned.as_slice());
        match find_target_line(lines.as_slice(), line_number, original_line) {
            Some(number) => {
                proof {
                    target::target_line_reads_so(
                        text::str_views(lines@),
                        line_number as int,
                        original_line@,
                    );
                }
                let contents = replace_line(lines.as_slice(), number, mutated_line);
                (
                    TrialPhase::Mutating,
                    TrialAction::WriteFile { path: file_path.to_owned(), contents },
                )
            },
            None => {
                let found = if 0 < line_number && line_number <= lines.len() {
                    lines[line_number - 1]
                } else {
                    "<out of range>"
                };
                let mut reason = "line ".to_owned();
                push_decimal(&mut reason, line_number);
                reason.append(": expected '");
                reason.append(trim(original_line));
                reason.append("', found '");
                reason.append(trim(found));
                reason.append("'");
                (
                    TrialPhase::Cleaning { outcome: MutationOutcome::LineMismatch(reason) },
                    TrialAction::RemoveFile { path: backup_path(file_path) },
                )
            },
        }
    }
}

/// The contents of the files on a disk, by path.
pub type Disk = Map<Seq<char>, Seq<char>>;

/// Whether two disks agree on the file at `path`.
pub open spec fn same_file(a: Disk, b: Disk, path: Seq<char>) -> bool {
    &&& a.contains_key(path) == b.contains_key(path)
    &&& a.contains_key(path) ==> a[path] == b[path]
}

/// Whether `action` can turn the disk `before` into `after` and be answered
/// with `event`. Reading and writing may fail, and a write that fails may leave
/// anything in the file that it was to write. Copying and removing succeed. The
/// tests may change any file but those in `kept`.
pub open spec fn performed(
    kept: Set<Seq<char>>,
    action: ActionView,
    event: EventView,
    before: Disk,
    after: Disk,
) -> bool {
    match (action, event) {
        (ActionView::ReadFile { path }, EventView::FileRead { contents }) => {
            &&& after == before
            &&& contents matches Some(c) ==> before.contains_pair(path, c)
        },
        (ActionView::WriteFile { path, contents }, EventView::FileWritten { ok }) => if ok {
            after == before.insert(path, contents)
        } else {
            after.remove(path) == before.remove(path)
        },
        (ActionView::CopyFile { from, to }, EventView::FileCopied) => after == before.insert(
            to,
            before[from],
        ),
        (ActionView::RemoveFile { path }, EventView::FileRemoved) => after == before.remove(path),
        (ActionView::RunTests, EventView::TestsRun { .. }) => forall|p: Seq<char>|
            kept.contains(p) ==> #[trigger] same_file(before, after, p),
        _ => false,
    }
}

/// Where a trial stands after `events`, and the effect it then asks for.
pub open spec fn after_events(job: Job, events: Seq<EventView>) -> (PhaseView, ActionView)
    decreases events.len(),
{
    if events.len() == 0 {
        (PhaseView::Reading, first_action(job))
    } else {
        next(job, after_events(job, events.drop_last()).0, events.last())
    }
}

/// Whether a trial can run through `events`, with the disk being `disks[i]`
/// after the first `i` of them. The tests change no file in `kept`, which the
/// saved copy of the file on trial belongs to.
pub open spec fn possible_run(
    kept: Set<Seq<char>>,
    job: Job,
    events: Seq<EventView>,
    disks: Seq<Disk>,
) -> bool {
    &&& kept.contains(backup_of(job.file))
    &&& disks.len() == events.len() + 1
    &&& forall|i: int|
        0 <= i < events.len() ==> {
            let (phase, action) = after_events(job, events.take(i));
            &&& awaited(phase, #[trigger] events[i])
            &&& performed(kept, action, events[i], disks[i], disks[i + 1])
        }
}

/// Whether a trial of `job` has left the other files in `kept` alone.
spec fn others_untouched(kept: Set<Seq<char>>, job: Job, first: Disk, disk: Disk) -> bool {
    forall|p: Seq<char>|
        kept.contains(p) && p != job.file && p != backup_of(job.file) ==> #[trigger] same_file(
            first,
            disk,
            p,
        )
}

/// What holds of the disk between two steps, `first` being the disk at the
/// start.
spec fn restorable(
    job: Job,
    steps: nat,
    phase: PhaseView,
    action: ActionView,
    first: Disk,
    disk: Disk,
) -> bool {
    let saved = disk.contains_pair(backup_of(job.file), first[job.file]) && first.contains_key(
        job.file,
    );
    match phase {
        PhaseView::Reading => disk == first && action == first_action(job) && steps == 0,
        PhaseView::Saving { original } => {
            &&& disk == first
            &&& first.contains_pair(job.file, original)
            &&& action == (ActionView::WriteFile {
                path: backup_of(job.file),
                contents: original,
            })
            &&& steps == 1
        },
        PhaseView::Mutating => {
            &&& saved
            &&& (phase, action) == after_saving(job, first[job.file])
            &&& same_file(first, disk, job.file)
            &&& steps == 2
        },
        PhaseView::Testing => {
            &&& saved
            &&& action == ActionView::RunTests
            &&& after_saving(job, first[job.file]).0 is Mutating
            &&& disk.contains_key(job.file)
            &&& after_saving(job, first[job.file]).1 == (ActionView::WriteFile {
                path: job.file,
                contents: disk[job.file],
            })
            &&& steps == 3
        },
        PhaseView::Restoring { .. } => {
            &&& saved
            &&& action == (ActionView::CopyFile { from: backup_of(job.file), to: job.file })
            &&& 3 <= steps <= 4
        },
        PhaseView::Cleaning { .. } => {
            &&& same_file(first, disk, job.file)
            &&& action == (ActionView::RemoveFile { path: backup_of(job.file) })
            &&& 2 <= steps <= 5
        },
        PhaseView::Done => {
            &&& same_file(first, disk, job.file)
            &&& action is Finish
            &&& steps <= 6
            &&& steps > 2 ==> !disk.contains_key(backup_of(job.file))
        },
    }
}

proof fn backup_differs(file: Seq<char>)
    ensures
        backup_of(file) != file,
{
    reveal_strlit(".morris-backup");
    assert(backup_of(file).len() > file.len());
}

proof fn failed_write_spares_others(before: Disk, after: Disk, path: Seq<char>, p: Seq<char>)
    requires
        after.remove(path) == before.remove(path),
        p != path,
    ensures
        same_file(before, after, p),
{
    assert(before.remove(path).contains_key(p) == before.contains_key(p));
    assert(after.remove(path).contains_key(p) == after.contains_key(p));
    if before.contains_key(p) {
        assert(before.remove(path)[p] == before[p]);
        assert(after.remove(path)[p] == after[p]);
    }
}

proof fn step_keeps_restorable(
    kept: Set<Seq<char>>,
    job: Job,
    steps: nat,
    phase: PhaseView,
    action: ActionView,
    event: EventView,
    first: Disk,
    before: Disk,
    after: Disk,
)
    requires
        kept.contains(backup_of(job.file)),
        restorable(job, steps, phase, action, first, before),
        awaited(phase, event),
        performed(kept, action, event, before, after),
    ensures
        restorable(
            job,
            steps + 1,
            next(job, phase, event).0,
            next(job, phase, event).1,
            first,
            after,
        ),
{
    backup_differs(job.file);
    let backup = backup_of(job.file);
    if let ActionView::WriteFile { path, .. } = action {
        if event == (EventView::FileWritten { ok: false }) {
            if path == backup {
                failed_write_spares_others(before, after, path, job.file);
            }
            if path == job.file {
                failed_write_spares_others(before, after, path, backup);
            }
        }
    }
    if action is RunTests {
        assert(same_file(before, after, backup));
    }
}

proof fn step_spares_others(
    kept: Set<Seq<char>>,
    job: Job,
    steps: nat,
    phase: PhaseView,
    action: ActionView,
    event: EventView,
    first: Disk,
    before: Disk,
    after: Disk,
)
    requires
        restorable(job, steps, phase, action, first, before),
        others_untouched(kept, job, first, before),
        awaited(phase, event),
        performed(kept, action, event, before, after),
    ensures
        others_untouched(kept, job, first, after),
{
    assert forall|p: Seq<char>|
        kept.contains(p) && p != job.file && p != backup_of(job.file) implies #[trigger] same_file(
        first,
        after,
        p,
    ) by {
        assert(same_file(first, before, p));
        if let ActionView::WriteFile { path, .. } = action {
            if event == (EventView::FileWritten { ok: false }) {
                failed_write_spares_others(before, after, path, p);
            }
        }
        if action is RunTests {
            assert(same_file(before, after, p));
        }
    }
}

proof fn run_keeps_restorable(
    kept: Set<Seq<char>>,
    job: Job,
    events: Seq<EventView>,
    disks: Seq<Disk>,
)
    requires
        possible_run(kept, job, events, disks),
    ensures
        restorable(
            job,
            events.len(),
            after_events(job, events).0,
            after_events(job, events).1,
            disks[0],
            disks.last(),
        ),
        others_untouched(kept, job, disks[0], disks.last()),
    decreases events.len(),
{
    if events.len() > 0 {
        let before = events.drop_last();
        let last = events.len() - 1;
        assert(before == events.take(last));
        assert(possible_run(kept, job, before, disks.drop_last())) by {
            assert forall|i: int| 0 <= i < before.len() implies {
                let (phase, action) = after_events(job, before.take(i));
                &&& awaited(phase, #[trigger] before[i])
                &&& performed(
                    kept,
                    action,
                    before[i],
                    disks.drop_last()[i],
                    disks.drop_last()[i + 1],
                )
            } by {
                assert(before.take(i) == events.take(i));
                assert(before[i] == events[i]);
            }
        }
        run_keeps_restorable(kept, job, before, disks.drop_last());
        let (phase, action) = after_events(job, before);
        assert(awaited(phase, events[last]));
        step_keeps_restorable(
            kept,
            job,
            before.len(),
            phase,
            action,
            events[last],
            disks[0],
            disks[last],
            disks[last + 1],
        );
        step_spares_others(
            kept,
            job,
            before.len(),
            phase,
            action,
            events[last],
            disks[0],
            disks[last],
            disks[last + 1],
        );
    }
}

/// A trial that is over leaves the file as it found it, whatever the tests
/// said or did to it and whichever read or write failed, and it touches no
/// other file but the saved copy. The copy is gone too, unless it could not be
/// written or the file not be read.
pub proof fn trial_restores_file(
    kept: Set<Seq<char>>,
    job: Job,
    events: Seq<EventView>,
    disks: Seq<Disk>,
)
    requires
        possible_run(kept, job, events, disks),
        after_events(job, events).0 is Done,
    ensures
        same_file(disks[0], disks.last(), job.file),
        forall|p: Seq<char>|
            kept.contains(p) && p != backup_of(job.file) ==> #[trigger] same_file(
                disks[0],
                disks.last(),
                p,
            ),
        events.len() > 2 ==> !disks.last().contains_key(backup_of(job.file)),
{
    run_keeps_restorable(kept, job, events, disks);
}

/// The tests of a trial run on a file in which only the line that the mutation
/// names has been replaced.
pub proof fn tests_run_on_mutated_file(
    kept: Set<Seq<char>>,
    job: Job,
    events: Seq<EventView>,
    disks: Seq<Disk>,
)
    requires
        possible_run(kept, job, events, disks),
        after_events(job, events).1 is RunTests,
    ensures
        disks[0].contains_key(job.file),
        disks.last().contains_key(job.file),
        ({
            let lines = text::lines(disks[0][job.file]);
            match target::target_line(lines, job.line_number, job.original_line) {
                Some(number) => disks.last()[job.file] == target::with_line(
                    lines,
                    number,
                    job.mutated_line,
                ),
                None => false,
            }
        }),
{
    run_keeps_restorable(kept, job, events, disks);
}

/// A trial is over after at most six effects, and asks for another as long as
/// it is not.
pub proof fn trial_ends(
    kept: Set<Seq<char>>,
    job: Job,
    events: Seq<EventView>,
    disks: Seq<Disk>,
)
    requires
        possible_run(kept, job, events, disks),
    ensures
        events.len() <= 6,
        after_events(job, events).0 is Done <==> after_events(job, events).1 is Finish,
{
    run_keeps_restorable(kept, job, events, disks);
}

/// A trial from beginning to end, with the disks it went through.
pub struct TrialRecord {
    pub job: Job,
    pub events: Seq<EventView>,
    pub disks: Seq<Disk>,
}

/// Whether the trials in `records` took place one after the other, each to its
/// end.
pub open spec fn consecutive(kept: Set<Seq<char>>, records: Seq<TrialRecord>) -> bool {
    &&& forall|i: int|
        0 <= i < records.len() ==> {
            &&& possible_run(
                kept,
                (#[trigger] records[i]).job,
                records[i].events,
                records[i].disks,
            )
            &&& after_events(records[i].job, records[i].events).0 is Done
        }
    &&& forall|i: int|
        0 < i < records.len() ==> (#[trigger] records[i]).disks[0] == records[i - 1].disks.last()
}

/// However many mutations are tested one after the other, every file is in the
/// end as it was at the beginning, unless it is the saved copy of another.
pub proof fn trials_restore_all_files(
    kept: Set<Seq<char>>,
    records: Seq<TrialRecord>,
    path: Seq<char>,
)
    requires
        consecutive(kept, records),
        records.len() > 0,
        kept.contains(path),
        forall|i: int|
            0 <= i < records.len() ==> backup_of((#[trigger] records[i]).job.file) != path,
    ensures
        same_file(records[0].disks[0], records.last().disks.last(), path),
    decreases records.len(),
{
    let last = records.last();
    assert(records[records.len() - 1] == last);
    trial_restores_file(kept, last.job, last.events, last.disks);
    assert(same_file(last.disks[0], last.disks.last(), path));
    if records.len() > 1 {
        let front = records.drop_last();
        assert forall|i: int| 0 <= i < front.len() implies {
            &&& possible_run(kept, (#[trigger] front[i]).job, front[i].events, front[i].disks)
            &&& after_events(front[i].job, front[i].events).0 is Done
        } by {
            assert(front[i] == records[i]);
        }
        assert forall|i: int| 0 < i < front.len() implies (#[trigger] front[i]).disks[0]
            == front[i - 1].disks.last() by {
            assert(front[i] == records[i]);
            assert(front[i - 1] == records[i - 1]);
        }
        assert forall|i: int| 0 <= i < front.len() implies backup_of((#[trigger] front[i]).job.file)
            != path by {
            assert(front[i] == records[i]);
        }
        trials_restore_all_files(kept, front, path);
        assert(front.last() == records[records.len() - 2]);
    }
}

/// Surroundings in which the same effect on the same disk always has the same
/// result. The tests change no file.
pub struct World {
    /// What the tests report on a disk.
    pub report: spec_fn(Disk) -> ReportView,
    /// Whether the file at a path can be read, where there is one.
    pub readable: spec_fn(Seq<char>) -> bool,
    /// Whether the file at a path can be written.
    pub writable: spec_fn(Seq<char>) -> bool,
    /// What a failed write leaves at a path, if anything.
    pub remains: spec_fn(Seq<char>) -> Option<Seq<char>>,
}

/// What comes of `action` on `disk`, and the disk after it.
pub open spec fn answered(world: World, action: ActionView, disk: Disk) -> (EventView, Disk) {
    match action {
        ActionView::ReadFile { path } => (
            EventView::FileRead {
                contents: if (world.readable)(path) && disk.contains_key(path) {
                    Some(disk[path])
                } else {
                    None
                },
            },
            disk,
        ),
        ActionView::WriteFile { path, contents } => if (world.writable)(path) {
            (EventView::FileWritten { ok: true }, disk.insert(path, contents))
        } else {
            (
                EventView::FileWritten { ok: false },
                match (world.remains)(path) {
                    Some(rest) => disk.insert(path, rest),
                    None => disk.remove(path),
                },
            )
        },
        ActionView::CopyFile { from, to } => (EventView::FileCopied, disk.insert(to, disk[from])),
        ActionView::RemoveFile { path } => (EventView::FileRemoved, disk.remove(path)),
        ActionView::RunTests => (EventView::TestsRun { report: (world.report)(disk) }, disk),
        ActionView::Finish { .. } => (EventView::FileRemoved, disk),
    }
}

/// A trial at some point, and the disk.
pub struct Scene {
    pub phase: PhaseView,
    pub action: ActionView,
    pub disk: Disk,
}

/// Where a trial that starts on `disk` stands after `n` effects, or where it
/// ended before.
pub open spec fn after_effects(world: World, job: Job, disk: Disk, n: nat) -> Scene
    decreases n,
{
    if n == 0 {
        Scene { phase: PhaseView::Reading, action: first_action(job), disk }
    } else {
        let before = after_effects(world, job, disk, (n - 1) as nat);
        if before.action is Finish {
            before
        } else {
            let (event, after) = answered(world, before.action, before.disk);
            let (phase, action) = next(job, before.phase, event);
            Scene { phase, action, disk: after }
        }
    }
}

/// The end of a trial that starts on `disk`.
pub open spec fn ended(world: World, job: Job, disk: Disk) -> Scene {
    after_effects(world, job, disk, 6)
}

/// What a trial that starts on `disk` ends in.
pub open spec fn outcome_on(world: World, job: Job, disk: Disk) -> OutcomeView {
    ended(world, job, disk).action->outcome
}

/// What happens in the first `n` effects of a trial that starts on `disk`.
pub open spec fn events_of(world: World, job: Job, disk: Disk, n: nat) -> Seq<EventView>
    decreases n,
{
    if n == 0 {
        Seq::empty()
    } else {
        let before = after_effects(world, job, disk, (n - 1) as nat);
        let events = events_of(world, job, disk, (n - 1) as nat);
        if before.action is Finish {
            events
        } else {
            events.push(answered(world, before.action, before.disk).0)
        }
    }
}

/// The disks that a trial that starts on `disk` goes through in its first `n`
/// effects.
pub open spec fn disks_of(world: World, job: Job, disk: Disk, n: nat) -> Seq<Disk>
    decreases n,
{
    if n == 0 {
        seq![disk]
    } else {
        let before = after_effects(world, job, disk, (n - 1) as nat);
        let disks = disks_of(world, job, disk, (n - 1) as nat);
        if before.action is Finish {
            disks
        } else {
            disks.push(answered(world, before.action, before.disk).1)
        }
    }
}

/// The course that a trial takes in such surroundings is one of those that it
/// can take in any.
pub proof fn course_is_possible(kept: Set<Seq<char>>, world: World, job: Job, disk: Disk, n: nat)
    requires
        kept.contains(backup_of(job.file)),
    ensures
        ({
            let events = events_of(world, job, disk, n);
            let disks = disks_of(world, job, disk, n);
            let scene = after_effects(world, job, disk, n);
            &&& possible_run(kept, job, events, disks)
            &&& after_events(job, events) == (scene.phase, scene.action)
            &&& disks[0] == disk
            &&& disks.last() == scene.disk
        }),
    decreases n,
{
    if n > 0 {
        let front = (n - 1) as nat;
        course_is_possible(kept, world, job, disk, front);
        let es = events_of(world, job, disk, front);
        let ds = disks_of(world, job, disk, front);
        let before = after_effects(world, job, disk, front);
        if !(before.action is Finish) {
            run_keeps_restorable(kept, job, es, ds);
            let (event, after) = answered(world, before.action, before.disk);
            let events = es.push(event);
            let disks = ds.push(after);
            assert(awaited(before.phase, event));
            assert(performed(kept, before.action, event, before.disk, after)) by {
                if let ActionView::WriteFile { path, .. } = before.action {
                    if !(world.writable)(path) {
                        assert(after.remove(path) =~= before.disk.remove(path));
                    }
                }
            }
            assert(events.drop_last() == es);
            assert forall|i: int| 0 <= i < events.len() implies {
                let (phase, action) = after_events(job, events.take(i));
                &&& awaited(phase, #[trigger] events[i])
                &&& performed(kept, action, events[i], disks[i], disks[i + 1])
            } by {
                assert(events.take(i) == es.take(i));
                if i < es.len() {
                    assert(events[i] == es[i]);
                } else {
                    assert(es.take(i) == es);
                }
            }
        }
    }
}

/// A trial comes to its end after at most six effects.
pub proof fn trial_comes_to_an_end(world: World, job: Job, disk: Disk)
    ensures
        ended(world, job, disk).action is Finish,
        ended(world, job, disk).phase is Done,
{
    reveal_with_fuel(after_effects, 7);
    let s1 = after_effects(world, job, disk, 1);
    let s2 = after_effects(world, job, disk, 2);
    let s3 = after_effects(world, job, disk, 3);
    let s4 = after_effects(world, job, disk, 4);
    let s5 = after_effects(world, job, disk, 5);
    assert(s1.phase is Saving || s1.action is Finish);
    assert(s2.phase is Mutating || s2.phase is Cleaning || s2.phase is Done);
    assert(s3.phase is Testing || s3.phase is Restoring || s3.phase is Done);
    assert(s4.phase is Restoring || s4.phase is Cleaning || s4.phase is Done);
    assert(s5.phase is Cleaning || s5.phase is Done);
}

/// A trial leaves the disk exactly as it found it, provided that the contents
/// of the file can be saved and that nothing is saved at that place before.
pub proof fn trial_leaves_no_trace(world: World, job: Job, disk: Disk)
    requires
        (world.writable)(backup_of(job.file)),
        !disk.contains_key(backup_of(job.file)),
    ensures
        ended(world, job, disk).disk == disk,
{
    reveal_with_fuel(after_effects, 7);
    backup_differs(job.file);
    let backup = backup_of(job.file);
    let s1 = after_effects(world, job, disk, 1);
    let s2 = after_effects(world, job, disk, 2);
    let s3 = after_effects(world, job, disk, 3);
    let s4 = after_effects(world, job, disk, 4);
    let s5 = after_effects(world, job, disk, 5);
    if s1.phase is Saving {
        let original = disk[job.file];
        assert(s2.disk == disk.insert(backup, original));
        if s2.phase is Cleaning {
            assert(s3.disk =~= disk);
        } else if s3.phase is Restoring {
            assert(s4.disk =~= s2.disk);
            assert(s5.disk =~= disk);
        } else {
            assert(s4.phase is Restoring);
            assert(s5.disk =~= s2.disk);
            assert(s5.phase is Cleaning);
            assert(s5.disk.remove(backup) =~= disk);
        }
    }
}

/// What comes of a trial. A file that cannot be read, saved or written makes it
/// a build error that says so. A line that is not found makes it a mismatch. In
/// all other cases the outcome is what the tests say of the file with the line
/// replaced, and of nothing else.
pub proof fn outcome_is_what_the_tests_say(world: World, job: Job, disk: Disk)
    ensures
        ({
            let original = disk[job.file];
            let saved = job.file + ".morris-backup"@;
            let lines = text::lines(original);
            let told = outcome_on(world, job, disk);
            if !((world.readable)(job.file) && disk.contains_key(job.file)) {
                told == OutcomeView::BuildError("Cannot read file"@)
            } else if !(world.writable)(saved) {
                told == OutcomeView::BuildError("Cannot create backup"@)
            } else {
                match target::target_line(lines, job.line_number, job.original_line) {
                    None => told == OutcomeView::LineMismatch(mismatch_text(job, lines)),
                    Some(number) => if !(world.writable)(job.file) {
                        told == OutcomeView::BuildError("Cannot write mutation"@)
                    } else {
                        told == report::outcome_of(
                            (world.report)(
                                disk.insert(saved, original).insert(
                                    job.file,
                                    target::with_line(lines, number, job.mutated_line),
                                ),
                            ),
                        )
                    },
                }
            }
        }),
{
    reveal_with_fuel(after_effects, 7);
    backup_differs(job.file);
    let s1 = after_effects(world, job, disk, 1);
    let s2 = after_effects(world, job, disk, 2);
    let s3 = after_effects(world, job, disk, 3);
    let s4 = after_effects(world, job, disk, 4);
    let s5 = after_effects(world, job, disk, 5);
    let s6 = after_effects(world, job, disk, 6);
    if s1.phase is Saving {
        if s2.phase is Cleaning {
            assert(s3.phase is Done);
            assert(s6 == s3);
        } else if s2.phase is Mutating {
            if s3.phase is Restoring {
                assert(s4.phase is Cleaning);
                assert(s5.phase is Done);
                assert(s6 == s5);
            } else {
                assert(s3.phase is Testing);
                assert(s4.phase is Restoring);
                assert(s5.phase is Cleaning);
                assert(s6.phase is Done);
            }
        } else {
            assert(s6 == s2);
        }
    } else {
        assert(s6 == s1);
    }
}

/// A mismatch names the line by its number, and says what was expected there and
/// what stands there, both without the white space around them. A number that
/// no line has is said to be out of range.
pub proof fn mismatch_is_told(job: Job, lines: Seq<Seq<char>>)
    ensures
        0 < job.line_number <= lines.len() ==> mismatch_text(job, lines) == "line "@
            + numerals::decimal(job.line_number as nat) + (": expected '"@ + text::trimmed(
            job.original_line,
        )) + ("', found '"@ + text::trimmed(lines[job.line_number - 1]) + "'"@),
        !(0 < job.line_number <= lines.len()) ==> mismatch_text(job, lines) == "line "@
            + numerals::decimal(job.line_number as nat) + (": expected '"@ + text::trimmed(
            job.original_line,
        )) + "', found '<out of range>'"@,
{
    reveal_strlit("<out of range>");
    reveal_strlit("', found '");
    reveal_strlit("'");
    reveal_strlit("', found '<out of range>'");
    let out = "<out of range>"@;
    text::white_space_by_code_point('<');
    text::white_space_by_code_point('>');
    text::padding_is_trimmed(Seq::empty(), out, Seq::empty());
    assert(Seq::<char>::empty() + out + Seq::<char>::empty() =~= out);
    assert("', found '"@ + out + "'"@ =~= "', found '<out of range>'"@);
    if 0 < job.line_number <= lines.len() {
        assert(mismatch_text(job, lines) =~= "line "@ + numerals::decimal(job.line_number as nat)
            + (": expected '"@ + text::trimmed(job.original_line)) + ("', found '"@ + text::trimmed(
            lines[job.line_number - 1],
        ) + "'"@));
    } else {
        assert(mismatch_text(job, lines) =~= "line "@ + numerals::decimal(job.line_number as nat)
            + (": expected '"@ + text::trimmed(job.original_line)) + ("', found '"@ + out + "'"@));
    }
}

/// A file is saved beside itself, under its own name and an ending, so that two
/// files are never saved at the same place.
pub proof fn files_are_saved_apart(a: Seq<char>, b: Seq<char>)
    ensures
        backup_of(a) == a + ".morris-backup"@,
        backup_of(a) == backup_of(b) ==> a == b,
{
    if backup_of(a) == backup_of(b) {
        let n = ".morris-backup"@.len() as int;
        assert(a =~= backup_of(a).take(backup_of(a).len() - n));
        assert(b =~= backup_of(b).take(backup_of(b).len() - n));
    }
}

/// Whatever comes of an effect is awaited, and nothing that answers another.
pub proof fn answers_are_awaited(event: EventView, original: Seq<char>, outcome: OutcomeView)
    ensures
        awaited(PhaseView::Reading, event) <==> event is FileRead,
        awaited(PhaseView::Saving { original }, event) <==> event is FileWritten,
        awaited(PhaseView::Mutating, event) <==> event is FileWritten,
        awaited(PhaseView::Testing, event) <==> event is TestsRun,
        awaited(PhaseView::Restoring { outcome }, event) <==> event is FileCopied,
        awaited(PhaseView::Cleaning { outcome }, event) <==> event is FileRemoved,
        !awaited(PhaseView::Done, event),
{
}

/// The mathematical forms of a trial, its effects and their results leave
/// nothing out.
pub proof fn trial_is_seen_whole(
    trial: Trial,
    path: String,
    contents: String,
    outcome: MutationOutcome,
    report: TestReport,
    ok: bool,
)
    ensures
        trial.job().file == trial.file_path@,
        trial.job().line_number == trial.line_number,
        trial.job().original_line == trial.original_line@,
        trial.job().mutated_line == trial.mutated_line@,
        (TrialAction::ReadFile { path })@ == (ActionView::ReadFile { path: path@ }),
        (TrialAction::WriteFile { path, contents })@ == (ActionView::WriteFile {
            path: path@,
            contents: contents@,
        }),
        (TrialAction::CopyFile { from: path, to: contents })@ == (ActionView::CopyFile {
            from: path@,
            to: contents@,
        }),
        (TrialAction::RemoveFile { path })@ == (ActionView::RemoveFile { path: path@ }),
        TrialAction::RunTests@ == ActionView::RunTests,
        (TrialAction::Finish { outcome })@ == (ActionView::Finish { outcome: outcome@ }),
        (TrialEvent::FileRead { contents: Some(contents) })@ == (EventView::FileRead {
            contents: Some(contents@),
        }),
        (TrialEvent::FileRead { contents: None })@ == (EventView::FileRead { contents: None }),
        (TrialEvent::FileWritten { ok })@ == (EventView::FileWritten { ok }),
        TrialEvent::FileCopied@ == EventView::FileCopied,
        TrialEvent::FileRemoved@ == EventView::FileRemoved,
        (TrialEvent::TestsRun { report })@ == (EventView::TestsRun { report: report@ }),
        TrialPhase::Reading@ == PhaseView::Reading,
        (TrialPhase::Saving { original: contents })@ == (PhaseView::Saving {
            original: contents@,
        }),
        TrialPhase::Mutating@ == PhaseView::Mutating,
        TrialPhase::Testing@ == PhaseView::Testing,
        (TrialPhase::Restoring { outcome })@ == (PhaseView::Restoring { outcome: outcome@ }),
        (TrialPhase::Cleaning { outcome })@ == (PhaseView::Cleaning { outcome: outcome@ }),
        TrialPhase::Done@ == PhaseView::Done,
        first_action(trial.job()) == (ActionView::ReadFile { path: trial.file_path@ }),
{
}

} // verus!
