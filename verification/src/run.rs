//! Going through the mutations of a plan, one after the other.

use vstd::prelude::*;

use crate::mutation::{Mutation, MutationOutcome, MutationResult, MutationView, ResultView};
use crate::numerals::{self, push_decimal};
use crate::text::chars_of;
use crate::trial::{self, Disk, Job, World};

verus! {

/// The mutations still to test, and the results so far.
#[derive(Debug, PartialEq, Eq)]
pub struct MutationRun {
    pub pending: Vec<Mutation>,
    pub results: Vec<MutationResult>,
    /// How many mutations there are in all.
    pub total: usize,
}

/// The line that announces the test of a mutation.
pub open spec fn progress_text(number: nat, total: nat, m: MutationView) -> Seq<char> {
    "   ["@ + numerals::decimal(number) + "/"@ + numerals::decimal(total) + "] "@ + m.file_path
        + ":"@ + numerals::decimal(m.line_number) + " - "@ + m.description + "... "@
}

impl MutationRun {
    /// All mutations of the run, in the order in which they are tested.
    pub open spec fn plan(&self) -> Seq<Mutation> {
        self.results@.map_values(|r: MutationResult| r.mutation) + self.pending@
    }

    /// Whether the total is the number of mutations in the plan.
    pub open spec fn wf(&self) -> bool {
        self.total == self.plan().len()
    }

    /// A run through `mutations`.
    pub fn new(mutations: Vec<Mutation>) -> (r: MutationRun)
        ensures
            r.wf(),
            r.plan() == mutations@,
            r.pending@ == mutations@,
            r.results@.len() == 0,
    {
        let total = mutations.len();
        let r = MutationRun { pending: mutations, results: Vec::new(), total };
        assert(r.plan() =~= mutations@);
        r
    }

    /// The mutation to test next, if any is left.
    pub fn current(&self) -> (r: Option<&Mutation>)
        ensures
            match r {
                Some(m) => {
                    &&& self.pending@.len() > 0
                    &&& *m == self.pending@[0]
                    &&& *m == self.plan()[self.results@.len() as int]
                },
                None => self.pending@.len() == 0,
            },
    {
        if self.pending.len() > 0 {
            Some(&self.pending[0])
        } else {
            None
        }
    }

    /// The line that announces the test of the next mutation: its number, how
    /// many there are in all, and what it is.
    pub fn progress_line(&self) -> (r: Option<String>)
        requires
            self.wf(),
        ensures
            match r {
                Some(line) => {
                    &&& self.pending@.len() > 0
                    &&& line@ == progress_text(
                        self.results@.len() + 1,
                        self.plan().len(),
                        self.pending@[0]@,
                    )
                },
                None => self.pending@.len() == 0,
            },
    {
        if self.pending.len() == 0 {
            return None;
        }
        let m = &self.pending[0];
        let mut r = "   [".to_owned();
        push_decimal(&mut r, self.results.len() + 1);
        r.append("/");
        push_decimal(&mut r, self.total);
        r.append("] ");
        r.append(m.file_path.as_str());
        r.append(":");
        push_decimal(&mut r, m.line_number);
        r.append(" - ");
        r.append(m.description.as_str());
        r.append("... ");
        Some(r)
    }

    /// Records what came of testing the next mutation.
    pub fn record(&mut self, outcome: MutationOutcome)
        requires
            old(self).wf(),
            old(self).pending@.len() > 0,
        ensures
            final(self).wf(),
            final(self).plan() == old(self).plan(),
            final(self).pending@ == old(self).pending@.skip(1),
            final(self).results@ == old(self).results@.push(
                MutationResult { mutation: old(self).pending@[0], outcome },
            ),
    {
        let ghost before = *self;
        let mutation = self.pending.remove(0);
        self.results.push(MutationResult { mutation, outcome });
        assert(self.pending@ =~= before.pending@.skip(1));
        assert(self.plan() =~= before.plan());
    }
}

/// A finished run has one result for each mutation of its plan, in the plan's
/// order.
pub proof fn each_mutation_has_one_result(run: MutationRun)
    requires
        run.wf(),
        run.pending@.len() == 0,
    ensures
        run.results@.len() == run.plan().len(),
        run.results@.len() == run.total,
        forall|i: int|
            0 <= i < run.plan().len() ==> (#[trigger] run.results@[i]).mutation == run.plan()[i],
{
}

/// The path of `file` as seen from the directory `dir`: `file` itself where it
/// is absolute.
pub open spec fn joined_path(dir: Seq<char>, file: Seq<char>) -> Seq<char> {
    if file.len() > 0 && file[0] == '/' {
        file
    } else if dir.len() == 0 || dir.last() == '/' {
        dir + file
    } else {
        dir.push('/') + file
    }
}

/// The path at which `file` is found, seen from the directory `cwd` where that
/// can be written as text.
pub open spec fn found_at(cwd: Option<Seq<char>>, file: Seq<char>) -> Seq<char> {
    match cwd {
        Some(dir) => joined_path(dir, file),
        None => file,
    }
}

/// The path at which the file of a mutation is found. `cwd` is the directory
/// that the path is relative to, where it can be written as text.
pub fn mutation_path(cwd: Option<&str>, file_path: &str) -> (r: String)
    ensures
        r@ == found_at(
            match cwd {
                Some(dir) => Some(dir@),
                None => None,
            },
            file_path@,
        ),
{
    match cwd {
        Some(dir) => {
            let file = chars_of(file_path);
            if file.len() > 0 && file[0] == '/' {
                return file_path.to_owned();
            }
            let chars = chars_of(dir);
            let mut r = dir.to_owned();
            if chars.len() > 0 && chars[chars.len() - 1] != '/' {
                r.push('/');
            }
            r.append(file_path);
            r
        },
        None => file_path.to_owned(),
    }
}

/// What the trial of a mutation is about.
pub open spec fn job_of(cwd: Option<Seq<char>>, m: MutationView) -> Job {
    Job {
        file: found_at(cwd, m.file_path),
        line_number: m.line_number as int,
        original_line: m.original_line,
        mutated_line: m.mutated_line,
    }
}

/// The disk after the trials of `mutations`, one after the other from `disk`
/// on.
pub open spec fn disk_after(
    world: World,
    cwd: Option<Seq<char>>,
    mutations: Seq<MutationView>,
    disk: Disk,
) -> Disk
    decreases mutations.len(),
{
    if mutations.len() == 0 {
        disk
    } else {
        let before = disk_after(world, cwd, mutations.drop_last(), disk);
        trial::ended(world, job_of(cwd, mutations.last()), before).disk
    }
}

/// The results of the trials of `mutations`, one after the other from `disk`
/// on.
pub open spec fn results_on(
    world: World,
    cwd: Option<Seq<char>>,
    mutations: Seq<MutationView>,
    disk: Disk,
) -> Seq<ResultView>
    decreases mutations.len(),
{
    if mutations.len() == 0 {
        Seq::empty()
    } else {
        let front = mutations.drop_last();
        let m = mutations.last();
        let before = disk_after(world, cwd, front, disk);
        results_on(world, cwd, front, disk).push(
            ResultView { mutation: m, outcome: trial::outcome_on(world, job_of(cwd, m), before) },
        )
    }
}

/// Whether the file of each mutation can be saved, and nothing is saved yet.
pub open spec fn can_be_saved(
    world: World,
    cwd: Option<Seq<char>>,
    mutations: Seq<MutationView>,
    disk: Disk,
) -> bool {
    forall|i: int|
        0 <= i < mutations.len() ==> {
            let saved = trial::backup_of(job_of(cwd, #[trigger] mutations[i]).file);
            (world.writable)(saved) && !disk.contains_key(saved)
        }
}

/// Testing mutations leaves the disk as it was.
pub proof fn mutations_leave_no_trace(
    world: World,
    cwd: Option<Seq<char>>,
    mutations: Seq<MutationView>,
    disk: Disk,
)
    requires
        can_be_saved(world, cwd, mutations, disk),
    ensures
        disk_after(world, cwd, mutations, disk) == disk,
    decreases mutations.len(),
{
    if mutations.len() > 0 {
        let front = mutations.drop_last();
        let m = mutations[mutations.len() - 1];
        assert forall|i: int| 0 <= i < front.len() implies {
            let saved = trial::backup_of(job_of(cwd, #[trigger] front[i]).file);
            (world.writable)(saved) && !disk.contains_key(saved)
        } by {
            assert(front[i] == mutations[i]);
        }
        mutations_leave_no_trace(world, cwd, front, disk);
        trial::trial_leaves_no_trace(world, job_of(cwd, m), disk);
    }
}

/// Testing one list of mutations and then another is testing them together.
proof fn trials_follow_each_other(
    world: World,
    cwd: Option<Seq<char>>,
    a: Seq<MutationView>,
    b: Seq<MutationView>,
    disk: Disk,
)
    ensures
        ({
            let between = disk_after(world, cwd, a, disk);
            &&& disk_after(world, cwd, a + b, disk) == disk_after(world, cwd, b, between)
            &&& results_on(world, cwd, a + b, disk) == results_on(world, cwd, a, disk)
                + results_on(world, cwd, b, between)
        }),
    decreases b.len(),
{
    if b.len() == 0 {
        assert(a + b == a);
    } else {
        assert((a + b).drop_last() == a + b.drop_last());
        trials_follow_each_other(world, cwd, a, b.drop_last(), disk);
    }
}

/// No mutation influences what comes of another: testing two lists of mutations
/// together gives the results of the one and then those of the other, each
/// tested for itself. Testing no mutation gives no result.
pub proof fn mutations_do_not_interfere(
    world: World,
    cwd: Option<Seq<char>>,
    a: Seq<MutationView>,
    b: Seq<MutationView>,
    disk: Disk,
)
    requires
        can_be_saved(world, cwd, a, disk),
    ensures
        results_on(world, cwd, a + b, disk) == results_on(world, cwd, a, disk) + results_on(
            world,
            cwd,
            b,
            disk,
        ),
        results_on(world, cwd, Seq::empty(), disk) == Seq::<ResultView>::empty(),
{
    trials_follow_each_other(world, cwd, a, b, disk);
    mutations_leave_no_trace(world, cwd, a, disk);
}

/// The line that announces a mutation tells its number and how many there are,
/// its file and line, and what it is meant to show, each of them whole.
pub proof fn progress_is_told(number: nat, total: nat, m: MutationView)
    ensures
        progress_text(number, total, m) == "   ["@ + (numerals::decimal(number) + seq!['/']
            + numerals::decimal(total)) + "] "@ + (m.file_path + seq![':'] + numerals::decimal(
            m.line_number,
        )) + " - "@ + m.description + "... "@,
{
    reveal_strlit("/");
    reveal_strlit(":");
    assert(progress_text(number, total, m) =~= "   ["@ + (numerals::decimal(number) + seq!['/']
        + numerals::decimal(total)) + "] "@ + (m.file_path + seq![':'] + numerals::decimal(
        m.line_number,
    )) + " - "@ + m.description + "... "@);
}

/// A relative path is found below the directory, with one slash between the
/// two: the one that the directory ends with, or else a new one. An absolute
/// path, or any path where the directory is not known, stays as it is.
pub proof fn relative_paths_lie_below(dir: Seq<char>, file: Seq<char>)
    ensures
        found_at(None, file) == file,
        found_at(Some(dir), seq!['/'] + file) == seq!['/'] + file,
        !(file.len() > 0 && file[0] == '/') ==> {
            &&& found_at(Some(Seq::empty()), file) == file
            &&& found_at(Some(dir + seq!['/']), file) == dir + seq!['/'] + file
            &&& dir.len() > 0 && dir.last() != '/' ==> found_at(Some(dir), file) == dir + seq!['/']
                + file
        },
{
    assert((seq!['/'] + file)[0] == '/');
    assert((dir + seq!['/']).last() == '/');
    assert(Seq::<char>::empty() + file =~= file);
    assert(dir.push('/') =~= dir + seq!['/']);
}

/// The trial of a mutation is about the file, the line and the two texts that
/// the mutation names.
pub proof fn trial_is_about_the_mutation(cwd: Option<Seq<char>>, m: MutationView)
    ensures
        job_of(cwd, m).file == found_at(cwd, m.file_path),
        job_of(cwd, m).line_number == m.line_number,
        job_of(cwd, m).original_line == m.original_line,
        job_of(cwd, m).mutated_line == m.mutated_line,
{
}

/// The plan of a run is what has been tested and what is still to be tested, in
/// this order, with nothing left out.
pub proof fn plan_is_past_and_future(run: MutationRun)
    ensures
        run.plan().len() == run.results@.len() + run.pending@.len(),
        forall|i: int|
            0 <= i < run.results@.len() ==> #[trigger] run.plan()[i] == run.results@[i].mutation,
        forall|i: int|
            0 <= i < run.pending@.len() ==> run.plan()[run.results@.len() + i]
                == #[trigger] run.pending@[i],
        run.wf() <==> run.total == run.results@.len() + run.pending@.len(),
{
}

} // verus!
