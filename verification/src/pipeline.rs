//! The decisions of a run: how a task walks through its batches, when it
//! writes, and how the outcomes of languages and files add up.

use vstd::prelude::*;

verus! {

/// Whether a task writes to its output catalog: always, but for a preview
/// run without the force-write override.
pub fn should_persist(dry_run: bool, force_write: bool) -> (r: bool)
    ensures
        r == (!dry_run || force_write),
{
    !dry_run || force_write
}

/// Where the batch that starts at `start` ends: a full batch later, or at
/// the end of the units where fewer are left.
pub open spec fn batch_end(total: nat, batch_size: nat, start: nat) -> nat {
    if total - start < batch_size {
        total
    } else {
        start + batch_size
    }
}

/// The progress of one task, which takes the units of one file into one
/// language batch by batch and in order. It is over once every unit was
/// handed to the protocol, or once a batch failed as a whole.
pub struct TaskRun {
    total: usize,
    batch_size: usize,
    persist: bool,
    position: usize,
    translated: usize,
    failed: usize,
    aborted: bool,
}

impl TaskRun {
    #[verifier::type_invariant]
    spec fn well_formed(&self) -> bool {
        &&& self.batch_size > 0
        &&& self.position <= self.total
        &&& self.translated + self.failed == self.position
    }

    /// The number of units of the task.
    pub closed spec fn total(&self) -> nat {
        self.total as nat
    }

    /// The number of units in a full batch.
    pub closed spec fn batch_size(&self) -> nat {
        self.batch_size as nat
    }

    /// Whether the task writes to its output catalog.
    pub closed spec fn persist(&self) -> bool {
        self.persist
    }

    /// The number of units that went through the protocol so far.
    pub closed spec fn position(&self) -> nat {
        self.position as nat
    }

    /// The number of units translated so far.
    pub closed spec fn translated(&self) -> nat {
        self.translated as nat
    }

    /// The number of units that failed so far.
    pub closed spec fn failed(&self) -> nat {
        self.failed as nat
    }

    /// Whether a batch failed as a whole.
    pub closed spec fn aborted(&self) -> bool {
        self.aborted
    }

    /// The batch that is due, as the positions of its first unit and of the
    /// one after its last; none once the task is over.
    pub open spec fn due(&self) -> Option<(nat, nat)> {
        if self.aborted() || self.position() >= self.total() {
            None
        } else {
            Some((self.position(), batch_end(self.total(), self.batch_size(), self.position())))
        }
    }

    /// A task over `total` units that has done nothing yet.
    pub fn new(total: usize, batch_size: usize, dry_run: bool, force_write: bool) -> (run: Self)
        requires
            batch_size > 0,
        ensures
            run.total() == total,
            run.batch_size() == batch_size,
            run.persist() == (!dry_run || force_write),
            run.position() == 0,
            run.translated() == 0,
            run.failed() == 0,
            !run.aborted(),
    {
        TaskRun {
            total,
            batch_size,
            persist: should_persist(dry_run, force_write),
            position: 0,
            translated: 0,
            failed: 0,
            aborted: false,
        }
    }

    /// The batch to hand to the protocol next, or none once the task is
    /// over. A batch is never empty and never longer than the batch size.
    pub fn next_batch(&self) -> (r: Option<(usize, usize)>)
        ensures
            match r {
                Some((start, end)) => self.due() == Some((start as nat, end as nat)) && start < end
                    && end <= self.total() && end - start <= self.batch_size(),
                None => self.due() is None,
            },
    {
        proof {
            use_type_invariant(self);
        }
        if self.aborted || self.position >= self.total {
            None
        } else if self.total - self.position < self.batch_size {
            Some((self.position, self.total))
        } else {
            Some((self.position, self.position + self.batch_size))
        }
    }

    /// Takes note of the result of the batch that was due, and says whether
    /// its translated units are to be written now: only where the task
    /// writes at all and the batch has translated units.
    pub fn record_batch(&mut self, translated: usize, failed: usize) -> (write: bool)
        requires
            old(self).due() matches Some((start, end)) && translated + failed == end - start,
        ensures
            final(self).total() == old(self).total(),
            final(self).batch_size() == old(self).batch_size(),
            final(self).persist() == old(self).persist(),
            !final(self).aborted(),
            old(self).due() matches Some((start, end)) && final(self).position() == end,
            final(self).translated() == old(self).translated() + translated,
            final(self).failed() == old(self).failed() + failed,
            write == (old(self).persist() && translated > 0),
    {
        proof {
            use_type_invariant(&*self);
        }
        *self = TaskRun {
            total: self.total,
            batch_size: self.batch_size,
            persist: self.persist,
            position: self.position + translated + failed,
            translated: self.translated + translated,
            failed: self.failed + failed,
            aborted: false,
        };
        self.persist && translated > 0
    }

    /// Ends the task after a batch failed as a whole, in the protocol or on
    /// writing. What earlier batches did stands.
    pub fn abort(&mut self)
        ensures
            final(self).aborted(),
            final(self).total() == old(self).total(),
            final(self).batch_size() == old(self).batch_size(),
            final(self).persist() == old(self).persist(),
            final(self).position() == old(self).position(),
            final(self).translated() == old(self).translated(),
            final(self).failed() == old(self).failed(),
    {
        proof {
            use_type_invariant(&*self);
        }
        self.aborted = true;
    }

    /// The counts of translated and failed units once every unit went
    /// through the protocol; none while batches are due or after an abort.
    pub fn outcome(&self) -> (r: Option<(usize, usize)>)
        ensures
            r is Some <==> !self.aborted() && self.position() == self.total(),
            r matches Some((translated, failed)) ==> translated == self.translated() && failed
                == self.failed() && translated + failed == self.total(),
    {
        proof {
            use_type_invariant(self);
        }
        if !self.aborted && self.position == self.total {
            Some((self.translated, self.failed))
        } else {
            None
        }
    }

    /// The counts of translated and failed units so far.
    pub fn counts(&self) -> (r: (usize, usize))
        ensures
            r.0 == self.translated(),
            r.1 == self.failed(),
            r.0 + r.1 == self.position(),
    {
        proof {
            use_type_invariant(self);
        }
        (self.translated, self.failed)
    }
}

/// How the task of one language ended.
#[derive(Debug, Clone, Copy, PartialEq, Eq, Structural)]
pub enum LanguageOutcome {
    /// Every batch went through; these are the counts of its units.
    Done { translated: usize, failed: usize },
    /// The task ended on an error.
    Failed,
}

/// The counts of one file over all its languages.
#[derive(Debug, Clone, Copy, PartialEq, Eq, Structural)]
pub struct FileStats {
    pub total_translated: usize,
    pub total_failed: usize,
}

/// How the task of one file ended.
#[derive(Debug, Clone, Copy, PartialEq, Eq, Structural)]
pub enum FileOutcome {
    /// At least one language went through, or there was none to do.
    Done(FileStats),
    /// Every language of the file ended on an error.
    AllLanguagesFailed,
}

/// The translated units of the languages that went through.
pub open spec fn languages_translated(outcomes: Seq<LanguageOutcome>) -> nat
    decreases outcomes.len(),
{
    if outcomes.len() == 0 {
        0
    } else {
        languages_translated(outcomes.drop_last()) + match outcomes.last() {
            LanguageOutcome::Done { translated, failed } => translated as nat,
            LanguageOutcome::Failed => 0,
        }
    }
}

/// The failed units of the languages that went through.
pub open spec fn languages_failed(outcomes: Seq<LanguageOutcome>) -> nat
    decreases outcomes.len(),
{
    if outcomes.len() == 0 {
        0
    } else {
        languages_failed(outcomes.drop_last()) + match outcomes.last() {
            LanguageOutcome::Done { translated, failed } => failed as nat,
            LanguageOutcome::Failed => 0,
        }
    }
}

/// Whether every language ended on an error.
pub open spec fn all_languages_failed(outcomes: Seq<LanguageOutcome>) -> bool {
    forall|i: int| 0 <= i < outcomes.len() ==> #[trigger] outcomes[i] is Failed
}

/// The outcome of a file, given the outcomes of its languages in any order:
/// failed where there are languages and all of them failed, else done with
/// the counts of those that went through.
pub open spec fn file_outcome(outcomes: Seq<LanguageOutcome>) -> FileOutcome {
    if outcomes.len() > 0 && all_languages_failed(outcomes) {
        FileOutcome::AllLanguagesFailed
    } else {
        FileOutcome::Done(
            FileStats {
                total_translated: languages_translated(outcomes) as usize,
                total_failed: languages_failed(outcomes) as usize,
            },
        )
    }
}

/// The outcome of a file from the outcomes of its languages.
pub fn aggregate_file(outcomes: &Vec<LanguageOutcome>) -> (r: FileOutcome)
    requires
        languages_translated(outcomes@) <= usize::MAX,
        languages_failed(outcomes@) <= usize::MAX,
    ensures
        r == file_outcome(outcomes@),
{
    let mut translated: usize = 0;
    let mut failed: usize = 0;
    let mut any_done: bool = false;
    let mut i: usize = 0;
    while i < outcomes.len()
        invariant
            i <= outcomes.len(),
            languages_translated(outcomes@) <= usize::MAX,
            languages_failed(outcomes@) <= usize::MAX,
            translated == languages_translated(outcomes@.take(i as int)),
            failed == languages_failed(outcomes@.take(i as int)),
            any_done == !all_languages_failed(outcomes@.take(i as int)),
        decreases outcomes.len() - i,
    {
        proof {
            let before = outcomes@.take(i as int);
            let after = outcomes@.take(i + 1);
            assert(after.drop_last() == before);
            assert(after.last() == outcomes@[i as int]);
            lemma_languages_monotone(outcomes@, i + 1);
            if all_languages_failed(after) {
                assert forall|k: int| 0 <= k < before.len() implies #[trigger] before[k] is Failed by {
                    assert(after[k] is Failed);
                }
            } else if outcomes@[i as int] is Failed {
                let k = choose|k: int| 0 <= k < after.len() && !(#[trigger] after[k] is Failed);
                assert(before[k] == after[k]);
            }
        }
        match outcomes[i] {
            LanguageOutcome::Done { translated: t, failed: f } => {
                translated = translated + t;
                failed = failed + f;
                any_done = true;
            },
            LanguageOutcome::Failed => {},
        }
        i += 1;
    }
    proof {
        assert(outcomes@.take(outcomes.len() as int) == outcomes@);
    }
    if outcomes.len() > 0 && !any_done {
        FileOutcome::AllLanguagesFailed
    } else {
        FileOutcome::Done(FileStats { total_translated: translated, total_failed: failed })
    }
}

/// The counts of a prefix of the languages are no larger than those of all.
proof fn lemma_languages_monotone(outcomes: Seq<LanguageOutcome>, n: int)
    requires
        0 <= n <= outcomes.len(),
    ensures
        languages_translated(outcomes.take(n)) <= languages_translated(outcomes),
        languages_failed(outcomes.take(n)) <= languages_failed(outcomes),
    decreases outcomes.len() - n,
{
    if n < outcomes.len() {
        lemma_languages_monotone(outcomes, n + 1);
        assert(outcomes.take(n + 1).drop_last() == outcomes.take(n));
    } else {
        assert(outcomes.take(n) == outcomes);
    }
}

/// The totals of a run over all its files.
#[derive(Debug, Clone, Copy, PartialEq, Eq, Structural)]
pub struct RunSummary {
    pub files_ok: usize,
    pub files_failed: usize,
    pub translated: usize,
    pub failed: usize,
}

/// How a run ended.
#[derive(Debug, Clone, Copy, PartialEq, Eq, Structural)]
pub enum RunVerdict {
    /// At least one file failed outright.
    Failed,
    /// No file failed, but some units did.
    Degraded,
    /// No file and no unit failed, and nothing was translated.
    NothingTranslated,
    /// No file and no unit failed, and units were translated.
    Success,
}

/// The number of files that went through.
pub open spec fn files_done(files: Seq<FileOutcome>) -> nat
    decreases files.len(),
{
    if files.len() == 0 {
        0
    } else {
        files_done(files.drop_last()) + if files.last() is Done {
            1nat
        } else {
            0nat
        }
    }
}

/// The translated units of the files that went through.
pub open spec fn files_translated(files: Seq<FileOutcome>) -> nat
    decreases files.len(),
{
    if files.len() == 0 {
        0
    } else {
        files_translated(files.drop_last()) + match files.last() {
            FileOutcome::Done(stats) => stats.total_translated as nat,
            FileOutcome::AllLanguagesFailed => 0,
        }
    }
}

/// The failed units of the files that went through.
pub open spec fn files_failed_units(files: Seq<FileOutcome>) -> nat
    decreases files.len(),
{
    if files.len() == 0 {
        0
    } else {
        files_failed_units(files.drop_last()) + match files.last() {
            FileOutcome::Done(stats) => stats.total_failed as nat,
            FileOutcome::AllLanguagesFailed => 0,
        }
    }
}

/// The counts of a prefix of the files are no larger than those of all.
proof fn lemma_files_monotone(files: Seq<FileOutcome>, n: int)
    requires
        0 <= n <= files.len(),
    ensures
        files_translated(files.take(n)) <= files_translated(files),
        files_failed_units(files.take(n)) <= files_failed_units(files),
        files_done(files.take(n)) <= n,
    decreases files.len() - n,
{
    lemma_files_done_bound(files.take(n));
    if n < files.len() {
        lemma_files_monotone(files, n + 1);
        assert(files.take(n + 1).drop_last() == files.take(n));
    } else {
        assert(files.take(n) == files);
    }
}

/// No more files went through than there are.
proof fn lemma_files_done_bound(files: Seq<FileOutcome>)
    ensures
        files_done(files) <= files.len(),
    decreases files.len(),
{
    if files.len() > 0 {
        lemma_files_done_bound(files.drop_last());
    }
}

/// The totals of a run from the outcomes of its files, in any order.
pub fn summarize_run(files: &Vec<FileOutcome>) -> (summary: RunSummary)
    requires
        files_translated(files@) <= usize::MAX,
        files_failed_units(files@) <= usize::MAX,
    ensures
        summary.files_ok == files_done(files@),
        summary.files_failed == files.len() - files_done(files@),
        summary.translated == files_translated(files@),
        summary.failed == files_failed_units(files@),
{
    let mut ok: usize = 0;
    let mut translated: usize = 0;
    let mut failed: usize = 0;
    let mut i: usize = 0;
    while i < files.len()
        invariant
            i <= files.len(),
            files_translated(files@) <= usize::MAX,
            files_failed_units(files@) <= usize::MAX,
            ok == files_done(files@.take(i as int)),
            ok <= i,
            translated == files_translated(files@.take(i as int)),
            failed == files_failed_units(files@.take(i as int)),
        decreases files.len() - i,
    {
        proof {
            let after = files@.take(i + 1);
            assert(after.drop_last() == files@.take(i as int));
            assert(after.last() == files@[i as int]);
            lemma_files_monotone(files@, i + 1);
        }
        match files[i] {
            FileOutcome::Done(stats) => {
                ok = ok + 1;
                translated = translated + stats.total_translated;
                failed = failed + stats.total_failed;
            },
            FileOutcome::AllLanguagesFailed => {},
        }
        i += 1;
    }
    proof {
        assert(files@.take(files.len() as int) == files@);
    }
    RunSummary { files_ok: ok, files_failed: files.len() - ok, translated, failed }
}

impl RunSummary {
    /// How the run ended: failed only where a file failed outright; units
    /// that failed, or nothing to do, leave it a success of a lesser kind.
    pub fn verdict(&self) -> (v: RunVerdict)
        ensures
            v == if self.files_failed > 0 {
                RunVerdict::Failed
            } else if self.failed > 0 {
                RunVerdict::Degraded
            } else if self.translated == 0 {
                RunVerdict::NothingTranslated
            } else {
                RunVerdict::Success
            },
    {
        if self.files_failed > 0 {
            RunVerdict::Failed
        } else if self.failed > 0 {
            RunVerdict::Degraded
        } else if self.translated == 0 {
            RunVerdict::NothingTranslated
        } else {
            RunVerdict::Success
        }
    }

    /// The exit status of the process: 1 where a file failed outright, else
    /// 0.
    pub fn exit_code(&self) -> (code: i32)
        ensures
            code == if self.files_failed > 0 {
                1i32
            } else {
                0i32
            },
    {
        if self.files_failed > 0 {
            1
        } else {
            0
        }
    }
}

} // verus!
