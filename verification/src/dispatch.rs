//! Dispatch: what to do with each owed conversion, and the accounting of
//! a run. The filesystem checks and the transcoder call happen outside
//! the library; they hand in plain facts (does the destination exist, did
//! the process succeed) and take back a decided action or a recorded
//! outcome. One bad job never touches the accounting of another.

use vstd::prelude::*;

use crate::config::RunConfig;
use crate::paths::{with_ext, with_extension};
use crate::reconcile::{orphans, pending, reconcile};

verus! {

/// One owed conversion: a source path and the destination path its output
/// belongs at, both relative to their roots.
pub struct Job {
    pub source_rel: String,
    pub dest_rel: String,
}

/// Builds the job list for the owed conversions, applying the extension
/// rewrite once per entry.
pub fn build_jobs(to_convert: &Vec<String>, target_ext: &String) -> (jobs: Vec<Job>)
    ensures
        jobs@.len() == to_convert@.len(),
        forall|i: int|
            0 <= i < jobs@.len() ==> #[trigger] jobs@[i].source_rel@ == to_convert.deep_view()[i]
                && jobs@[i].dest_rel@ == with_ext(to_convert.deep_view()[i], target_ext@),
{
    let mut jobs: Vec<Job> = Vec::new();
    let mut i: usize = 0;
    while i < to_convert.len()
        invariant
            i <= to_convert@.len(),
            jobs@.len() == i,
            forall|j: int|
                0 <= j < i ==> #[trigger] jobs@[j].source_rel@ == to_convert.deep_view()[j]
                    && jobs@[j].dest_rel@ == with_ext(to_convert.deep_view()[j], target_ext@),
        decreases to_convert@.len() - i,
    {
        let dest_rel = with_extension(&to_convert[i], target_ext);
        jobs.push(Job { source_rel: to_convert[i].clone(), dest_rel });
        i = i + 1;
    }
    jobs
}

/// The source paths of a job list, in order.
pub open spec fn job_sources(jobs: Seq<Job>) -> Seq<Seq<char>> {
    Seq::new(jobs.len(), |i: int| jobs[i].source_rel@)
}

/// Plans one run: diffs the two media sets under the configured target
/// extension and turns the owed conversions into jobs. The deletions are
/// exactly the orphans (none when preserving); the job sources are
/// exactly the pending conversions, each paired with its rewritten
/// destination path.
pub fn plan_run(source_media: &Vec<String>, dest_media: &Vec<String>, config: &RunConfig) -> (r: (
    Vec<String>,
    Vec<Job>,
))
    ensures
        r.0.deep_view().to_set() == if config.preserve {
            Set::<Seq<char>>::empty()
        } else {
            orphans(
                source_media.deep_view().to_set(),
                dest_media.deep_view().to_set(),
                config.target_extension@,
            )
        },
        job_sources(r.1@).to_set() == pending(
            source_media.deep_view().to_set(),
            dest_media.deep_view().to_set(),
            config.target_extension@,
        ),
        forall|i: int|
            0 <= i < r.1@.len() ==> #[trigger] r.1@[i].dest_rel@ == with_ext(
                r.1@[i].source_rel@,
                config.target_extension@,
            ),
{
    let (to_delete, to_convert) = reconcile(
        source_media,
        dest_media,
        &config.target_extension,
        config.preserve,
    );
    let jobs = build_jobs(&to_convert, &config.target_extension);
    proof {
        assert(job_sources(jobs@) =~= to_convert.deep_view());
    }
    (to_delete, jobs)
}

/// What a worker is to do with one job, after looking at the filesystem.
#[derive(Clone, Copy, PartialEq, Eq, Structural, Debug)]
pub enum JobAction {
    /// Destination absent: convert.
    Convert,
    /// Destination present and overwriting: remove it, then convert.
    ReplaceThenConvert,
    /// Destination present and not overwriting: the job is already
    /// satisfied; no process is spawned.
    SkipExisting,
    /// Source vanished since scanning: the job fails with a diagnostic and
    /// the batch goes on.
    FailMissingSource,
}

/// The overwrite policy: an existing destination wins unless overwriting
/// is forced; only then does the source's presence matter.
pub open spec fn decide_job_spec(source_exists: bool, dest_exists: bool, overwrite: bool) -> JobAction {
    if dest_exists && !overwrite {
        JobAction::SkipExisting
    } else if !source_exists {
        JobAction::FailMissingSource
    } else if dest_exists {
        JobAction::ReplaceThenConvert
    } else {
        JobAction::Convert
    }
}

/// Decides one job from the two existence checks and the overwrite flag.
pub fn decide_job(source_exists: bool, dest_exists: bool, overwrite: bool) -> (a: JobAction)
    ensures
        a == decide_job_spec(source_exists, dest_exists, overwrite),
{
    if dest_exists && !overwrite {
        JobAction::SkipExisting
    } else if !source_exists {
        JobAction::FailMissingSource
    } else if dest_exists {
        JobAction::ReplaceThenConvert
    } else {
        JobAction::Convert
    }
}

/// The terminal state of one job. A failure carries the diagnostic text
/// captured from the transcoder (or the reason the job could not start).
pub enum JobOutcome {
    Converted,
    SkippedExisting,
    Failed(String),
}

/// How many outcomes in `s` are successful conversions.
pub open spec fn count_converted(s: Seq<JobOutcome>) -> int
    decreases s.len(),
{
    if s.len() == 0 {
        0
    } else {
        count_converted(s.drop_last()) + if s.last() is Converted {
            1int
        } else {
            0int
        }
    }
}

/// How many outcomes in `s` are skips of an already-satisfied job.
pub open spec fn count_skipped(s: Seq<JobOutcome>) -> int
    decreases s.len(),
{
    if s.len() == 0 {
        0
    } else {
        count_skipped(s.drop_last()) + if s.last() is SkippedExisting {
            1int
        } else {
            0int
        }
    }
}

/// How many outcomes in `s` are failures.
pub open spec fn count_failed(s: Seq<JobOutcome>) -> int
    decreases s.len(),
{
    if s.len() == 0 {
        0
    } else {
        count_failed(s.drop_last()) + if s.last() is Failed {
            1int
        } else {
            0int
        }
    }
}

/// The diagnostics of the failures in `s`, in order.
pub open spec fn failures_of(s: Seq<JobOutcome>) -> Seq<Seq<char>>
    decreases s.len(),
{
    if s.len() == 0 {
        Seq::empty()
    } else {
        failures_of(s.drop_last()) + match s.last() {
            JobOutcome::Failed(d) => seq![d@],
            _ => Seq::empty(),
        }
    }
}

/// What a run reports: the counts of each terminal state and the
/// diagnostic of every failure.
pub struct RunReport {
    pub converted: u64,
    pub skipped: u64,
    pub failed: u64,
    pub failures: Vec<String>,
}

impl RunReport {
    /// The counts agree with the recorded diagnostics.
    pub open spec fn wf(&self) -> bool {
        self.failed as int == self.failures@.len()
    }

    /// Jobs that reached a terminal state.
    pub open spec fn total(&self) -> int {
        self.converted + self.skipped + self.failed
    }
}

/// Folds the terminal states of a batch into its report. Each outcome is
/// counted exactly once, so a failure among the rest leaves every other
/// job's accounting untouched.
pub fn summarize(outcomes: &Vec<JobOutcome>) -> (r: RunReport)
    ensures
        r.wf(),
        r.converted as int == count_converted(outcomes@),
        r.skipped as int == count_skipped(outcomes@),
        r.failed as int == count_failed(outcomes@),
        r.failures.deep_view() == failures_of(outcomes@),
        r.total() == outcomes@.len(),
{
    let mut converted: u64 = 0;
    let mut skipped: u64 = 0;
    let mut failed: u64 = 0;
    let mut failures: Vec<String> = Vec::new();
    let mut i: usize = 0;
    while i < outcomes.len()
        invariant
            i <= outcomes@.len(),
            converted as int == count_converted(outcomes@.take(i as int)),
            skipped as int == count_skipped(outcomes@.take(i as int)),
            failed as int == count_failed(outcomes@.take(i as int)),
            failures.deep_view() == failures_of(outcomes@.take(i as int)),
            failed as int == failures@.len(),
            converted + skipped + failed == i,
        decreases outcomes@.len() - i,
    {
        proof {
            assert(outcomes@.take(i + 1).drop_last() =~= outcomes@.take(i as int));
            assert(outcomes@.take(i + 1).last() == outcomes@[i as int]);
        }
        let ghost before = failures.deep_view();
        match &outcomes[i] {
            JobOutcome::Converted => {
                converted = converted + 1;
            },
            JobOutcome::SkippedExisting => {
                skipped = skipped + 1;
            },
            JobOutcome::Failed(d) => {
                failed = failed + 1;
                failures.push(d.clone());
                proof {
                    assert(failures.deep_view() =~= before + seq![outcomes@[i as int]->Failed_0@]);
                }
            },
        }
        i = i + 1;
    }
    proof {
        assert(outcomes@.take(outcomes@.len() as int) =~= outcomes@);
    }
    RunReport { converted, skipped, failed, failures }
}

/// Each count is bounded by the number of outcomes.
pub proof fn lemma_counts_bounded(s: Seq<JobOutcome>)
    ensures
        0 <= count_converted(s) <= s.len(),
        0 <= count_skipped(s) <= s.len(),
        0 <= count_failed(s) <= s.len(),
        count_converted(s) + count_skipped(s) + count_failed(s) == s.len(),
    decreases s.len(),
{
    if s.len() > 0 {
        lemma_counts_bounded(s.drop_last());
    }
}

/// The run's exit status: zero exactly when no job failed.
pub fn exit_code(r: &RunReport) -> (c: i32)
    ensures
        c == if r.failed == 0 {
            0i32
        } else {
            1i32
        },
{
    if r.failed == 0 {
        0
    } else {
        1
    }
}

/// A batch whose every job converted has a clean report: no failures, no
/// skips, and a conversion counted for each job.
pub proof fn lemma_all_converted(s: Seq<JobOutcome>)
    requires
        forall|i: int| 0 <= i < s.len() ==> s[i] is Converted,
    ensures
        count_converted(s) == s.len(),
        count_skipped(s) == 0,
        count_failed(s) == 0,
    decreases s.len(),
{
    if s.len() > 0 {
        assert(forall|i: int| 0 <= i < s.drop_last().len() ==> s.drop_last()[i] == s[i]);
        lemma_all_converted(s.drop_last());
    }
}

/// Partial-failure isolation: in a batch where exactly one job fails and
/// the rest convert, the report counts that one failure and a conversion
/// for every other job — so the failure is surfaced (nonzero exit) while
/// the remaining work is reflected in full.
pub proof fn lemma_partial_failure(s: Seq<JobOutcome>, k: int)
    requires
        0 <= k < s.len(),
        s[k] is Failed,
        forall|i: int| 0 <= i < s.len() && i != k ==> s[i] is Converted,
    ensures
        count_failed(s) == 1,
        count_converted(s) == s.len() - 1,
        count_skipped(s) == 0,
    decreases s.len(),
{
    assert(forall|i: int| 0 <= i < s.drop_last().len() ==> s.drop_last()[i] == s[i]);
    if k == s.len() - 1 {
        lemma_all_converted(s.drop_last());
    } else {
        lemma_partial_failure(s.drop_last(), k);
    }
}

} // verus!
