//! Accounting for the artifact-cleaning phase: what one package's clean
//! yields given the measured size of its build-artifact directory and the
//! outcome of the external cleaner, the dry-run rule that nothing may be
//! deleted while the would-free count still equals the measured size, and the
//! batch summary.

use vstd::prelude::*;

verus! {

/// The result of cleaning one package's build artifacts.
#[derive(Debug)]
pub struct CleanResult {
    pub path: String,
    pub success: bool,
    pub freed_bytes: u64,
    pub error: Option<String>,
}

/// The mathematical value of a [`CleanResult`].
pub struct CleanResultView {
    pub path: Seq<char>,
    pub success: bool,
    pub freed_bytes: u64,
    pub error: Option<Seq<char>>,
}

impl View for CleanResult {
    type V = CleanResultView;

    open spec fn view(&self) -> CleanResultView {
        (CleanResultView {
            path: self.path@,
            success: self.success,
            freed_bytes: self.freed_bytes,
            error: match self.error {
                Some(e) => Some(e@),
                None => None,
            },
        })
    }
}

/// What the cleaning phase is allowed to do: on a dry run only measuring, and
/// otherwise running the external cleaner (with direct removal of the
/// artifact directory as its fallback).
#[derive(PartialEq, Eq, Structural, Clone, Copy, Debug)]
pub enum CleanAction {
    MeasureOnly,
    RunCleaner,
}

/// Decide the cleaning phase: a dry run measures and deletes nothing.
pub fn plan_clean(dry_run: bool) -> (r: CleanAction)
    ensures
        (r == CleanAction::MeasureOnly) <==> dry_run,
{
    if dry_run {
        CleanAction::MeasureOnly
    } else {
        CleanAction::RunCleaner
    }
}

/// How the cleaning of one package ended, reported by the caller that ran the
/// external cleaner.
pub enum CleanEvent {
    /// The external cleaner succeeded; the artifact directory measures
    /// `remaining_bytes` afterwards.
    CleanerSucceeded { remaining_bytes: u64 },
    /// The cleaner failed and the artifact directory was removed directly.
    FallbackRemoved,
    /// The cleaner failed and there was no artifact directory to remove.
    NoArtifacts,
    /// The cleaner failed and removing the artifact directory failed too.
    FallbackFailed { message: String },
}

/// The accounting rule for one package: a dry run reports the measured size
/// as what it would free; a successful clean frees the difference of the two
/// measurements; a fallback removal frees the whole measured size; a package
/// without artifacts frees nothing; and a failed fallback is the one failure
/// case, reported with its message.
pub open spec fn spec_clean_result(
    path: Seq<char>,
    dry_run: bool,
    before_bytes: u64,
    event: Option<CleanEvent>,
) -> CleanResultView {
    match event {
        None => (CleanResultView { path, success: true, freed_bytes: before_bytes, error: None }),
        Some(CleanEvent::CleanerSucceeded { remaining_bytes }) => (CleanResultView {
            path,
            success: true,
            freed_bytes: if remaining_bytes > before_bytes {
                0u64
            } else {
                (before_bytes - remaining_bytes) as u64
            },
            error: None,
        }),
        Some(CleanEvent::FallbackRemoved) => (CleanResultView {
            path,
            success: true,
            freed_bytes: before_bytes,
            error: None,
        }),
        Some(CleanEvent::NoArtifacts) => (CleanResultView {
            path,
            success: true,
            freed_bytes: 0u64,
            error: None,
        }),
        Some(CleanEvent::FallbackFailed { message }) => (CleanResultView {
            path,
            success: false,
            freed_bytes: 0u64,
            error: Some(message@),
        }),
    }
}

/// Account for the cleaning of one package. On a dry run no event may be
/// supplied, since nothing was done; otherwise exactly one is.
pub fn clean_project(
    path: &String,
    dry_run: bool,
    before_bytes: u64,
    event: Option<CleanEvent>,
) -> (r: CleanResult)
    requires
        dry_run <==> event is None,
    ensures
        r@ == spec_clean_result(path@, dry_run, before_bytes, event),
{
    let path_text = path.clone();
    match event {
        None => CleanResult { path: path_text, success: true, freed_bytes: before_bytes, error: None },
        Some(CleanEvent::CleanerSucceeded { remaining_bytes }) => {
            let freed = if remaining_bytes > before_bytes {
                0
            } else {
                before_bytes - remaining_bytes
            };
            CleanResult { path: path_text, success: true, freed_bytes: freed, error: None }
        },
        Some(CleanEvent::FallbackRemoved) => CleanResult {
            path: path_text,
            success: true,
            freed_bytes: before_bytes,
            error: None,
        },
        Some(CleanEvent::NoArtifacts) => CleanResult {
            path: path_text,
            success: true,
            freed_bytes: 0,
            error: None,
        },
        Some(CleanEvent::FallbackFailed { message }) => CleanResult {
            path: path_text,
            success: false,
            freed_bytes: 0,
            error: Some(message),
        },
    }
}

/// The dry-run byte counts are honest: what a dry run reports it would free
/// is the measured size of the artifact directory, which is exactly what a
/// real run frees when it removes the directory, or when the cleaner leaves
/// nothing behind. Together with [`plan_clean`] and the removal plan, a dry
/// run deletes nothing and invokes no manifest editor, yet reports the same
/// byte count a real measurement yields.
pub proof fn lemma_dry_run_accounting(path: Seq<char>, before_bytes: u64)
    ensures
        spec_clean_result(path, true, before_bytes, None).freed_bytes == before_bytes,
        spec_clean_result(
            path,
            false,
            before_bytes,
            Some(CleanEvent::FallbackRemoved),
        ).freed_bytes == before_bytes,
        spec_clean_result(
            path,
            false,
            before_bytes,
            Some(CleanEvent::CleanerSucceeded { remaining_bytes: 0u64 }),
        ).freed_bytes == before_bytes,
{
}

/// Saturating addition on byte counts.
pub open spec fn sat_add(a: u64, b: u64) -> u64 {
    if a + b > u64::MAX {
        u64::MAX
    } else {
        (a + b) as u64
    }
}

/// The saturating sum of a list of file sizes.
pub open spec fn spec_total_size(s: Seq<u64>) -> u64
    decreases s.len(),
{
    if s.len() == 0 {
        0u64
    } else {
        sat_add(spec_total_size(s.drop_last()), s.last())
    }
}

/// Total the sizes of the files of an artifact directory, saturating rather
/// than overflowing.
pub fn total_size(sizes: &Vec<u64>) -> (r: u64)
    ensures
        r == spec_total_size(sizes@),
{
    let n = sizes.len();
    let mut total: u64 = 0;
    let mut i: usize = 0;
    proof {
        assert(sizes@.take(0) =~= Seq::<u64>::empty());
    }
    while i < n
        invariant
            n == sizes@.len(),
            i <= n,
            total == spec_total_size(sizes@.take(i as int)),
        decreases n - i,
    {
        proof {
            assert(sizes@.take(i + 1).drop_last() =~= sizes@.take(i as int));
            assert(sizes@.take(i + 1).last() == sizes@[i as int]);
        }
        let sz = sizes[i];
        if total > u64::MAX - sz {
            total = u64::MAX;
        } else {
            total = total + sz;
        }
        i = i + 1;
    }
    proof {
        assert(sizes@.take(n as int) =~= sizes@);
    }
    total
}

/// The saturating sum of the bytes freed by a batch of results.
pub open spec fn spec_total_freed(s: Seq<CleanResultView>) -> u64
    decreases s.len(),
{
    if s.len() == 0 {
        0u64
    } else {
        sat_add(spec_total_freed(s.drop_last()), s.last().freed_bytes)
    }
}

/// How many results of a batch succeeded.
pub open spec fn count_cleaned(s: Seq<CleanResultView>) -> int
    decreases s.len(),
{
    if s.len() == 0 {
        0
    } else {
        count_cleaned(s.drop_last()) + if s.last().success {
            1int
        } else {
            0int
        }
    }
}

/// The number of successes lies between zero and the number of results.
pub proof fn lemma_count_cleaned_bounds(s: Seq<CleanResultView>)
    ensures
        0 <= count_cleaned(s) <= s.len(),
    decreases s.len(),
{
    if s.len() > 0 {
        lemma_count_cleaned_bounds(s.drop_last());
    }
}

/// The views of a sequence of clean results.
pub open spec fn clean_views(s: Seq<CleanResult>) -> Seq<CleanResultView> {
    s.map_values(|r: CleanResult| r@)
}

/// The batch summary: every package accounted for, the successes and
/// failures counted, and the freed bytes totalled.
#[derive(Debug)]
pub struct Summary {
    pub total_projects: usize,
    pub cleaned: usize,
    pub failed: usize,
    pub total_freed_bytes: u64,
    pub results: Vec<CleanResult>,
}

/// Summarize a batch of per-package results: the total is the batch size,
/// cleaned and failed partition it, and the freed bytes are summed with
/// saturation.
pub fn summarize(results: Vec<CleanResult>) -> (r: Summary)
    ensures
        r.total_projects == results@.len(),
        r.cleaned == count_cleaned(clean_views(results@)),
        r.failed == results@.len() - count_cleaned(clean_views(results@)),
        r.total_freed_bytes == spec_total_freed(clean_views(results@)),
        r.results == results,
{
    let ghost rv = clean_views(results@);
    let n = results.len();
    let mut cleaned: usize = 0;
    let mut total: u64 = 0;
    let mut i: usize = 0;
    proof {
        assert(rv.take(0) =~= Seq::<CleanResultView>::empty());
        lemma_count_cleaned_bounds(rv);
    }
    while i < n
        invariant
            n == results@.len(),
            i <= n,
            rv == clean_views(results@),
            rv.len() == n,
            forall|j: int| 0 <= j < n ==> rv[j] == results@[j]@,
            cleaned == count_cleaned(rv.take(i as int)),
            cleaned <= i,
            total == spec_total_freed(rv.take(i as int)),
        decreases n - i,
    {
        proof {
            assert(rv.take(i + 1).drop_last() =~= rv.take(i as int));
            assert(rv.take(i + 1).last() == rv[i as int]);
        }
        if results[i].success {
            cleaned = cleaned + 1;
        }
        let freed = results[i].freed_bytes;
        if total > u64::MAX - freed {
            total = u64::MAX;
        } else {
            total = total + freed;
        }
        i = i + 1;
    }
    proof {
        assert(rv.take(n as int) =~= rv);
    }
    let failed = n - cleaned;
    Summary {
        total_projects: n,
        cleaned,
        failed,
        total_freed_bytes: total,
        results,
    }
}

} // verus!
