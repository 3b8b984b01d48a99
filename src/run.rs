//! One extraction run as a state machine: the caller asks for the next step,
//! performs the rasterizer invocation it is told to, and reports the result.
//! Batches go strictly in order; a batch is retried up to `MAX_RETRIES` times;
//! cancellation is honoured at batch boundaries.

use vstd::prelude::*;
use crate::inventory::{get_missing_pages, is_inventory, names_view, page_is_stored, strictly_ascending};
use crate::planner::{
    batch_count, batch_of, is_batch_plan, lemma_batch_count, lemma_batch_starts_inside, plan_batches,
};
use crate::progress::{estimated_seconds, ProgressState};
use crate::reconcile::{merge_pages, BatchOutcome, RunReport};

verus! {

/// Attempts made at one batch before its pages count as failed.
pub const MAX_RETRIES: usize = 3;

/// Seconds one rasterizer invocation may take before it counts as a failed attempt.
pub const MAX_TIMEOUT_SECS: u64 = 60;

/// The state of a run, as the contracts see it.
pub struct RunView {
    /// The pages without an image at the start, ascending.
    pub missing: Seq<usize>,
    /// The pages with an image at the start, ascending.
    pub present: Seq<usize>,
    pub batch_size: nat,
    /// `missing` cut into batches of `batch_size`.
    pub batches: Seq<Seq<usize>>,
    /// How many batches are settled, in order; the next one is `batches[completed]`.
    pub completed: nat,
    /// Failed attempts so far at `batches[completed]`.
    pub attempts: nat,
    /// For each settled batch, whether it succeeded.
    pub succeeded: Seq<bool>,
    pub cancelled: bool,
    pub finished: bool,
    /// Pages extracted during this run.
    pub processed: nat,
    pub to_process: nat,
    pub total_pages: nat,
    /// Pages with an image so far, ascending.
    pub extracted: Seq<usize>,
    /// Pages of failed batches, in order.
    pub failures: Seq<usize>,
    /// The last estimate of the seconds left.
    pub eta: nat,
}

/// How many pages the succeeded batches among the first `ok.len()` hold.
pub open spec fn succeeded_total(batches: Seq<Seq<usize>>, ok: Seq<bool>) -> nat
    decreases ok.len(),
{
    if ok.len() == 0 {
        0
    } else {
        succeeded_total(batches, ok.drop_last()) + if ok.last() {
            batches[ok.len() - 1].len()
        } else {
            0
        }
    }
}

/// The pages of the failed batches among the first `ok.len()`, in order.
pub open spec fn failed_pages(batches: Seq<Seq<usize>>, ok: Seq<bool>) -> Seq<usize>
    decreases ok.len(),
{
    if ok.len() == 0 {
        seq![]
    } else if ok.last() {
        failed_pages(batches, ok.drop_last())
    } else {
        failed_pages(batches, ok.drop_last()) + batches[ok.len() - 1]
    }
}

/// Some succeeded batch among the first `ok.len()` holds `page`.
pub open spec fn extracted_in_run(batches: Seq<Seq<usize>>, ok: Seq<bool>, page: usize) -> bool {
    exists|i: int| 0 <= i < ok.len() && ok[i] && #[trigger] batches[i].contains(page)
}

/// What holds of every state a run passes through.
pub open spec fn run_invariant(v: RunView) -> bool {
    &&& strictly_ascending(v.missing)
    &&& forall|i: int| 0 <= i < v.missing.len() ==> v.missing[i] >= 1
    &&& strictly_ascending(v.present)
    &&& forall|p: usize| #[trigger] v.missing.contains(p) ==> !v.present.contains(p)
    &&& v.batch_size > 0
    &&& is_batch_plan(v.missing, v.batch_size, v.batches)
    &&& v.to_process == v.missing.len()
    &&& v.completed <= v.batches.len()
    &&& v.succeeded.len() == v.completed
    &&& v.attempts < MAX_RETRIES
    &&& v.attempts > 0 ==> v.completed < v.batches.len()
    &&& v.finished ==> v.attempts == 0 && (v.cancelled || v.completed == v.batches.len())
    &&& v.cancelled ==> v.finished
    &&& v.processed == succeeded_total(v.batches, v.succeeded)
    &&& v.failures == failed_pages(v.batches, v.succeeded)
    &&& strictly_ascending(v.extracted)
    &&& forall|p: usize| #[trigger] v.extracted.contains(p) <==> v.present.contains(p)
        || extracted_in_run(v.batches, v.succeeded, p)
}

/// The report a finished run gives.
pub open spec fn report_of(report: RunReport, v: RunView) -> bool {
    if v.cancelled {
        report == RunReport::Cancelled { processed: v.processed as usize, to_process: v.to_process as usize }
    } else if v.failures.len() == 0 {
        report == RunReport::Completed { processed: v.processed as usize }
    } else {
        match report {
            RunReport::PartialFailure { processed, failed } => processed == v.processed && failed@
                == v.failures,
            _ => false,
        }
    }
}

/// What the caller does next.
pub enum RunStep {
    /// Invoke the rasterizer on the current batch and report with `record_attempt`.
    Rasterize,
    /// The run is over.
    Finish(RunReport),
}

/// A run that is under way.
pub struct ExtractionRun {
    missing: Vec<usize>,
    batches: Vec<Vec<usize>>,
    completed: usize,
    attempts: usize,
    cancelled: bool,
    finished: bool,
    processed: usize,
    extracted: Vec<usize>,
    failures: Vec<usize>,
    progress: ProgressState,
    batch_size: Ghost<nat>,
    present: Ghost<Seq<usize>>,
    succeeded: Ghost<Seq<bool>>,
    settled_pages: Ghost<nat>,
}

/// How a run starts.
pub enum RunStart {
    /// Every page already has an image: there is nothing to rasterize.
    AlreadyExtracted { total_pages: usize },
    Started(ExtractionRun),
}

impl View for ExtractionRun {
    type V = RunView;

    closed spec fn view(&self) -> RunView {
        RunView {
            missing: self.missing@,
            present: self.present@,
            batch_size: self.batch_size@,
            batches: self.batches@.map_values(|b: Vec<usize>| b@),
            completed: self.completed as nat,
            attempts: self.attempts as nat,
            succeeded: self.succeeded@,
            cancelled: self.cancelled,
            finished: self.finished,
            processed: self.processed as nat,
            to_process: self.progress.pages_to_process as nat,
            total_pages: self.progress.total_document_pages as nat,
            extracted: self.extracted@,
            failures: self.failures@,
            eta: self.progress.estimated_seconds_remaining as nat,
        }
    }
}

impl ExtractionRun {
    /// The run's state is consistent.
    pub closed spec fn wf(&self) -> bool {
        &&& run_invariant(self@)
        &&& self.progress.pages_processed == self.processed
        &&& self.progress.extracted_page_numbers@ == self.extracted@
        &&& self.settled_pages@ <= self.missing@.len()
        &&& self.processed <= self.settled_pages@
        &&& self.completed < self.batches@.len() ==> self.settled_pages@ == self.completed * self@.batch_size
    }

    /// The latest progress snapshot.
    pub fn progress(&self) -> (r: &ProgressState)
        requires
            self.wf(),
        ensures
            r.pages_processed == self@.processed,
            r.pages_to_process == self@.to_process,
            r.total_document_pages == self@.total_pages,
            r.estimated_seconds_remaining == self@.eta,
            r.extracted_page_numbers@ == self@.extracted,
    {
        &self.progress
    }

    /// Plans a run over the document's `total_pages` pages, given the names of the
    /// files in the output directory and the batch size.
    pub fn start(file_names: &Vec<String>, total_pages: usize, batch_size: usize) -> (r: RunStart)
        requires
            batch_size > 0,
        ensures
            (r is AlreadyExtracted) <==> forall|p: int|
                1 <= p <= total_pages ==> page_is_stored(names_view(file_names@), p),
            match r {
                RunStart::AlreadyExtracted { total_pages: n } => n == total_pages,
                RunStart::Started(run) => {
                    &&& run.wf()
                    &&& run_invariant(run@)
                    &&& is_inventory(names_view(file_names@), total_pages as nat, run@.missing, run@.present)
                    &&& run@.batch_size == batch_size
                    &&& run@.total_pages == total_pages
                    &&& run@.completed == 0
                    &&& run@.attempts == 0
                    &&& !run@.finished
                    &&& run@.processed == 0
                    &&& run@.extracted == run@.present
                    &&& run@.failures.len() == 0
                    &&& run@.eta == run@.to_process
                },
            },
    {
        let (missing, present) = get_missing_pages(file_names, total_pages);
        let ghost names = names_view(file_names@);
        if missing.len() == 0 {
            proof {
                assert forall|p: int| 1 <= p <= total_pages implies page_is_stored(names, p) by {
                    assert(!missing@.contains(p as usize));
                }
            }
            return RunStart::AlreadyExtracted { total_pages };
        }
        proof {
            assert(missing@.contains(missing@[0]));
            assert(!page_is_stored(names, missing@[0] as int));
        }
        let batches = plan_batches(&missing, batch_size);
        let ghost present_pages = present@;
        let mut progress = ProgressState::new(total_pages);
        progress.update(0, missing.len(), 0, copy_pages(&present));
        let run = ExtractionRun {
            missing,
            batches,
            completed: 0,
            attempts: 0,
            cancelled: false,
            finished: false,
            processed: 0,
            extracted: present,
            failures: Vec::new(),
            progress,
            batch_size: Ghost(batch_size as nat),
            present: Ghost(present_pages),
            succeeded: Ghost(Seq::empty()),
            settled_pages: Ghost(0),
        };
        proof {
            assert(run@.batches.len() == batch_count(run@.missing.len(), batch_size as nat));
            lemma_first_batch(run@.missing.len(), batch_size as nat);
            assert(0 * run@.batch_size == 0) by (nonlinear_arith);
            assert forall|i: int| 0 <= i < run@.missing.len() implies run@.missing[i] >= 1 by {
                assert(run@.missing.contains(run@.missing[i]));
            }
        }
        RunStart::Started(run)
    }

    /// Decides what comes next. A cancellation request ends the run: a batch whose
    /// attempts have begun is then settled as failed; no further batch starts.
    /// Otherwise the next batch is rasterized, or the run ends once all are settled.
    pub fn next_step(&mut self, cancel_requested: bool) -> (r: RunStep)
        requires
            old(self).wf(),
            !old(self)@.finished,
        ensures
            final(self).wf(),
            run_invariant(final(self)@),
            same_plan(old(self)@, final(self)@),
            final(self)@.eta == old(self)@.eta,
            (r is Rasterize) <==> !cancel_requested && old(self)@.completed < old(self)@.batches.len(),
            r is Rasterize ==> final(self)@ == old(self)@,
            match r {
                RunStep::Finish(report) => final(self)@.finished && report_of(report, final(self)@),
                RunStep::Rasterize => true,
            },
            final(self)@.cancelled == cancel_requested,
            cancel_requested && old(self)@.attempts > 0 ==> {
                &&& final(self)@.completed == old(self)@.completed + 1
                &&& final(self)@.succeeded == old(self)@.succeeded.push(false)
                &&& final(self)@.failures == old(self)@.failures + old(self)@.batches[old(self)@.completed as int]
                &&& final(self)@.processed == old(self)@.processed
                &&& final(self)@.extracted == old(self)@.extracted
            },
            !(cancel_requested && old(self)@.attempts > 0) ==> {
                &&& final(self)@.completed == old(self)@.completed
                &&& final(self)@.succeeded == old(self)@.succeeded
                &&& final(self)@.failures == old(self)@.failures
                &&& final(self)@.processed == old(self)@.processed
                &&& final(self)@.extracted == old(self)@.extracted
            },
    {
        let ghost v0 = self@;
        if cancel_requested {
            if self.attempts > 0 {
                let c = self.completed;
                let batch_total = self.batches.len();
                proof {
                    assert(c < batch_total);
                    assert(self.batches@.len() == v0.batches.len());
                    assert(self.batches@[c as int]@ == v0.batches[c as int]);
                    lemma_settle_failed(v0);
                    lemma_batch_starts_inside(v0.missing.len(), v0.batch_size, v0.completed);
                }
                append_pages(&mut self.failures, self.batches[c].as_slice());
                self.succeeded = Ghost(self.succeeded@.push(false));
                self.completed = c + 1;
                self.attempts = 0;
                proof {
                    lemma_next_batch_start(v0.missing, v0.batch_size, v0.completed, self.settled_pages@);
                }
                self.settled_pages = Ghost(self.settled_pages@ + v0.batches[c as int].len());
            }
            self.cancelled = true;
            self.finished = true;
            let report = RunReport::Cancelled { processed: self.processed, to_process: self.progress.pages_to_process };
            return RunStep::Finish(report);
        }
        if self.completed < self.batches.len() {
            return RunStep::Rasterize;
        }
        self.finished = true;
        if self.failures.len() == 0 {
            RunStep::Finish(RunReport::Completed { processed: self.processed })
        } else {
            RunStep::Finish(RunReport::PartialFailure { processed: self.processed, failed: copy_pages(&self.failures) })
        }
    }

    /// Records the result of one invocation on the current batch. On success every
    /// page of the batch is extracted; on the last allowed failure every page of it
    /// has failed; before that the batch is simply tried again. Once the batch is
    /// settled its outcome is returned and the progress snapshot is brought up to
    /// date with `elapsed_millis`, the time since the run started.
    pub fn record_attempt(&mut self, succeeded: bool, elapsed_millis: u64) -> (r: Option<BatchOutcome>)
        requires
            old(self).wf(),
            !old(self)@.finished,
            old(self)@.completed < old(self)@.batches.len(),
        ensures
            final(self).wf(),
            run_invariant(final(self)@),
            same_plan(old(self)@, final(self)@),
            !final(self)@.finished,
            !final(self)@.cancelled,
            succeeded ==> settled_as(old(self)@, final(self)@, r, true, elapsed_millis as nat),
            !succeeded && old(self)@.attempts + 1 == MAX_RETRIES ==> settled_as(
                old(self)@,
                final(self)@,
                r,
                false,
                elapsed_millis as nat,
            ),
            !succeeded && old(self)@.attempts + 1 < MAX_RETRIES ==> r is None && final(self)@ == (RunView {
                attempts: old(self)@.attempts + 1,
                ..old(self)@
            }),
    {
        let ghost v0 = self@;
        let c = self.completed;
        let batch_total = self.batches.len();
        proof {
            assert(c < batch_total);
            lemma_batch_starts_inside(v0.missing.len(), v0.batch_size, v0.completed);
        }
        if !succeeded && self.attempts + 1 < MAX_RETRIES {
            self.attempts = self.attempts + 1;
            proof {
                assert(self@ == (RunView { attempts: v0.attempts + 1, ..v0 }));
            }
            return None;
        }
        proof {
            assert(self.batches@.len() == v0.batches.len());
            assert(self.batches@[c as int]@ == v0.batches[c as int]);
            lemma_next_batch_start(v0.missing, v0.batch_size, v0.completed, self.settled_pages@);
        }
        let outcome = if succeeded {
            proof {
                lemma_settle_succeeded(v0);
            }
            merge_pages(&mut self.extracted, self.batches[c].as_slice());
            self.processed = self.processed + self.batches[c].len();
            self.succeeded = Ghost(self.succeeded@.push(true));
            BatchOutcome { succeeded: copy_pages(&self.batches[c]), failed: Vec::new() }
        } else {
            proof {
                lemma_settle_failed(v0);
            }
            append_pages(&mut self.failures, self.batches[c].as_slice());
            self.succeeded = Ghost(self.succeeded@.push(false));
            BatchOutcome { succeeded: Vec::new(), failed: copy_pages(&self.batches[c]) }
        };
        self.completed = c + 1;
        self.attempts = 0;
        let all_extracted = copy_pages(&self.extracted);
        self.progress.update(self.processed, self.progress.pages_to_process, elapsed_millis, all_extracted);
        proof {
            lemma_next_batch_start(v0.missing, v0.batch_size, v0.completed, self.settled_pages@);
        }
        self.settled_pages = Ghost(self.settled_pages@ + v0.batches[c as int].len());
        Some(outcome)
    }

    /// The pages of the batch the next invocation is for.
    pub fn current_batch(&self) -> (r: &Vec<usize>)
        requires
            self.wf(),
            self@.completed < self@.batches.len(),
        ensures
            r@ == self@.batches[self@.completed as int],
    {
        &self.batches[self.completed]
    }
}


/// A copy of a list of pages.
fn copy_pages(pages: &Vec<usize>) -> (r: Vec<usize>)
    ensures
        r@ == pages@,
{
    let mut out: Vec<usize> = Vec::new();
    let mut i: usize = 0;
    while i < pages.len()
        invariant
            i <= pages@.len(),
            out@ == pages@.subrange(0, i as int),
        decreases pages@.len() - i,
    {
        out.push(pages[i]);
        i = i + 1;
    }
    proof {
        assert(pages@.subrange(0, pages@.len() as int) =~= pages@);
    }
    out
}

/// Appends `pages` to `list`.
fn append_pages(list: &mut Vec<usize>, pages: &[usize])
    ensures
        final(list)@ == old(list)@ + pages@,
{
    let ghost start = list@;
    let mut i: usize = 0;
    while i < pages.len()
        invariant
            i <= pages@.len(),
            list@ == start + pages@.subrange(0, i as int),
        decreases pages@.len() - i,
    {
        list.push(pages[i]);
        i = i + 1;
        proof {
            assert(list@ =~= start + pages@.subrange(0, i as int));
        }
    }
    proof {
        assert(pages@.subrange(0, pages@.len() as int) =~= pages@);
    }
}

/// A non-empty list of pages makes at least one batch.
proof fn lemma_first_batch(n: nat, size: nat)
    requires
        n > 0,
        size > 0,
    ensures
        batch_count(n, size) >= 1,
{
    vstd::arithmetic::div_mod::lemma_div_is_ordered(size as int, n + size - 1, size as int);
    vstd::arithmetic::div_mod::lemma_div_multiples_vanish(1, size as int);
}

/// The parts of a run that never change.
pub open spec fn same_plan(v0: RunView, v1: RunView) -> bool {
    &&& v1.missing == v0.missing
    &&& v1.present == v0.present
    &&& v1.batch_size == v0.batch_size
    &&& v1.batches == v0.batches
    &&& v1.to_process == v0.to_process
    &&& v1.total_pages == v0.total_pages
}

/// `v1` is `v0` with its current batch settled as `ok`, reported by `r`.
pub open spec fn settled_as(v0: RunView, v1: RunView, r: Option<BatchOutcome>, ok: bool, elapsed_millis: nat) -> bool {
    let batch = v0.batches[v0.completed as int];
    &&& v1.completed == v0.completed + 1
    &&& v1.attempts == 0
    &&& v1.succeeded == v0.succeeded.push(ok)
    &&& v1.eta == estimated_seconds(v1.processed, v1.to_process, elapsed_millis)
    &&& if ok {
        &&& v1.processed == v0.processed + batch.len()
        &&& v1.failures == v0.failures
        &&& forall|p: usize| #[trigger] v1.extracted.contains(p) <==> v0.extracted.contains(p) || batch.contains(p)
        &&& r matches Some(o) && o.succeeded@ == batch && o.failed@.len() == 0
    } else {
        &&& v1.processed == v0.processed
        &&& v1.failures == v0.failures + batch
        &&& v1.extracted == v0.extracted
        &&& r matches Some(o) && o.succeeded@.len() == 0 && o.failed@ == batch
    }
}

/// Settling the current batch as failed adds its pages to the failures.
proof fn lemma_settle_failed(v: RunView)
    requires
        v.completed < v.batches.len(),
        v.succeeded.len() == v.completed,
    ensures
        failed_pages(v.batches, v.succeeded.push(false)) == failed_pages(v.batches, v.succeeded) + v.batches[v.completed as int],
        succeeded_total(v.batches, v.succeeded.push(false)) == succeeded_total(v.batches, v.succeeded),
        forall|p: usize| #[trigger] extracted_in_run(v.batches, v.succeeded.push(false), p) <==> extracted_in_run(v.batches, v.succeeded, p),
{
    let ok = v.succeeded.push(false);
    assert(ok.drop_last() =~= v.succeeded);
    assert forall|p: usize| #[trigger] extracted_in_run(v.batches, ok, p) <==> extracted_in_run(v.batches, v.succeeded, p) by {
        if extracted_in_run(v.batches, ok, p) {
            let i = choose|i: int| 0 <= i < ok.len() && ok[i] && #[trigger] v.batches[i].contains(p);
            assert(v.succeeded[i]);
        }
        if extracted_in_run(v.batches, v.succeeded, p) {
            let i = choose|i: int| 0 <= i < v.succeeded.len() && v.succeeded[i] && #[trigger] v.batches[i].contains(p);
            assert(ok[i]);
        }
    }
}

/// Settling the current batch as succeeded adds its pages to the extracted ones.
proof fn lemma_settle_succeeded(v: RunView)
    requires
        v.completed < v.batches.len(),
        v.succeeded.len() == v.completed,
    ensures
        failed_pages(v.batches, v.succeeded.push(true)) == failed_pages(v.batches, v.succeeded),
        succeeded_total(v.batches, v.succeeded.push(true)) == succeeded_total(v.batches, v.succeeded) + v.batches[v.completed as int].len(),
        forall|p: usize| #[trigger] extracted_in_run(v.batches, v.succeeded.push(true), p) <==> extracted_in_run(v.batches, v.succeeded, p)
            || v.batches[v.completed as int].contains(p),
{
    let ok = v.succeeded.push(true);
    assert(ok.drop_last() =~= v.succeeded);
    assert forall|p: usize| #[trigger] extracted_in_run(v.batches, ok, p) <==> extracted_in_run(v.batches, v.succeeded, p)
        || v.batches[v.completed as int].contains(p) by {
        if extracted_in_run(v.batches, ok, p) {
            let i = choose|i: int| 0 <= i < ok.len() && ok[i] && #[trigger] v.batches[i].contains(p);
            if i < v.succeeded.len() {
                assert(v.succeeded[i]);
            }
        }
        if extracted_in_run(v.batches, v.succeeded, p) {
            let i = choose|i: int| 0 <= i < v.succeeded.len() && v.succeeded[i] && #[trigger] v.batches[i].contains(p);
            assert(ok[i]);
        }
        if v.batches[v.completed as int].contains(p) {
            assert(ok[v.completed as int]);
        }
    }
}

/// Once the batch `c` is settled, the settled pages reach the start of the next.
proof fn lemma_next_batch_start(pages: Seq<usize>, size: nat, c: nat, settled: nat)
    requires
        size > 0,
        c < batch_count(pages.len(), size),
        settled == c * size,
    ensures
        settled + batch_of(pages, size, c as int).len() <= pages.len(),
        c + 1 < batch_count(pages.len(), size) ==> settled + batch_of(pages, size, c as int).len() == (c + 1)
            * size,
{
    let n = pages.len();
    lemma_batch_starts_inside(n, size, c);
    assert((c + 1) * size == c * size + size) by (nonlinear_arith);
    if (c + 1) * size >= n {
        lemma_batch_count(n, size, c as int);
    }
}

/// A settled batch is accounted for whole: if it succeeded, every page of it is
/// extracted and none has failed; if it failed (all its attempts, or abandoned on
/// cancellation), no page of it is extracted and every page of it has failed.
pub proof fn lemma_settled_batch_accounted(v: RunView, i: int)
    requires
        run_invariant(v),
        0 <= i < v.completed,
    ensures
        v.succeeded[i] ==> forall|p: usize| #[trigger] v.batches[i].contains(p) ==> v.extracted.contains(p)
            && !v.failures.contains(p),
        !v.succeeded[i] ==> forall|p: usize| #[trigger] v.batches[i].contains(p) ==> !v.extracted.contains(p)
            && v.failures.contains(p),
{
    assert forall|p: usize| #[trigger] v.batches[i].contains(p) implies (v.succeeded[i] ==> v.extracted.contains(p)
        && !v.failures.contains(p)) && (!v.succeeded[i] ==> !v.extracted.contains(p) && v.failures.contains(p)) by {
        lemma_batch_page_missing(v, i, p);
        lemma_failed_pages_contains(v.batches, v.succeeded, p);
        if v.succeeded[i] {
            assert(extracted_in_run(v.batches, v.succeeded, p));
            if v.failures.contains(p) {
                let j = choose|j: int| 0 <= j < v.succeeded.len() && !v.succeeded[j] && #[trigger] v.batches[j].contains(p);
                lemma_batches_disjoint(v, i, j, p);
            }
        } else {
            if extracted_in_run(v.batches, v.succeeded, p) {
                let j = choose|j: int| 0 <= j < v.succeeded.len() && v.succeeded[j] && #[trigger] v.batches[j].contains(p);
                lemma_batches_disjoint(v, i, j, p);
            }
        }
    }
}

/// A batch not yet settled is untouched: none of its pages is extracted or has
/// failed. After a cancellation this holds of every batch after the last one settled.
pub proof fn lemma_unsettled_batch_untouched(v: RunView, j: int)
    requires
        run_invariant(v),
        v.completed <= j < v.batches.len(),
    ensures
        forall|p: usize| #[trigger] v.batches[j].contains(p) ==> !v.extracted.contains(p) && !v.failures.contains(p),
{
    assert forall|p: usize| #[trigger] v.batches[j].contains(p) implies !v.extracted.contains(p)
        && !v.failures.contains(p) by {
        lemma_batch_page_missing(v, j, p);
        lemma_failed_pages_contains(v.batches, v.succeeded, p);
        if extracted_in_run(v.batches, v.succeeded, p) {
            let i = choose|i: int| 0 <= i < v.succeeded.len() && v.succeeded[i] && #[trigger] v.batches[i].contains(p);
            lemma_batches_disjoint(v, i, j, p);
        }
        if v.failures.contains(p) {
            let i = choose|i: int| 0 <= i < v.succeeded.len() && !v.succeeded[i] && #[trigger] v.batches[i].contains(p);
            lemma_batches_disjoint(v, i, j, p);
        }
    }
}

/// A cancelled run reports as processed exactly the pages of the batches that
/// succeeded before it stopped, out of all the pages that were missing.
pub proof fn lemma_cancelled_report(v: RunView, report: RunReport)
    requires
        run_invariant(v),
        v.cancelled,
        report_of(report, v),
    ensures
        v.finished,
        v.succeeded.len() == v.completed,
        report == (RunReport::Cancelled {
            processed: succeeded_total(v.batches, v.succeeded) as usize,
            to_process: v.missing.len() as usize,
        }),
{
}

/// A page of a batch was missing at the start.
proof fn lemma_batch_page_missing(v: RunView, i: int, p: usize)
    requires
        run_invariant(v),
        0 <= i < v.batches.len(),
        v.batches[i].contains(p),
    ensures
        v.missing.contains(p),
        !v.present.contains(p),
{
    let n = v.missing.len();
    let s = v.batch_size;
    lemma_batch_starts_inside(n, s, i as nat);
    assert(v.batches[i] == batch_of(v.missing, s, i));
    let k = v.batches[i].index_of(p);
    lemma_batch_index(v, i, k);
    assert(v.missing[i * s + k] == p);
    assert(v.missing.contains(p));
}

/// Where a page of a batch stands in the missing pages.
proof fn lemma_batch_index(v: RunView, i: int, k: int)
    requires
        run_invariant(v),
        0 <= i < v.batches.len(),
        0 <= k < v.batches[i].len(),
    ensures
        0 <= i * v.batch_size + k < v.missing.len(),
        k < v.batch_size,
        v.batches[i][k] == v.missing[i * v.batch_size + k],
{
    let n = v.missing.len();
    let s = v.batch_size;
    lemma_batch_starts_inside(n, s, i as nat);
    assert(i * s >= 0) by (nonlinear_arith)
        requires
            i >= 0,
            s >= 0,
    ;
    assert((i + 1) * s == i * s + s) by (nonlinear_arith);
    assert(v.batches[i] == batch_of(v.missing, s, i));
}

/// No page is in two batches.
proof fn lemma_batches_disjoint(v: RunView, i: int, j: int, p: usize)
    requires
        run_invariant(v),
        0 <= i < v.batches.len(),
        0 <= j < v.batches.len(),
        v.batches[i].contains(p),
        v.batches[j].contains(p),
    ensures
        i == j,
{
    let n = v.missing.len();
    let s = v.batch_size;
    lemma_batch_starts_inside(n, s, i as nat);
    lemma_batch_starts_inside(n, s, j as nat);
    assert(v.batches[i] == batch_of(v.missing, s, i));
    assert(v.batches[j] == batch_of(v.missing, s, j));
    let a = v.batches[i].index_of(p);
    let b = v.batches[j].index_of(p);
    lemma_batch_index(v, i, a);
    lemma_batch_index(v, j, b);
    assert(v.missing[i * s + a] == p);
    assert(v.missing[j * s + b] == p);
    assert((i + 1) * s == i * s + s) by (nonlinear_arith);
    assert((j + 1) * s == j * s + s) by (nonlinear_arith);
    if i < j {
        assert((i + 1) * s <= j * s) by (nonlinear_arith)
            requires
                i + 1 <= j,
                s > 0,
        ;
        assert(i * s + a < j * s + b) by (nonlinear_arith)
            requires
                (i + 1) * s <= j * s,
                a < s,
                (i + 1) * s == i * s + s,
                b >= 0,
        ;
    } else if j < i {
        assert((j + 1) * s <= i * s) by (nonlinear_arith)
            requires
                j + 1 <= i,
                s > 0,
        ;
        assert(j * s + b < i * s + a) by (nonlinear_arith)
            requires
                (j + 1) * s <= i * s,
                b < s,
                (j + 1) * s == j * s + s,
                a >= 0,
        ;
    }
}

/// The failures hold exactly the pages of the failed settled batches.
proof fn lemma_failed_pages_contains(batches: Seq<Seq<usize>>, ok: Seq<bool>, p: usize)
    requires
        ok.len() <= batches.len(),
    ensures
        failed_pages(batches, ok).contains(p) <==> exists|i: int| 0 <= i < ok.len() && !ok[i] && #[trigger] batches[i].contains(p),
    decreases ok.len(),
{
    if ok.len() == 0 {
        assert(!failed_pages(batches, ok).contains(p));
    } else {
        let init = ok.drop_last();
        lemma_failed_pages_contains(batches, init, p);
        let last = ok.len() - 1;
        let before = failed_pages(batches, init);
        assert(failed_pages(batches, ok) == if ok.last() { before } else { before + batches[last] });
        if exists|i: int| 0 <= i < ok.len() && !ok[i] && #[trigger] batches[i].contains(p) {
            let i = choose|i: int| 0 <= i < ok.len() && !ok[i] && #[trigger] batches[i].contains(p);
            if i < last {
                assert(!init[i]);
                assert(before.contains(p));
                let k = before.index_of(p);
                if !ok.last() {
                    assert((before + batches[last])[k] == p);
                }
            } else {
                let k = batches[last].index_of(p);
                assert((before + batches[last])[before.len() + k] == p);
            }
            assert(failed_pages(batches, ok).contains(p));
        }
        if failed_pages(batches, ok).contains(p) {
            if ok.last() {
                let i = choose|i: int| 0 <= i < init.len() && !init[i] && #[trigger] batches[i].contains(p);
                assert(!ok[i]);
            } else {
                let all = before + batches[last];
                let k = all.index_of(p);
                if k < before.len() {
                    assert(before[k] == p);
                    let i = choose|i: int| 0 <= i < init.len() && !init[i] && #[trigger] batches[i].contains(p);
                    assert(!ok[i]);
                } else {
                    assert(batches[last][k - before.len()] == p);
                    assert(batches[last].contains(p));
                    assert(!ok[last]);
                }
            }
        }
    }
}

} // verus!
