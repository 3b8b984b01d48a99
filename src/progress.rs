//! Progress snapshots and the estimate of the time left.

use vstd::prelude::*;

verus! {

/// What a progress notification carries.
pub struct ProgressState {
    pub pages_processed: usize,
    pub pages_to_process: usize,
    pub total_document_pages: usize,
    pub estimated_seconds_remaining: u64,
    pub extracted_page_numbers: Vec<usize>,
}

/// The seconds left to process `to_process` pages once `processed` of them took
/// `elapsed_millis` milliseconds: the pages left over the observed rate, rounded
/// down, and at most `u64::MAX`. Before any page is done, one second per page.
pub open spec fn estimated_seconds(processed: nat, to_process: nat, elapsed_millis: nat) -> nat {
    if processed == 0 {
        to_process
    } else {
        let remaining: nat = if to_process > processed {
            (to_process - processed) as nat
        } else {
            0
        };
        let eta = remaining * elapsed_millis / (processed * 1000);
        if eta > u64::MAX {
            u64::MAX as nat
        } else {
            eta as nat
        }
    }
}

impl ProgressState {
    /// The snapshot before anything is known of the run but the document's size.
    pub fn new(total_document_pages: usize) -> (r: Self)
        ensures
            r.pages_processed == 0,
            r.pages_to_process == 0,
            r.total_document_pages == total_document_pages,
            r.estimated_seconds_remaining == 0,
            r.extracted_page_numbers@ == Seq::<usize>::empty(),
    {
        ProgressState {
            pages_processed: 0,
            pages_to_process: 0,
            total_document_pages,
            estimated_seconds_remaining: 0,
            extracted_page_numbers: Vec::new(),
        }
    }

    /// Records that `current_progress` of `num_missing_pages` pages are done after
    /// `elapsed_millis` milliseconds, with `all_extracted` the pages extracted so far.
    pub fn update(
        &mut self,
        current_progress: usize,
        num_missing_pages: usize,
        elapsed_millis: u64,
        all_extracted: Vec<usize>,
    )
        ensures
            final(self).pages_processed == current_progress,
            final(self).pages_to_process == num_missing_pages,
            final(self).total_document_pages == old(self).total_document_pages,
            final(self).estimated_seconds_remaining == estimated_seconds(
                current_progress as nat,
                num_missing_pages as nat,
                elapsed_millis as nat,
            ),
            final(self).extracted_page_numbers@ == all_extracted@,
    {
        self.pages_processed = current_progress;
        self.pages_to_process = num_missing_pages;
        self.estimated_seconds_remaining = estimate_seconds_remaining(
            current_progress,
            num_missing_pages,
            elapsed_millis,
        );
        self.extracted_page_numbers = all_extracted;
    }
}

/// The estimate of the seconds left; see `estimated_seconds`.
pub fn estimate_seconds_remaining(processed: usize, to_process: usize, elapsed_millis: u64) -> (r: u64)
    ensures
        r == estimated_seconds(processed as nat, to_process as nat, elapsed_millis as nat),
{
    if processed == 0 {
        return to_process as u64;
    }
    let remaining: u128 = if to_process > processed {
        (to_process - processed) as u128
    } else {
        0
    };
    assert(remaining * (elapsed_millis as u128) <= u128::MAX) by (nonlinear_arith)
        requires
            remaining <= u64::MAX,
            elapsed_millis <= u64::MAX,
    ;
    let eta = remaining * (elapsed_millis as u128) / ((processed as u128) * 1000);
    if eta > u64::MAX as u128 {
        u64::MAX
    } else {
        eta as u64
    }
}

/// Before any page is done, the estimate is one second per page to process.
pub proof fn lemma_eta_at_start(to_process: nat, elapsed_millis: nat)
    ensures
        estimated_seconds(0, to_process, elapsed_millis) == to_process,
{
}

/// At a constant rate of `millis_per_page` milliseconds a page, the estimate never
/// rises as more pages are done, and it is zero once all are.
pub proof fn lemma_eta_falls_at_constant_rate(to_process: nat, millis_per_page: nat, done_before: nat, done_after: nat)
    requires
        1 <= done_before <= done_after,
    ensures
        estimated_seconds(done_after, to_process, done_after * millis_per_page) <= estimated_seconds(
            done_before,
            to_process,
            done_before * millis_per_page,
        ),
        estimated_seconds(to_process, to_process, to_process * millis_per_page) == 0,
{
    lemma_eta_at_constant_rate(to_process, millis_per_page, done_before);
    lemma_eta_at_constant_rate(to_process, millis_per_page, done_after);
    let left_before: int = if to_process > done_before { to_process - done_before } else { 0 };
    let left_after: int = if to_process > done_after { to_process - done_after } else { 0 };
    assert(left_after * millis_per_page <= left_before * millis_per_page) by (nonlinear_arith)
        requires
            0 <= left_after <= left_before,
            millis_per_page >= 0,
    ;
    vstd::arithmetic::div_mod::lemma_div_is_ordered(left_after * millis_per_page, left_before * millis_per_page, 1000);
    if to_process > 0 {
        lemma_eta_at_constant_rate(to_process, millis_per_page, to_process);
    }
}

/// At a constant rate the estimate is the time the remaining pages take at it.
proof fn lemma_eta_at_constant_rate(to_process: nat, millis_per_page: nat, p: nat)
    requires
        p >= 1,
    ensures
        estimated_seconds(p, to_process, p * millis_per_page) == ({
            let remaining: int = if to_process > p { to_process - p } else { 0 };
            let eta = remaining * millis_per_page / 1000;
            if eta > u64::MAX { u64::MAX as int } else { eta }
        }),
{
    let remaining: int = if to_process > p { to_process - p } else { 0 };
    assert(remaining * (p * millis_per_page) == p * (remaining * millis_per_page)) by (nonlinear_arith);
    assert(remaining * millis_per_page >= 0) by (nonlinear_arith)
        requires
            remaining >= 0,
    ;
    vstd::arithmetic::div_mod::lemma_div_multiples_vanish_quotient(p as int, remaining * millis_per_page, 1000);
}

} // verus!
