//! Reconciliation of batch results: the running set of extracted pages, the
//! renaming of the rasterizer's files, and the final report of a run.

use vstd::prelude::*;
use crate::inventory::strictly_ascending;
use crate::text::{decimal, push_decimal};

verus! {

/// What became of one batch: every page of it is in exactly one of the two lists.
pub struct BatchOutcome {
    pub succeeded: Vec<usize>,
    pub failed: Vec<usize>,
}

/// Relies on rayon's `ParallelSliceMut::par_sort_unstable`: it leaves the slice in
/// ascending order, holding the same values as before.
#[verifier::external_body]
fn sort_pages(pages: &mut Vec<usize>)
    ensures
        final(pages)@.to_multiset() == old(pages)@.to_multiset(),
        forall|i: int, j: int| 0 <= i <= j < final(pages)@.len() ==> final(pages)@[i] <= final(pages)@[j],
{
    rayon::slice::ParallelSliceMut::par_sort_unstable(pages.as_mut_slice());
}

/// Adds `new_pages` to `extracted`, which ends up ascending without repetition.
pub fn merge_pages(extracted: &mut Vec<usize>, new_pages: &[usize])
    ensures
        strictly_ascending(final(extracted)@),
        forall|p: usize| #[trigger] final(extracted)@.contains(p) <==> old(extracted)@.contains(p) || new_pages@.contains(p),
{
    let ghost before = extracted@;
    let mut i: usize = 0;
    while i < new_pages.len()
        invariant
            i <= new_pages@.len(),
            extracted@ == before + new_pages@.subrange(0, i as int),
        decreases new_pages@.len() - i,
    {
        extracted.push(new_pages[i]);
        i = i + 1;
        proof {
            assert(extracted@ =~= before + new_pages@.subrange(0, i as int));
        }
    }
    let ghost all = extracted@;
    proof {
        assert(new_pages@.subrange(0, new_pages@.len() as int) =~= new_pages@);
        assert forall|p: usize| all.contains(p) <==> before.contains(p) || new_pages@.contains(p) by {
            if all.contains(p) {
                let k = all.index_of(p);
                if k >= before.len() {
                    assert(new_pages@[k - before.len()] == p);
                }
            }
            if before.contains(p) {
                let k = before.index_of(p);
                assert(all[k] == p);
            }
            if new_pages@.contains(p) {
                let k = new_pages@.index_of(p);
                assert(all[before.len() + k] == p);
            }
        }
    }
    sort_pages(extracted);
    proof {
        all.to_multiset_ensures();
        extracted@.to_multiset_ensures();
    }
    let mut unique: Vec<usize> = Vec::new();
    let mut j: usize = 0;
    while j < extracted.len()
        invariant
            j <= extracted@.len(),
            forall|a: int, b: int| 0 <= a <= b < extracted@.len() ==> extracted@[a] <= extracted@[b],
            strictly_ascending(unique@),
            j > 0 ==> unique@.len() > 0 && unique@.last() == extracted@[j - 1],
            j == 0 ==> unique@.len() == 0,
            forall|p: usize| #[trigger] unique@.contains(p) <==> extracted@.subrange(0, j as int).contains(p),
        decreases extracted@.len() - j,
    {
        let p = extracted[j];
        let ghost u0 = unique@;
        let n = unique.len();
        if n == 0 || unique[n - 1] != p {
            unique.push(p);
        }
        proof {
            let seen = extracted@.subrange(0, j + 1);
            assert(seen =~= extracted@.subrange(0, j as int).push(p));
            assert forall|q: usize| #[trigger] unique@.contains(q) <==> seen.contains(q) by {
                if unique@.contains(q) && q != p {
                    let k = unique@.index_of(q);
                    assert(u0[k] == q);
                    assert(u0.contains(q));
                    assert(extracted@.subrange(0, j as int).contains(q));
                    let m = extracted@.subrange(0, j as int).index_of(q);
                    assert(seen[m] == q);
                }
                if seen.contains(q) && q != p {
                    let k = seen.index_of(q);
                    assert(extracted@.subrange(0, j as int)[k] == q);
                    assert(extracted@.subrange(0, j as int).contains(q));
                    assert(u0.contains(q));
                    let m = u0.index_of(q);
                    assert(unique@[m] == q);
                }
                if q == p {
                    assert(seen[j as int] == p);
                    if unique@ == u0 {
                        assert(u0[u0.len() - 1] == p);
                    } else {
                        assert(unique@[u0.len() as int] == p);
                    }
                }
            }
            if n > 0 && u0.last() != p {
                assert(u0.last() == extracted@[j - 1]);
                assert(u0.last() < p);
            }
        }
        j = j + 1;
    }
    proof {
        assert(extracted@.subrange(0, extracted@.len() as int) =~= extracted@);
        assert forall|p: usize| #[trigger] unique@.contains(p) <==> before.contains(p) || new_pages@.contains(p) by {
            assert(unique@.contains(p) <==> extracted@.contains(p));
            assert(extracted@.contains(p) <==> extracted@.to_multiset().count(p) > 0);
            assert(all.contains(p) <==> all.to_multiset().count(p) > 0);
        }
    }
    *extracted = unique;
}

/// The name the rasterizer gives the image of the page with zero-based index `k`.
pub open spec fn raster_file_name(k: nat) -> Seq<char> {
    "index-"@ + decimal(k) + ".webp"@
}

/// The name under which the image of the one-based page `page` is kept.
pub open spec fn page_file_name(page: nat) -> Seq<char> {
    decimal(page) + ".webp"@
}

/// For each page, the rasterizer's file name and the file name the page is kept
/// under, in the order of `pages`.
pub fn rename_plan(pages: &[usize]) -> (r: Vec<(String, String)>)
    requires
        forall|i: int| 0 <= i < pages@.len() ==> pages@[i] >= 1,
    ensures
        r@.len() == pages@.len(),
        forall|i: int| 0 <= i < pages@.len() ==> {
            &&& (#[trigger] r@[i]).0@ == raster_file_name((pages@[i] - 1) as nat)
            &&& r@[i].1@ == page_file_name(pages@[i] as nat)
        },
{
    let mut plan: Vec<(String, String)> = Vec::new();
    let mut i: usize = 0;
    while i < pages.len()
        invariant
            i <= pages@.len(),
            forall|k: int| 0 <= k < pages@.len() ==> pages@[k] >= 1,
            plan@.len() == i,
            forall|k: int| 0 <= k < i ==> {
                &&& (#[trigger] plan@[k]).0@ == raster_file_name((pages@[k] - 1) as nat)
                &&& plan@[k].1@ == page_file_name(pages@[k] as nat)
            },
        decreases pages@.len() - i,
    {
        let page = pages[i];
        let mut from = String::new();
        from.append("index-");
        push_decimal(&mut from, page - 1);
        from.append(".webp");
        let mut to = String::new();
        push_decimal(&mut to, page);
        to.append(".webp");
        proof {
            assert(from@ =~= raster_file_name((page - 1) as nat));
            assert(to@ =~= page_file_name(page as nat));
        }
        plan.push((from, to));
        i = i + 1;
    }
    plan
}

/// How a run ended.
pub enum RunReport {
    /// Every page already had an image: nothing was rasterized.
    AllPresent { total_pages: usize },
    /// Cancelled: `processed` of the `to_process` missing pages were extracted.
    Cancelled { processed: usize, to_process: usize },
    /// Every batch succeeded; `processed` missing pages were extracted.
    Completed { processed: usize },
    /// Some pages exhausted their attempts; they are listed in `failed`.
    PartialFailure { processed: usize, failed: Vec<usize> },
}

/// Page numbers as a bracketed list separated by `, `.
pub open spec fn page_list_text(pages: Seq<usize>) -> Seq<char> {
    "["@ + page_list_items(pages) + "]"@
}

pub open spec fn page_list_items(pages: Seq<usize>) -> Seq<char>
    decreases pages.len(),
{
    if pages.len() == 0 {
        seq![]
    } else if pages.len() == 1 {
        decimal(pages[0] as nat)
    } else {
        page_list_items(pages.drop_last()) + ", "@ + decimal(pages.last() as nat)
    }
}

/// The text that reports a run's end.
pub open spec fn report_text(report: RunReport) -> Seq<char> {
    match report {
        RunReport::AllPresent { total_pages } => "All images already extracted. Found "@ + decimal(
            total_pages as nat,
        ) + " matching the total number of pages in the document."@,
        RunReport::Cancelled { processed, to_process } => "Document processing cancelled. "@
            + decimal(processed as nat) + " out of "@ + decimal(to_process as nat)
            + " missing pages extracted."@,
        RunReport::Completed { processed } => "Document processed successfully. "@ + decimal(
            processed as nat,
        ) + " missing pages extracted."@,
        RunReport::PartialFailure { processed, failed } => "Processed "@ + decimal(processed as nat)
            + " missing pages. Failed to process pages: "@ + page_list_text(failed@),
    }
}

impl RunReport {
    /// Whether the run counts as a success: any page left unextracted makes it a failure.
    pub fn is_success(&self) -> (r: bool)
        ensures
            r == !(self is PartialFailure),
    {
        match self {
            RunReport::PartialFailure { .. } => false,
            _ => true,
        }
    }

    /// The text that reports the run's end to the user.
    pub fn message(&self) -> (r: String)
        ensures
            r@ == report_text(*self),
    {
        let mut s = String::new();
        match self {
            RunReport::AllPresent { total_pages } => {
                s.append("All images already extracted. Found ");
                push_decimal(&mut s, *total_pages);
                s.append(" matching the total number of pages in the document.");
            },
            RunReport::Cancelled { processed, to_process } => {
                s.append("Document processing cancelled. ");
                push_decimal(&mut s, *processed);
                s.append(" out of ");
                push_decimal(&mut s, *to_process);
                s.append(" missing pages extracted.");
            },
            RunReport::Completed { processed } => {
                s.append("Document processed successfully. ");
                push_decimal(&mut s, *processed);
                s.append(" missing pages extracted.");
            },
            RunReport::PartialFailure { processed, failed } => {
                s.append("Processed ");
                push_decimal(&mut s, *processed);
                s.append(" missing pages. Failed to process pages: ");
                push_page_list(&mut s, failed);
            },
        }
        proof {
            assert(s@ =~= report_text(*self));
        }
        s
    }
}

fn push_page_list(s: &mut String, pages: &Vec<usize>)
    ensures
        final(s)@ == old(s)@ + page_list_text(pages@),
{
    s.append("[");
    let ghost start = s@;
    let mut i: usize = 0;
    while i < pages.len()
        invariant
            i <= pages@.len(),
            s@ == start + page_list_items(pages@.subrange(0, i as int)),
        decreases pages@.len() - i,
    {
        if i > 0 {
            s.append(", ");
        }
        push_decimal(s, pages[i]);
        proof {
            let seen = pages@.subrange(0, i + 1);
            assert(seen.drop_last() =~= pages@.subrange(0, i as int));
            assert(s@ =~= start + page_list_items(seen));
        }
        i = i + 1;
    }
    s.append("]");
    proof {
        assert(pages@.subrange(0, pages@.len() as int) =~= pages@);
        assert(s@ =~= old(s)@ + page_list_text(pages@));
    }
}

} // verus!
